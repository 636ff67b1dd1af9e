//! What the indexing of a page keeps true of the tables.
//!
//! The laws are stated of the indexing in terms of plain values and of the
//! model of the store: whatever the store answers within the model, each
//! step keeps the tables at rest and the indexing in step with them.

use crate::counting::{
    lemma_count_after_update, lemma_counted_row, lemma_filter_apart, lemma_filter_within,
    lemma_two_counted,
};
use crate::frequency::{lemma_count_within_total, total_count};
use crate::indexer::{Phase, Progress, Reply, Request};
use crate::models::website_keyword_tfidf::InsertWebsiteKeywordTfidfDao;
use crate::models::website_keywords::InsertWebsiteKeywordsDao;
use crate::store::{first_score, frequency_sum, upserted, KeywordRow, Store, WebsiteRow};
use vstd::prelude::*;

verus! {

/// The website row of the page that is indexed.
pub open spec fn site_row(progress: Progress) -> WebsiteRow {
    WebsiteRow { id: progress.website_id, url: progress.url, word_count: progress.word_count }
}

/// The keyword with this identifier is spelled as the term at place `j`.
pub open spec fn names_term(progress: Progress, store: Store, j: int, keyword_id: u128) -> bool {
    store.keywords.contains(KeywordRow { id: keyword_id, keyword: progress.terms[j].term@ })
}

/// The store holds the website of the page with its word count, and the
/// occurrence rows of that website are those of the first `n` terms: their
/// frequencies add up to the counts of these terms, and each row is for the
/// keyword of one of them.
pub open spec fn indexed_through(progress: Progress, store: Store, n: int) -> bool {
    &&& store.websites.contains(site_row(progress))
    &&& frequency_sum(store.occurrences, progress.website_id) == total_count(
        progress.terms.take(n),
    )
    &&& forall|o: InsertWebsiteKeywordsDao| #[trigger]
        store.occurrences.contains(o) && o.website_id == progress.website_id ==> exists|j: int|
            0 <= j < n && #[trigger] names_term(progress, store, j, o.keyword_id)
}

/// The indexing is in step with the store: the tables are at rest, and they
/// hold what the requests answered so far have written.
pub open spec fn tracks(progress: Progress, store: Store) -> bool {
    &&& progress.valid()
    &&& store.consistent()
    &&& match progress.phase {
        Phase::FindingWebsite => true,
        Phase::UpdatingWordCount => exists|word_count: i32| #[trigger]
            store.websites.contains(
                WebsiteRow { id: progress.website_id, url: progress.url, word_count },
            ),
        Phase::ClearingKeywords => store.websites.contains(site_row(progress)),
        Phase::InsertingWebsite => true,
        Phase::EnsuringKeyword => indexed_through(progress, store, progress.position),
        Phase::InsertingOccurrence => indexed_through(progress, store, progress.position)
            && names_term(progress, store, progress.position, progress.keyword_id),
        Phase::CountingOccurrences => indexed_through(progress, store, progress.position + 1)
            && store.occurrences.contains(progress.occurrence()),
        Phase::CountingWebsites => indexed_through(progress, store, progress.position + 1) && 1
            <= progress.docs_with_keyword <= store.websites.len(),
        Phase::WritingScore => indexed_through(progress, store, progress.position + 1)
            && progress.score().sound(),
        Phase::Finished => indexed_through(progress, store, progress.terms.len() as int),
        Phase::Aborted => true,
    }
}

/// The frequencies of a website without occurrence rows add up to zero.
pub proof fn lemma_no_rows_no_sum(rows: Seq<InsertWebsiteKeywordsDao>, website_id: u128)
    requires
        forall|o: InsertWebsiteKeywordsDao| #[trigger] rows.contains(o) ==> o.website_id != website_id,
    ensures
        frequency_sum(rows, website_id) == 0,
    decreases rows.len(),
{
    if rows.len() > 0 {
        let head = rows.drop_last();
        assert forall|o: InsertWebsiteKeywordsDao| #[trigger] head.contains(o) implies o.website_id
            != website_id by {
            let i = choose|i: int| 0 <= i < head.len() && head[i] == o;
            assert(rows[i] == o);
            assert(rows.contains(o));
        }
        lemma_no_rows_no_sum(head, website_id);
        assert(rows[rows.len() - 1] == rows.last());
        assert(rows.contains(rows.last()));
    }
}

/// The first index entry of a website and keyword lies within the table
/// exactly when the table has such an entry, and is then one.
pub proof fn lemma_first_score(
    scores: Seq<InsertWebsiteKeywordTfidfDao>,
    website_id: u128,
    keyword_id: u128,
)
    ensures
        0 <= first_score(scores, website_id, keyword_id) <= scores.len(),
        first_score(scores, website_id, keyword_id) < scores.len() ==> scores[first_score(
            scores,
            website_id,
            keyword_id,
        )].website_id == website_id && scores[first_score(
            scores,
            website_id,
            keyword_id,
        )].keyword_id == keyword_id,
        first_score(scores, website_id, keyword_id) == scores.len() ==> forall|i: int|
            0 <= i < scores.len() ==> !((#[trigger] scores[i]).website_id == website_id
                && scores[i].keyword_id == keyword_id),
    decreases scores.len(),
{
    if scores.len() > 0 {
        let tail = scores.drop_first();
        lemma_first_score(tail, website_id, keyword_id);
        if !(scores.first().website_id == website_id && scores.first().keyword_id == keyword_id) {
            let place = first_score(tail, website_id, keyword_id);
            if place < tail.len() {
                assert(tail[place] == scores[place + 1]);
            } else {
                assert forall|i: int| 0 <= i < scores.len() implies !((
                #[trigger] scores[i]).website_id == website_id && scores[i].keyword_id
                    == keyword_id) by {
                    if i > 0 {
                        assert(tail[i - 1] == scores[i]);
                    }
                }
            }
        }
    }
}

/// An upsert leaves every website and keyword with as many index entries as
/// it had, but for the pair that had none: that pair then has one.
pub proof fn lemma_upsert_keeps_entries_unique(before: Store, values: InsertWebsiteKeywordTfidfDao)
    requires
        forall|w: u128, k: u128| #[trigger] before.score_rows(w, k) <= 1,
    ensures
        forall|w: u128, k: u128| #[trigger]
            (Store { scores: upserted(before.scores, values), ..before }).score_rows(w, k) <= 1,
{
    let after = Store { scores: upserted(before.scores, values), ..before };
    let place = first_score(before.scores, values.website_id, values.keyword_id);
    lemma_first_score(before.scores, values.website_id, values.keyword_id);
    assert forall|w: u128, k: u128| #[trigger] after.score_rows(w, k) <= 1 by {
        let same = |s: InsertWebsiteKeywordTfidfDao| s.website_id == w && s.keyword_id == k;
        assert(before.score_rows(w, k) <= 1);
        if place < before.scores.len() {
            lemma_count_after_update(before.scores, place, values, same);
        } else {
            before.scores.lemma_filter_len_push(same, values);
            if w == values.website_id && k == values.keyword_id {
                lemma_counted_row(before.scores, same);
            }
        }
    }
}

/// In tables at rest a keyword is held by no more documents than there are:
/// its occurrence rows are for different websites, all of which exist.
pub proof fn lemma_documents_with_keyword_bounded(store: Store, keyword_id: u128)
    requires
        store.consistent(),
    ensures
        store.docs_with_keyword(keyword_id) <= store.websites.len(),
{
    let holds = |o: InsertWebsiteKeywordsDao| o.keyword_id == keyword_id;
    let rows = store.occurrences.filter(holds);
    let sites = rows.map_values(|o: InsertWebsiteKeywordsDao| o.website_id);
    let known = store.websites.map_values(|w: WebsiteRow| w.id);
    assert forall|a: int, b: int| 0 <= a < sites.len() && 0 <= b < sites.len() && a != b implies
        sites[a] != sites[b] by {
        if sites[a] == sites[b] {
            let w = sites[a];
            let pair = |o: InsertWebsiteKeywordsDao| o.website_id == w && o.keyword_id == keyword_id;
            store.occurrences.lemma_filter_pred(holds, a);
            store.occurrences.lemma_filter_pred(holds, b);
            if a < b {
                lemma_two_counted(rows, pair, a, b);
            } else {
                lemma_two_counted(rows, pair, b, a);
            }
            lemma_filter_within(store.occurrences, holds, pair);
            assert(store.pair_rows(w, keyword_id) >= 2);
        }
    }
    assert(sites.no_duplicates());
    sites.unique_seq_to_set();
    assert forall|id: u128| sites.to_set().contains(id) implies known.to_set().contains(id) by {
        let i = choose|i: int| 0 <= i < sites.len() && sites[i] == id;
        assert(rows.contains(rows[i]));
        store.occurrences.lemma_filter_contains_rev(holds, rows[i]);
        assert(store.has_website(rows[i].website_id));
        let j = choose|j: int|
            0 <= j < store.websites.len() && (#[trigger] store.websites[j]).id == id;
        assert(known[j] == id);
    }
    vstd::seq_lib::seq_to_set_is_finite(known);
    vstd::set_lib::lemma_len_subset(sites.to_set(), known.to_set());
    known.lemma_cardinality_of_set();
}

/// A failed request, or one whose reply comes when the page is done or given
/// up, changes nothing.
proof fn lemma_step_at_rest(progress: Progress, store: Store, reply: Reply, after: Store)
    requires
        tracks(progress, store),
        store.answers(progress.pending(), reply, after),
        reply == Reply::Failed || progress.phase == Phase::Finished || progress.phase
            == Phase::Aborted,
    ensures
        tracks(progress.after(reply), after),
{
}

/// The lookup of the website: found, its word count is set next; missing, it
/// is inserted next.
proof fn lemma_step_finding_website(progress: Progress, store: Store, reply: Reply, after: Store)
    requires
        tracks(progress, store),
        store.answers(progress.pending(), reply, after),
        progress.phase == Phase::FindingWebsite,
        reply != Reply::Failed,
    ensures
        tracks(progress.after(reply), after),
{
    let next = progress.after(reply);
    if let Reply::Website { id, word_count } = reply {
        assert(next.phase == Phase::UpdatingWordCount && next.website_id == id);
        assert(after.websites.contains(
            WebsiteRow { id: next.website_id, url: next.url, word_count },
        ));
    }
}

/// Rows that keep their identifiers place by place keep every identifier known.
proof fn lemma_identifiers_stay_known(before: Store, after: Store)
    requires
        before.websites.len() <= after.websites.len(),
        before.keywords.len() <= after.keywords.len(),
        forall|i: int|
            0 <= i < before.websites.len() ==> (#[trigger] after.websites[i]).id
                == before.websites[i].id,
        forall|i: int|
            0 <= i < before.keywords.len() ==> (#[trigger] after.keywords[i]).id
                == before.keywords[i].id,
    ensures
        forall|id: u128| before.has_website(id) ==> after.has_website(id),
        forall|id: u128| before.has_keyword(id) ==> after.has_keyword(id),
{
    assert forall|id: u128| before.has_website(id) implies after.has_website(id) by {
        let i = choose|i: int|
            0 <= i < before.websites.len() && (#[trigger] before.websites[i]).id == id;
        assert(after.websites[i].id == id);
    }
    assert forall|id: u128| before.has_keyword(id) implies after.has_keyword(id) by {
        let i = choose|i: int|
            0 <= i < before.keywords.len() && (#[trigger] before.keywords[i]).id == id;
        assert(after.keywords[i].id == id);
    }
}

/// Setting the word count changes no identifier and no URL, and leaves the
/// website of the page with the word count of the page.
proof fn lemma_step_updating_word_count(
    progress: Progress,
    store: Store,
    reply: Reply,
    after: Store,
)
    requires
        tracks(progress, store),
        store.answers(progress.pending(), reply, after),
        progress.phase == Phase::UpdatingWordCount,
        reply != Reply::Failed,
    ensures
        tracks(progress.after(reply), after),
{
    let word_count = choose|word_count: i32| #[trigger]
        store.websites.contains(
            WebsiteRow { id: progress.website_id, url: progress.url, word_count },
        );
    let old = WebsiteRow { id: progress.website_id, url: progress.url, word_count };
    let i = choose|i: int| 0 <= i < store.websites.len() && store.websites[i] == old;
    assert(after.websites[i] == site_row(progress));
    lemma_same_sites_keep_rest(store, after);
}

/// Where the websites keep their identifiers and URLs place by place and the
/// other tables are unchanged, tables at rest stay at rest.
proof fn lemma_same_sites_keep_rest(before: Store, after: Store)
    requires
        before.consistent(),
        after.websites.len() == before.websites.len(),
        forall|i: int|
            0 <= i < before.websites.len() ==> (#[trigger] after.websites[i]).id
                == before.websites[i].id && after.websites[i].url == before.websites[i].url,
        after.keywords == before.keywords,
        after.occurrences == before.occurrences,
        after.scores == before.scores,
    ensures
        after.consistent(),
{
    lemma_identifiers_stay_known(before, after);
    assert forall|w: u128, k: u128| #[trigger] after.pair_rows(w, k) <= 1 by {
        assert(before.pair_rows(w, k) <= 1);
    }
    assert forall|w: u128, k: u128| #[trigger] after.score_rows(w, k) <= 1 by {
        assert(before.score_rows(w, k) <= 1);
    }
    assert forall|o: InsertWebsiteKeywordsDao| #[trigger]
        after.occurrences.contains(o) implies after.has_website(o.website_id) && after.has_keyword(
        o.keyword_id,
    ) by {
        assert(before.occurrences.contains(o));
        assert(before.has_website(o.website_id) && before.has_keyword(o.keyword_id));
    }
}

/// Deleting the occurrence rows of the website leaves it with none, and
/// every other website with the rows it had.
proof fn lemma_step_clearing_keywords(progress: Progress, store: Store, reply: Reply, after: Store)
    requires
        tracks(progress, store),
        store.answers(progress.pending(), reply, after),
        progress.phase == Phase::ClearingKeywords,
        reply != Reply::Failed,
    ensures
        tracks(progress.after(reply), after),
{
    let gone = progress.website_id;
    let keep = |o: InsertWebsiteKeywordsDao| o.website_id != gone;
    assert(after.occurrences == store.occurrences.filter(keep));
    lemma_identifiers_stay_known(store, after);
    assert forall|o: InsertWebsiteKeywordsDao| #[trigger]
        after.occurrences.contains(o) implies store.occurrences.contains(o) && o.website_id
        != gone by {
        store.occurrences.lemma_filter_contains_rev(keep, o);
        let i = choose|i: int| 0 <= i < after.occurrences.len() && after.occurrences[i] == o;
        store.occurrences.lemma_filter_pred(keep, i);
    }
    assert forall|w: u128, k: u128| #[trigger] after.pair_rows(w, k) <= 1 by {
        let pair = |o: InsertWebsiteKeywordsDao| o.website_id == w && o.keyword_id == k;
        assert(store.pair_rows(w, k) <= 1);
        if w == gone {
            lemma_filter_apart(store.occurrences, keep, pair);
        } else {
            lemma_filter_within(store.occurrences, keep, pair);
        }
    }
    assert forall|w: u128, k: u128| #[trigger] after.score_rows(w, k) <= 1 by {
        assert(store.score_rows(w, k) <= 1);
    }
    assert forall|o: InsertWebsiteKeywordsDao| #[trigger]
        after.occurrences.contains(o) implies after.has_website(o.website_id) && after.has_keyword(
        o.keyword_id,
    ) by {
        assert(store.occurrences.contains(o));
        assert(store.has_website(o.website_id) && store.has_keyword(o.keyword_id));
    }
    assert(after.consistent());
    lemma_no_rows_no_sum(after.occurrences, gone);
    let next = progress.after(reply);
    assert(next.terms.take(0) =~= Seq::empty());
    assert(site_row(next) == site_row(progress));
    assert(indexed_through(next, after, 0));
}

/// The new website has a new identifier and a new URL, and no occurrence rows.
proof fn lemma_step_inserting_website(progress: Progress, store: Store, reply: Reply, after: Store)
    requires
        tracks(progress, store),
        store.answers(progress.pending(), reply, after),
        progress.phase == Phase::InsertingWebsite,
        reply != Reply::Failed,
    ensures
        tracks(progress.after(reply), after),
{
    let id = reply->Website_id;
    let row = WebsiteRow { id, url: progress.url, word_count: progress.word_count };
    let next = progress.after(reply);
    assert(after.websites == store.websites.push(row));
    lemma_identifiers_stay_known(store, after);
    assert forall|i: int, j: int| 0 <= i < j < after.websites.len() implies (
    #[trigger] after.websites[i]).id != (#[trigger] after.websites[j]).id && after.websites[i].url
        != after.websites[j].url by {
        if j == store.websites.len() {
            assert(store.websites[i].id != id);
            assert(store.websites[i].url != progress.url);
        } else {
            assert(store.websites[i].id != store.websites[j].id);
        }
    }
    assert forall|w: u128, k: u128| #[trigger] after.pair_rows(w, k) <= 1 by {
        assert(store.pair_rows(w, k) <= 1);
    }
    assert forall|w: u128, k: u128| #[trigger] after.score_rows(w, k) <= 1 by {
        assert(store.score_rows(w, k) <= 1);
    }
    assert forall|o: InsertWebsiteKeywordsDao| #[trigger]
        after.occurrences.contains(o) implies after.has_website(o.website_id) && after.has_keyword(
        o.keyword_id,
    ) && o.website_id != id by {
        assert(store.occurrences.contains(o));
        assert(store.has_website(o.website_id) && store.has_keyword(o.keyword_id));
    }
    assert(after.consistent());
    assert(after.websites[store.websites.len() as int] == row);
    assert(site_row(next) == row);
    lemma_no_rows_no_sum(after.occurrences, id);
    assert(next.terms.take(0) =~= Seq::empty());
    assert(indexed_through(next, after, 0));
}

/// What is indexed stays indexed while the page, its website and the
/// occurrence rows stay the same and no keyword is lost.
proof fn lemma_indexed_through_survives(
    progress: Progress,
    next: Progress,
    before: Store,
    after: Store,
    n: int,
)
    requires
        indexed_through(progress, before, n),
        site_row(next) == site_row(progress),
        next.terms == progress.terms,
        after.websites == before.websites,
        after.occurrences == before.occurrences,
        forall|row: KeywordRow| before.keywords.contains(row) ==> after.keywords.contains(row),
    ensures
        indexed_through(next, after, n),
{
    assert forall|o: InsertWebsiteKeywordsDao| #[trigger]
        after.occurrences.contains(o) && o.website_id == next.website_id implies exists|j: int|
        0 <= j < n && #[trigger] names_term(next, after, j, o.keyword_id) by {
        assert(before.occurrences.contains(o));
        let j = choose|j: int|
            0 <= j < n && #[trigger] names_term(progress, before, j, o.keyword_id);
        assert(names_term(next, after, j, o.keyword_id));
    }
}

/// The keyword of the current term is found or created: a created keyword
/// has a new identifier and a new spelling.
proof fn lemma_step_ensuring_keyword(progress: Progress, store: Store, reply: Reply, after: Store)
    requires
        tracks(progress, store),
        store.answers(progress.pending(), reply, after),
        progress.phase == Phase::EnsuringKeyword,
        reply != Reply::Failed,
    ensures
        tracks(progress.after(reply), after),
{
    let next = progress.after(reply);
    let row = KeywordRow { id: reply->Keyword_id, keyword: progress.terms[progress.position].term@ };
    assert(next.phase == Phase::InsertingOccurrence && next.keyword_id == row.id);
    if after != store {
        assert(after.keywords == store.keywords.push(row));
        lemma_identifiers_stay_known(store, after);
        assert forall|i: int, j: int| 0 <= i < j < after.keywords.len() implies (
        #[trigger] after.keywords[i]).id != (#[trigger] after.keywords[j]).id
            && after.keywords[i].keyword != after.keywords[j].keyword by {
            if j == store.keywords.len() {
                assert(store.keywords[i].id != row.id);
                assert(store.keywords[i].keyword != row.keyword);
            } else {
                assert(store.keywords[i].id != store.keywords[j].id);
            }
        }
        assert forall|w: u128, k: u128| #[trigger] after.pair_rows(w, k) <= 1 by {
            assert(store.pair_rows(w, k) <= 1);
        }
        assert forall|w: u128, k: u128| #[trigger] after.score_rows(w, k) <= 1 by {
            assert(store.score_rows(w, k) <= 1);
        }
        assert forall|o: InsertWebsiteKeywordsDao| #[trigger]
            after.occurrences.contains(o) implies after.has_website(o.website_id)
            && after.has_keyword(o.keyword_id) by {
            assert(store.occurrences.contains(o));
            assert(store.has_website(o.website_id) && store.has_keyword(o.keyword_id));
        }
        assert(after.consistent());
        assert(after.keywords[store.keywords.len() as int] == row);
        assert forall|r: KeywordRow| store.keywords.contains(r) implies after.keywords.contains(
            r,
        ) by {
            let i = choose|i: int| 0 <= i < store.keywords.len() && store.keywords[i] == r;
            assert(after.keywords[i] == r);
        }
    }
    assert(after.keywords.contains(row));
    lemma_indexed_through_survives(progress, next, store, after, progress.position);
}

/// The occurrence row of the current term is the first of its website and
/// keyword: the rows the website has are for the terms before, whose
/// keywords are others.
proof fn lemma_step_inserting_occurrence(
    progress: Progress,
    store: Store,
    reply: Reply,
    after: Store,
)
    requires
        tracks(progress, store),
        store.answers(progress.pending(), reply, after),
        progress.phase == Phase::InsertingOccurrence,
        reply != Reply::Failed,
    ensures
        tracks(progress.after(reply), after),
{
    let next = progress.after(reply);
    let row = progress.occurrence();
    let place = progress.position;
    let site = progress.website_id;
    let word = progress.keyword_id;
    assert(after.occurrences == store.occurrences.push(row));
    assert(after.occurrences[store.occurrences.len() as int] == row);
    lemma_identifiers_stay_known(store, after);
    let pair = |o: InsertWebsiteKeywordsDao| o.website_id == site && o.keyword_id == word;
    assert(store.pair_rows(site, word) == 0) by {
        lemma_counted_row(store.occurrences, pair);
        if store.occurrences.filter(pair).len() > 0 {
            let i = choose|i: int|
                0 <= i < store.occurrences.len() && pair(#[trigger] store.occurrences[i]);
            let o = store.occurrences[i];
            assert(store.occurrences.contains(o));
            let j = choose|j: int|
                0 <= j < place && #[trigger] names_term(progress, store, j, o.keyword_id);
            let earlier = KeywordRow { id: word, keyword: progress.terms[j].term@ };
            let current = KeywordRow { id: word, keyword: progress.terms[place].term@ };
            let a = choose|a: int| 0 <= a < store.keywords.len() && store.keywords[a] == earlier;
            let b = choose|b: int| 0 <= b < store.keywords.len() && store.keywords[b] == current;
            if a < b {
                assert(store.keywords[a].id != store.keywords[b].id);
            } else if b < a {
                assert(store.keywords[b].id != store.keywords[a].id);
            }
            assert(progress.terms[j].term@ != progress.terms[place].term@);
        }
    }
    assert forall|w: u128, k: u128| #[trigger] after.pair_rows(w, k) <= 1 by {
        assert(store.pair_rows(w, k) <= 1);
        store.occurrences.lemma_filter_len_push(
            |o: InsertWebsiteKeywordsDao| o.website_id == w && o.keyword_id == k,
            row,
        );
    }
    assert forall|w: u128, k: u128| #[trigger] after.score_rows(w, k) <= 1 by {
        assert(store.score_rows(w, k) <= 1);
    }
    assert forall|o: InsertWebsiteKeywordsDao| #[trigger]
        after.occurrences.contains(o) implies after.has_website(o.website_id) && after.has_keyword(
        o.keyword_id,
    ) by {
        let i = choose|i: int| 0 <= i < after.occurrences.len() && after.occurrences[i] == o;
        if i < store.occurrences.len() {
            assert(store.occurrences[i] == o);
            assert(store.occurrences.contains(o));
            assert(store.has_website(o.website_id) && store.has_keyword(o.keyword_id));
        }
    }
    assert(after.consistent());
    assert(after.occurrences.drop_last() =~= store.occurrences);
    lemma_count_within_total(progress.terms, place);
    assert(progress.terms.take(place + 1).drop_last() =~= progress.terms.take(place));
    assert(progress.terms.take(place + 1).last() == progress.terms[place]);
    assert(frequency_sum(after.occurrences, site) == total_count(progress.terms.take(place + 1)));
    assert forall|o: InsertWebsiteKeywordsDao| #[trigger]
        after.occurrences.contains(o) && o.website_id == next.website_id implies exists|j: int|
        0 <= j < place + 1 && #[trigger] names_term(next, after, j, o.keyword_id) by {
        let i = choose|i: int| 0 <= i < after.occurrences.len() && after.occurrences[i] == o;
        if i < store.occurrences.len() {
            assert(store.occurrences[i] == o);
            assert(store.occurrences.contains(o));
            let j = choose|j: int|
                0 <= j < place && #[trigger] names_term(progress, store, j, o.keyword_id);
            assert(names_term(next, after, j, o.keyword_id));
        } else {
            assert(names_term(next, after, place, o.keyword_id));
        }
    }
    assert(site_row(next) == site_row(progress));
    assert(indexed_through(next, after, place + 1));
    assert(after.occurrences.contains(next.occurrence()));
}

/// The documents that hold the keyword are counted: at least the page
/// itself, and no more than there are documents.
proof fn lemma_step_counting_occurrences(
    progress: Progress,
    store: Store,
    reply: Reply,
    after: Store,
)
    requires
        tracks(progress, store),
        store.answers(progress.pending(), reply, after),
        progress.phase == Phase::CountingOccurrences,
        reply != Reply::Failed,
    ensures
        tracks(progress.after(reply), after),
{
    let next = progress.after(reply);
    let word = progress.keyword_id;
    let row = progress.occurrence();
    let i = choose|i: int| 0 <= i < store.occurrences.len() && store.occurrences[i] == row;
    lemma_counted_row(store.occurrences, |o: InsertWebsiteKeywordsDao| o.keyword_id == word);
    lemma_documents_with_keyword_bounded(store, word);
    assert(site_row(next) == site_row(progress));
    lemma_indexed_through_survives(progress, next, store, after, progress.position + 1);
}

/// The documents are counted, and the counts of the entry are then sound.
proof fn lemma_step_counting_websites(progress: Progress, store: Store, reply: Reply, after: Store)
    requires
        tracks(progress, store),
        store.answers(progress.pending(), reply, after),
        progress.phase == Phase::CountingWebsites,
        reply != Reply::Failed,
    ensures
        tracks(progress.after(reply), after),
{
    let next = progress.after(reply);
    lemma_count_within_total(progress.terms, progress.position);
    assert(site_row(next) == site_row(progress));
    lemma_indexed_through_survives(progress, next, store, after, progress.position + 1);
}

/// The index entry is written in place, and the indexing turns to the next
/// term or finishes.
proof fn lemma_step_writing_score(progress: Progress, store: Store, reply: Reply, after: Store)
    requires
        tracks(progress, store),
        store.answers(progress.pending(), reply, after),
        progress.phase == Phase::WritingScore,
        reply != Reply::Failed,
    ensures
        tracks(progress.after(reply), after),
{
    let next = progress.after(reply);
    if reply == Reply::Done {
        lemma_upsert_keeps_entries_unique(store, progress.score());
        lemma_identifiers_stay_known(store, after);
        assert forall|w: u128, k: u128| #[trigger] after.pair_rows(w, k) <= 1 by {
            assert(store.pair_rows(w, k) <= 1);
        }
        assert forall|o: InsertWebsiteKeywordsDao| #[trigger]
            after.occurrences.contains(o) implies after.has_website(o.website_id)
            && after.has_keyword(o.keyword_id) by {
            assert(store.occurrences.contains(o));
            assert(store.has_website(o.website_id) && store.has_keyword(o.keyword_id));
        }
        assert(after.consistent());
    }
    assert(site_row(next) == site_row(progress));
    lemma_indexed_through_survives(progress, next, store, after, progress.position + 1);
}

/// Whatever the store answers within the model, a step keeps the indexing in
/// step with it. With it the tables stay at rest: no website or keyword is
/// there twice, and no website and keyword has two occurrence rows or two
/// index entries, also where a page is indexed again and where it is given up.
pub proof fn lemma_step_keeps_track(progress: Progress, store: Store, reply: Reply, after: Store)
    requires
        tracks(progress, store),
        store.answers(progress.pending(), reply, after),
    ensures
        tracks(progress.after(reply), after),
        after.consistent(),
{
    if reply == Reply::Failed {
        lemma_step_at_rest(progress, store, reply, after);
    } else {
        match progress.phase {
            Phase::FindingWebsite => lemma_step_finding_website(progress, store, reply, after),
            Phase::UpdatingWordCount => lemma_step_updating_word_count(
                progress,
                store,
                reply,
                after,
            ),
            Phase::ClearingKeywords => lemma_step_clearing_keywords(progress, store, reply, after),
            Phase::InsertingWebsite => lemma_step_inserting_website(progress, store, reply, after),
            Phase::EnsuringKeyword => lemma_step_ensuring_keyword(progress, store, reply, after),
            Phase::InsertingOccurrence => lemma_step_inserting_occurrence(
                progress,
                store,
                reply,
                after,
            ),
            Phase::CountingOccurrences => lemma_step_counting_occurrences(
                progress,
                store,
                reply,
                after,
            ),
            Phase::CountingWebsites => lemma_step_counting_websites(progress, store, reply, after),
            Phase::WritingScore => lemma_step_writing_score(progress, store, reply, after),
            Phase::Finished => lemma_step_at_rest(progress, store, reply, after),
            Phase::Aborted => lemma_step_at_rest(progress, store, reply, after),
        }
    }
}

/// The indexing after a run of replies, the first reply first.
pub open spec fn after_all(progress: Progress, replies: Seq<Reply>) -> Progress
    decreases replies.len(),
{
    if replies.len() == 0 {
        progress
    } else {
        after_all(progress, replies.drop_last()).after(replies.last())
    }
}

/// The store answered every request of a run: `stores[i]` is what it held
/// before the reply at place `i`, and `stores[i + 1]` what it held after.
pub open spec fn answered(progress: Progress, replies: Seq<Reply>, stores: Seq<Store>) -> bool {
    &&& stores.len() == replies.len() + 1
    &&& forall|i: int|
        0 <= i < replies.len() ==> (#[trigger] stores[i]).answers(
            after_all(progress, replies.take(i)).pending(),
            replies[i],
            stores[i + 1],
        )
}

/// A run of any length keeps the indexing in step with the store, and the
/// tables at rest after every reply.
pub proof fn lemma_run_keeps_track(progress: Progress, replies: Seq<Reply>, stores: Seq<Store>)
    requires
        tracks(progress, stores[0]),
        answered(progress, replies, stores),
    ensures
        tracks(after_all(progress, replies), stores.last()),
        forall|i: int| 0 <= i < stores.len() ==> (#[trigger] stores[i]).consistent(),
    decreases replies.len(),
{
    if replies.len() > 0 {
        let n = replies.len() - 1;
        let head = replies.drop_last();
        let before = stores.drop_last();
        assert(replies.take(n) =~= head);
        assert forall|i: int| 0 <= i < head.len() implies (#[trigger] before[i]).answers(
            after_all(progress, head.take(i)).pending(),
            head[i],
            before[i + 1],
        ) by {
            assert(head.take(i) =~= replies.take(i));
            assert(stores[i].answers(
                after_all(progress, replies.take(i)).pending(),
                replies[i],
                stores[i + 1],
            ));
        }
        lemma_run_keeps_track(progress, head, before);
        assert(stores[n].answers(after_all(progress, head).pending(), replies[n], stores[n + 1]));
        lemma_step_keeps_track(after_all(progress, head), stores[n], replies[n], stores[n + 1]);
        assert forall|i: int| 0 <= i < stores.len() implies (#[trigger] stores[i]).consistent() by {
            if i < before.len() {
                assert(before[i].consistent());
            }
        }
    }
}

/// No reply changes the page that is indexed: its URL, its word count and
/// its terms stay.
pub proof fn lemma_run_keeps_page(progress: Progress, replies: Seq<Reply>)
    ensures
        after_all(progress, replies).url == progress.url,
        after_all(progress, replies).word_count == progress.word_count,
        after_all(progress, replies).terms == progress.terms,
    decreases replies.len(),
{
    if replies.len() > 0 {
        lemma_run_keeps_page(progress, replies.drop_last());
    }
}

/// A page whose indexing starts on tables at rest and runs to its end leaves
/// one website with its URL, whose word count is the number of tokens of the
/// page and the sum of the frequencies of its occurrence rows.
pub proof fn lemma_indexed_page_counts_its_words(
    progress: Progress,
    replies: Seq<Reply>,
    stores: Seq<Store>,
)
    requires
        progress.valid(),
        progress.phase == Phase::FindingWebsite,
        stores[0].consistent(),
        answered(progress, replies, stores),
        after_all(progress, replies).phase == Phase::Finished,
    ensures
        stores.last().consistent(),
        stores.last().websites.contains(
            WebsiteRow {
                id: after_all(progress, replies).website_id,
                url: progress.url,
                word_count: progress.word_count,
            },
        ),
        frequency_sum(stores.last().occurrences, after_all(progress, replies).website_id)
            == progress.word_count,
{
    lemma_start_tracks(progress, stores[0]);
    lemma_run_keeps_track(progress, replies, stores);
    lemma_run_keeps_page(progress, replies);
    lemma_finished_page_counts_its_words(after_all(progress, replies), stores.last());
}

/// The requests that a page has yet to make at most, where none fails.
pub open spec fn steps_left(progress: Progress) -> int {
    let terms: int = progress.terms.len() as int;
    let terms_left = terms - progress.position;
    match progress.phase {
        Phase::FindingWebsite => 3 + 5 * terms,
        Phase::UpdatingWordCount => 2 + 5 * terms,
        Phase::ClearingKeywords => 1 + 5 * terms,
        Phase::InsertingWebsite => 1 + 5 * terms,
        Phase::EnsuringKeyword => 5 * terms_left,
        Phase::InsertingOccurrence => 5 * terms_left - 1,
        Phase::CountingOccurrences => 5 * terms_left - 2,
        Phase::CountingWebsites => 5 * terms_left - 3,
        Phase::WritingScore => 5 * terms_left - 4,
        Phase::Finished => 0,
        Phase::Aborted => 0,
    }
}

/// Every reply but a failure brings a page that is at work nearer to its
/// end: after the lookup of the website, its insertion or the update of its
/// word count and the deletion of its occurrence rows, each term takes five
/// requests, and the page is then finished.
pub proof fn lemma_step_makes_progress(progress: Progress, store: Store, reply: Reply, after: Store)
    requires
        progress.valid(),
        progress.phase != Phase::Finished,
        progress.phase != Phase::Aborted,
        store.answers(progress.pending(), reply, after),
        reply != Reply::Failed,
    ensures
        progress.after(reply).phase != Phase::Aborted,
        0 <= steps_left(progress.after(reply)) < steps_left(progress),
{
}

/// The indexing of a page starts in step with any tables at rest.
pub proof fn lemma_start_tracks(progress: Progress, store: Store)
    requires
        progress.valid(),
        progress.phase == Phase::FindingWebsite,
        store.consistent(),
    ensures
        tracks(progress, store),
{
}

/// Once a page is fully indexed, the store holds its website with the
/// number of its tokens as word count, and the frequencies of the occurrence
/// rows of that website add up to that word count.
pub proof fn lemma_finished_page_counts_its_words(progress: Progress, store: Store)
    requires
        tracks(progress, store),
        progress.phase == Phase::Finished,
    ensures
        store.websites.contains(site_row(progress)),
        frequency_sum(store.occurrences, progress.website_id) == progress.word_count,
{
    assert(progress.terms.take(progress.terms.len() as int) =~= progress.terms);
}

/// The counts of every index entry that is asked to be written are sound:
/// the keyword is held by at least one document and by no more than there
/// are, and the term occurs at least once and no more often than the page has
/// tokens. With such counts `idf` is at least one and `tfidf` above zero.
pub proof fn lemma_entry_counts_are_sound(progress: Progress, store: Store)
    requires
        tracks(progress, store),
        progress.pending() is UpsertTfidf,
    ensures
        progress.pending()->UpsertTfidf_values.sound(),
{
}

/// While the store holds a website with the URL of the page, no step adds a
/// website: indexing a URL again makes no second row for it.
pub proof fn lemma_known_url_adds_no_website(
    progress: Progress,
    store: Store,
    reply: Reply,
    after: Store,
)
    requires
        tracks(progress, store),
        store.has_url(progress.url),
        store.answers(progress.pending(), reply, after),
    ensures
        after.websites.len() == store.websites.len(),
        after.has_url(progress.url),
{
    let i = choose|i: int|
        0 <= i < store.websites.len() && (#[trigger] store.websites[i]).url == progress.url;
    assert(after.websites[i].url == progress.url);
}

} // verus!
