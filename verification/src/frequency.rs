//! Raw term frequencies of a token list.

use vstd::hash_map::StringHashMap;
use vstd::prelude::*;

verus! {

/// A term of a page and the number of times it occurs there.
#[derive(Debug, Clone)]
pub struct TermCount {
    pub term: String,
    pub count: usize,
}

/// How often a term occurs in a token list.
pub open spec fn occurrences_of(tokens: Seq<Seq<char>>, term: Seq<char>) -> nat {
    tokens.filter(|t: Seq<char>| t == term).len()
}

/// The terms of a token list: its tokens without repetition, each at the
/// place of its first occurrence.
pub open spec fn distinct_terms(tokens: Seq<Seq<char>>) -> Seq<Seq<char>>
    decreases tokens.len(),
{
    if tokens.len() == 0 {
        Seq::empty()
    } else {
        let before = distinct_terms(tokens.drop_last());
        if before.contains(tokens.last()) {
            before
        } else {
            before.push(tokens.last())
        }
    }
}

/// The list holds each term of the tokens once, in order of first
/// occurrence, with the number of its occurrences.
pub open spec fn counts_tokens(terms: Seq<TermCount>, tokens: Seq<Seq<char>>) -> bool {
    &&& terms.len() == distinct_terms(tokens).len()
    &&& forall|i: int|
        0 <= i < terms.len() ==> (#[trigger] terms[i]).term@ == distinct_terms(tokens)[i]
            && terms[i].count == occurrences_of(tokens, terms[i].term@)
}

/// The sum of the counts of a list of terms.
pub open spec fn total_count(terms: Seq<TermCount>) -> int
    decreases terms.len(),
{
    if terms.len() == 0 {
        0
    } else {
        total_count(terms.drop_last()) + terms.last().count
    }
}

/// The terms of a token list are exactly its tokens, and none is listed twice.
pub proof fn lemma_distinct_terms(tokens: Seq<Seq<char>>)
    ensures
        distinct_terms(tokens).no_duplicates(),
        forall|t: Seq<char>| distinct_terms(tokens).contains(t) <==> tokens.contains(t),
    decreases tokens.len(),
{
    if tokens.len() > 0 {
        let head = tokens.drop_last();
        let before = distinct_terms(head);
        lemma_distinct_terms(head);
        assert forall|t: Seq<char>| distinct_terms(tokens).contains(t) <==> tokens.contains(
            t,
        ) by {
            if tokens.contains(t) {
                let k = choose|k: int| 0 <= k < tokens.len() && tokens[k] == t;
                if k < tokens.len() - 1 {
                    assert(head[k] == t);
                    assert(head.contains(t));
                    assert(before.contains(t));
                    let j = choose|j: int| 0 <= j < before.len() && before[j] == t;
                    assert(distinct_terms(tokens)[j] == t);
                } else if before.contains(t) {
                    let j = choose|j: int| 0 <= j < before.len() && before[j] == t;
                    assert(distinct_terms(tokens)[j] == t);
                } else {
                    assert(distinct_terms(tokens)[before.len() as int] == t);
                }
            }
            if distinct_terms(tokens).contains(t) {
                let j = choose|j: int|
                    0 <= j < distinct_terms(tokens).len() && distinct_terms(tokens)[j] == t;
                if j < before.len() {
                    assert(before[j] == t);
                    assert(head.contains(t));
                    let k = choose|k: int| 0 <= k < head.len() && head[k] == t;
                    assert(tokens[k] == t);
                } else {
                    assert(tokens[tokens.len() - 1] == t);
                }
            }
        }
    }
}

/// A term that no token equals occurs zero times, and one that some token
/// equals occurs at least once.
pub proof fn lemma_occurrences_positive(tokens: Seq<Seq<char>>, term: Seq<char>)
    ensures
        tokens.contains(term) <==> occurrences_of(tokens, term) > 0,
        occurrences_of(tokens, term) <= tokens.len(),
    decreases tokens.len(),
{
    reveal(Seq::filter);
    if tokens.len() > 0 {
        let head = tokens.drop_last();
        lemma_occurrences_positive(head, term);
        if tokens.contains(term) {
            let k = choose|k: int| 0 <= k < tokens.len() && tokens[k] == term;
            if k < tokens.len() - 1 {
                assert(head[k] == term);
            }
        }
        if head.contains(term) {
            let k = choose|k: int| 0 <= k < head.len() && head[k] == term;
            assert(tokens[k] == term);
        }
        if tokens.last() == term {
            assert(tokens[tokens.len() - 1] == term);
        }
    }
}

/// Raising one count by one raises the sum by one.
pub proof fn lemma_total_count_update(terms: Seq<TermCount>, i: int, raised: TermCount)
    requires
        0 <= i < terms.len(),
        raised.count == terms[i].count + 1,
    ensures
        total_count(terms.update(i, raised)) == total_count(terms) + 1,
    decreases terms.len(),
{
    let updated = terms.update(i, raised);
    if i == terms.len() - 1 {
        assert(updated.drop_last() =~= terms.drop_last());
    } else {
        lemma_total_count_update(terms.drop_last(), i, raised);
        assert(updated.drop_last() =~= terms.drop_last().update(i, raised));
    }
}

/// Every count is part of the sum.
pub proof fn lemma_count_within_total(terms: Seq<TermCount>, i: int)
    requires
        0 <= i < terms.len(),
    ensures
        terms[i].count <= total_count(terms),
        0 <= total_count(terms),
    decreases terms.len(),
{
    lemma_total_count_nonnegative(terms.drop_last());
    if i < terms.len() - 1 {
        lemma_count_within_total(terms.drop_last(), i);
    }
}

/// A sum of counts is never negative.
pub proof fn lemma_total_count_nonnegative(terms: Seq<TermCount>)
    ensures
        0 <= total_count(terms),
    decreases terms.len(),
{
    if terms.len() > 0 {
        lemma_total_count_nonnegative(terms.drop_last());
    }
}

/// A list that counts the tokens holds distinct terms, each at least once.
pub proof fn lemma_counted_terms(terms: Seq<TermCount>, tokens: Seq<Seq<char>>)
    requires
        counts_tokens(terms, tokens),
    ensures
        forall|i: int| 0 <= i < terms.len() ==> (#[trigger] terms[i]).count >= 1,
        forall|i: int, j: int|
            0 <= i < j < terms.len() ==> (#[trigger] terms[i]).term@ != (#[trigger] terms[j]).term@,
{
    lemma_distinct_terms(tokens);
    assert forall|i: int| 0 <= i < terms.len() implies (#[trigger] terms[i]).count >= 1 by {
        assert(distinct_terms(tokens).contains(distinct_terms(tokens)[i]));
        lemma_occurrences_positive(tokens, terms[i].term@);
    }
}

/// Counts the occurrences of each term of a token list. The counts add up to
/// the number of tokens.
pub fn term_frequencies(tokens: &Vec<String>) -> (terms: Vec<TermCount>)
    ensures
        counts_tokens(terms@, tokens.deep_view()),
        total_count(terms@) == tokens.len(),
{
    let ghost all = tokens.deep_view();
    let mut terms: Vec<TermCount> = Vec::new();
    let mut places: StringHashMap<usize> = StringHashMap::new();
    for k in 0..tokens.len()
        invariant
            all == tokens.deep_view(),
            counts_tokens(terms@, all.take(k as int)),
            total_count(terms@) == k,
            forall|t: Seq<char>| #[trigger]
                places@.contains_key(t) <==> distinct_terms(all.take(k as int)).contains(t),
            forall|t: Seq<char>| #[trigger]
                places@.contains_key(t) ==> places@[t] < terms.len() && terms[places@[t] as int].term@
                    == t,
    {
        let token = &tokens[k];
        let ghost seen = all.take(k as int);
        let ghost next = all.take(k + 1);
        proof {
            assert(all[k as int] == token@);
            assert(next.drop_last() =~= seen);
            assert(next =~= seen.push(token@));
            lemma_distinct_terms(seen);
            lemma_occurrences_positive(seen, token@);
            assert forall|t: Seq<char>| occurrences_of(next, t) == occurrences_of(seen, t) + if t
                == token@ {
                1int
            } else {
                0int
            } by {
                seen.lemma_filter_push(token@, |x: Seq<char>| x == t);
            }
        }
        let place = match places.get(token.as_str()) {
            Some(p) => Some(*p),
            None => None,
        };
        match place {
            Some(p) => {
                let ghost before = terms@;
                proof {
                    assert(before[p as int].count == occurrences_of(seen, token@));
                }
                let raised = TermCount { term: token.clone(), count: terms[p].count + 1 };
                terms.set(p, raised);
                proof {
                    lemma_total_count_update(before, p as int, raised);
                    assert forall|i: int| 0 <= i < terms.len() implies (#[trigger] terms[i]).term@
                        == distinct_terms(next)[i] && terms[i].count == occurrences_of(
                        next,
                        terms[i].term@,
                    ) by {
                        if i != p {
                            assert(before[i].term@ == distinct_terms(seen)[i]);
                            assert(before[p as int].term@ == distinct_terms(seen)[p as int]);
                        }
                    }
                }
            },
            None => {
                let ghost before = terms@;
                let fresh = TermCount { term: token.clone(), count: 1 };
                terms.push(fresh);
                places.insert(token.clone(), terms.len() - 1);
                proof {
                    assert(terms@.drop_last() =~= before);
                    assert forall|i: int| 0 <= i < terms.len() implies (#[trigger] terms[i]).term@
                        == distinct_terms(next)[i] && terms[i].count == occurrences_of(
                        next,
                        terms[i].term@,
                    ) by {
                        if i < before.len() {
                            assert(before[i].term@ == distinct_terms(seen)[i]);
                            assert(distinct_terms(seen).contains(before[i].term@));
                        }
                    }
                    assert forall|t: Seq<char>| #[trigger]
                        places@.contains_key(t) <==> distinct_terms(next).contains(t) by {
                        if distinct_terms(seen).contains(t) {
                            let j = choose|j: int|
                                0 <= j < distinct_terms(seen).len() && distinct_terms(seen)[j] == t;
                            assert(distinct_terms(next)[j] == t);
                        }
                        if t == token@ {
                            assert(distinct_terms(next)[before.len() as int] == t);
                        }
                        if distinct_terms(next).contains(t) {
                            let j = choose|j: int|
                                0 <= j < distinct_terms(next).len() && distinct_terms(next)[j] == t;
                            if j < before.len() {
                                assert(distinct_terms(seen)[j] == t);
                            }
                        }
                    }
                }
            },
        }
    }
    assert(all.take(tokens.len() as int) =~= all);
    terms
}

} // verus!
