use search_engine::frequency::term_frequencies;
use search_engine::indexer::{Command, IndexingError, PageIndexing, Phase, Reply};
use search_engine::models::website_keyword_tfidf::InsertWebsiteKeywordTfidfDao;
use search_engine::seed::UrlError;

struct Tables {
    websites: Vec<(u128, String, i32)>,
    keywords: Vec<(u128, String)>,
    occurrences: Vec<(u128, u128, i32)>,
    scores: Vec<InsertWebsiteKeywordTfidfDao>,
    next_id: u128,
    fail_at: Option<usize>,
    unconvertible_at: Option<usize>,
    handled: usize,
    log: Vec<String>,
}

fn empty_tables() -> Tables {
    Tables {
        websites: Vec::new(),
        keywords: Vec::new(),
        occurrences: Vec::new(),
        scores: Vec::new(),
        next_id: 1,
        fail_at: None,
        unconvertible_at: None,
        handled: 0,
        log: Vec::new(),
    }
}

fn fresh(tables: &mut Tables) -> u128 {
    let id = tables.next_id;
    tables.next_id += 1;
    id
}

fn perform(tables: &mut Tables, command: &Command) -> Reply {
    let turn = tables.handled;
    tables.handled += 1;
    tables.log.push(format!("{:?}", command));
    if tables.fail_at == Some(turn) {
        return Reply::Failed;
    }
    match command {
        Command::FindWebsite { url } => {
            match tables.websites.iter().find(|w| w.1 == url.as_str()) {
                Some(w) => Reply::Website { id: w.0, word_count: w.2 },
                None => Reply::Missing,
            }
        }
        Command::UpdateWordCount { website_id, word_count } => {
            for w in tables.websites.iter_mut() {
                if w.0 == *website_id {
                    w.2 = *word_count;
                }
            }
            Reply::Done
        }
        Command::DeleteWebsiteKeywords { website_id } => {
            tables.occurrences.retain(|o| o.1 != *website_id);
            Reply::Done
        }
        Command::InsertWebsite(dao) => {
            if tables.websites.iter().any(|w| w.1 == dao.url.as_str()) {
                return Reply::Failed;
            }
            let id = fresh(tables);
            tables.websites.push((id, dao.url.as_str().to_string(), dao.word_count));
            Reply::Website { id, word_count: dao.word_count }
        }
        Command::FindOrCreateKeyword(dao) => {
            if let Some(k) = tables.keywords.iter().find(|k| k.1 == dao.keyword) {
                return Reply::Keyword { id: k.0 };
            }
            let id = fresh(tables);
            tables.keywords.push((id, dao.keyword.clone()));
            Reply::Keyword { id }
        }
        Command::InsertWebsiteKeywords(dao) => {
            tables.occurrences.push((dao.keyword_id, dao.website_id, dao.frequency));
            Reply::Done
        }
        Command::CountByKeyword { keyword_id } => {
            Reply::Count(tables.occurrences.iter().filter(|o| o.0 == *keyword_id).count() as i64)
        }
        Command::CountWebsites => Reply::Count(tables.websites.len() as i64),
        Command::UpsertTfidf(values) => {
            if tables.unconvertible_at == Some(turn) {
                return Reply::Unconvertible;
            }
            let place = tables
                .scores
                .iter()
                .position(|s| s.website_id == values.website_id && s.keyword_id == values.keyword_id);
            match place {
                Some(i) => tables.scores[i] = *values,
                None => tables.scores.push(*values),
            }
            Reply::Done
        }
        Command::Finish => Reply::Done,
        Command::Abort => Reply::Done,
    }
}

fn tokens(items: &[&str]) -> Vec<String> {
    items.iter().map(|s| s.to_string()).collect()
}

fn index_page(tables: &mut Tables, url: &str, page: &[&str]) -> Phase {
    tables.handled = 0;
    tables.log.clear();
    let (mut indexing, mut command) = PageIndexing::begin(url, &tokens(page)).unwrap();
    let mut steps = 0;
    while !matches!(command, Command::Finish | Command::Abort) {
        let reply = perform(tables, &command);
        let next = indexing.step(reply);
        indexing = next.0;
        command = next.1;
        steps += 1;
        assert!(steps <= 3 + 5 * page.len());
    }
    indexing.phase()
}

fn frequency_sum(tables: &Tables, website_id: u128) -> i32 {
    tables.occurrences.iter().filter(|o| o.1 == website_id).map(|o| o.2).sum()
}

fn rows_are_unique(tables: &Tables) -> bool {
    for (i, a) in tables.occurrences.iter().enumerate() {
        for b in tables.occurrences.iter().skip(i + 1) {
            if a.0 == b.0 && a.1 == b.1 {
                return false;
            }
        }
    }
    for (i, a) in tables.scores.iter().enumerate() {
        for b in tables.scores.iter().skip(i + 1) {
            if a.website_id == b.website_id && a.keyword_id == b.keyword_id {
                return false;
            }
        }
    }
    for (i, a) in tables.websites.iter().enumerate() {
        for b in tables.websites.iter().skip(i + 1) {
            if a.0 == b.0 || a.1 == b.1 {
                return false;
            }
        }
    }
    true
}

#[test]
fn term_frequencies_count_in_order_of_first_occurrence() {
    let counted = term_frequencies(&tokens(&["fox", "dog", "fox", "jump", "dog", "fox"]));
    let pairs: Vec<(String, usize)> = counted.iter().map(|t| (t.term.clone(), t.count)).collect();
    assert_eq!(
        pairs,
        vec![("fox".to_string(), 3), ("dog".to_string(), 2), ("jump".to_string(), 1)]
    );
    assert_eq!(counted.iter().map(|t| t.count).sum::<usize>(), 6);
    assert!(term_frequencies(&Vec::new()).is_empty());
}

#[test]
fn new_page_is_indexed_term_by_term() {
    let mut tables = empty_tables();
    let phase = index_page(&mut tables, "https://example.com/a", &["fox", "dog", "fox"]);
    assert_eq!(phase, Phase::Finished);
    assert_eq!(tables.websites, vec![(1, "https://example.com/a".to_string(), 3)]);
    assert_eq!(tables.keywords, vec![(2, "fox".to_string()), (3, "dog".to_string())]);
    assert_eq!(tables.occurrences, vec![(2, 1, 2), (3, 1, 1)]);
    assert_eq!(frequency_sum(&tables, 1), 3);
    assert_eq!(tables.scores.len(), 2);
    let fox = tables.scores[0];
    assert_eq!((fox.website_id, fox.keyword_id), (1, 2));
    assert_eq!((fox.frequency, fox.word_count), (2, 3));
    assert_eq!((fox.docs_with_keyword, fox.total_docs), (1, 1));
    assert!(fox.is_sound());
    assert_eq!(
        tables.log,
        vec![
            "FindWebsite { url: AbsoluteUrl { text: \"https://example.com/a\" } }",
            "InsertWebsite(InsertWebsiteDao { url: AbsoluteUrl { text: \"https://example.com/a\" }, word_count: 3 })",
            "FindOrCreateKeyword(InsertKeywordDao { keyword: \"fox\" })",
            "InsertWebsiteKeywords(InsertWebsiteKeywordsDao { keyword_id: 2, website_id: 1, frequency: 2 })",
            "CountByKeyword { keyword_id: 2 }",
            "CountWebsites",
            "UpsertTfidf(InsertWebsiteKeywordTfidfDao { website_id: 1, keyword_id: 2, frequency: 2, word_count: 3, docs_with_keyword: 1, total_docs: 1 })",
            "FindOrCreateKeyword(InsertKeywordDao { keyword: \"dog\" })",
            "InsertWebsiteKeywords(InsertWebsiteKeywordsDao { keyword_id: 3, website_id: 1, frequency: 1 })",
            "CountByKeyword { keyword_id: 3 }",
            "CountWebsites",
            "UpsertTfidf(InsertWebsiteKeywordTfidfDao { website_id: 1, keyword_id: 3, frequency: 1, word_count: 3, docs_with_keyword: 1, total_docs: 1 })",
        ]
    );
}

#[test]
fn word_count_is_the_sum_of_the_frequencies() {
    let mut tables = empty_tables();
    let page = ["quick", "brown", "fox", "jump", "lazi", "dog", "quick", "fox", "quick"];
    assert_eq!(index_page(&mut tables, "https://example.com/", &page), Phase::Finished);
    let site = tables.websites[0].clone();
    assert_eq!(site.2, 9);
    assert_eq!(frequency_sum(&tables, site.0), site.2);
    assert_eq!(index_page(&mut tables, "https://example.org/", &["fox"]), Phase::Finished);
    let other = tables.websites[1].clone();
    assert_eq!(frequency_sum(&tables, other.0), other.2);
    assert_eq!(frequency_sum(&tables, site.0), site.2);
}

#[test]
fn indexing_a_url_again_replaces_its_occurrences() {
    let mut tables = empty_tables();
    assert_eq!(index_page(&mut tables, "https://example.com/", &["fox", "dog", "fox"]), Phase::Finished);
    assert_eq!(index_page(&mut tables, "https://example.org/", &["fox"]), Phase::Finished);
    assert_eq!(index_page(&mut tables, "https://example.com/", &["dog", "cat", "cat", "cat"]), Phase::Finished);
    assert_eq!(tables.websites.len(), 2);
    assert_eq!(tables.websites[0], (1, "https://example.com/".to_string(), 4));
    assert!(rows_are_unique(&tables));
    assert_eq!(frequency_sum(&tables, 1), 4);
    let dog = tables.keywords.iter().find(|k| k.1 == "dog").unwrap().0;
    let cat = tables.keywords.iter().find(|k| k.1 == "cat").unwrap().0;
    let fox = tables.keywords.iter().find(|k| k.1 == "fox").unwrap().0;
    let mut of_site: Vec<(u128, i32)> =
        tables.occurrences.iter().filter(|o| o.1 == 1).map(|o| (o.0, o.2)).collect();
    of_site.sort();
    let mut expected = vec![(dog, 1), (cat, 3)];
    expected.sort();
    assert_eq!(of_site, expected);
    // The entry of a term that left the page stays as it was written.
    let stale = tables.scores.iter().find(|s| s.website_id == 1 && s.keyword_id == fox).unwrap();
    assert_eq!((stale.frequency, stale.word_count), (2, 3));
    let fresh = tables.scores.iter().find(|s| s.website_id == 1 && s.keyword_id == dog).unwrap();
    assert_eq!((fresh.frequency, fresh.word_count), (1, 4));
    assert_eq!((fresh.docs_with_keyword, fresh.total_docs), (1, 2));
    assert_eq!(tables.log[1], "UpdateWordCount { website_id: 1, word_count: 4 }");
    assert_eq!(tables.log[2], "DeleteWebsiteKeywords { website_id: 1 }");
}

#[test]
fn a_keyword_of_two_documents_counts_both() {
    let mut tables = empty_tables();
    assert_eq!(index_page(&mut tables, "https://a.example/", &["fox", "dog"]), Phase::Finished);
    assert_eq!(index_page(&mut tables, "https://b.example/", &["fox"]), Phase::Finished);
    let entry = tables.scores.last().unwrap();
    assert_eq!((entry.docs_with_keyword, entry.total_docs), (2, 2));
    assert_eq!((entry.frequency, entry.word_count), (1, 1));
    assert!(tables.scores.iter().all(|s| s.is_sound()));
}

#[test]
fn a_page_without_tokens_only_writes_its_website() {
    let mut tables = empty_tables();
    assert_eq!(index_page(&mut tables, "https://example.com/", &[]), Phase::Finished);
    assert_eq!(tables.websites, vec![(1, "https://example.com/".to_string(), 0)]);
    assert!(tables.keywords.is_empty() && tables.occurrences.is_empty() && tables.scores.is_empty());
    assert_eq!(tables.log.len(), 2);
}

#[test]
fn a_failure_gives_the_page_up() {
    for turn in 0..7 {
        let mut tables = empty_tables();
        tables.fail_at = Some(turn);
        let phase = index_page(&mut tables, "https://example.com/", &["fox", "dog"]);
        assert_eq!(phase, Phase::Aborted);
        assert_eq!(tables.log.len(), turn + 1);
        assert!(rows_are_unique(&tables));
    }
}

#[test]
fn an_unconvertible_entry_skips_the_term_only() {
    let mut tables = empty_tables();
    tables.unconvertible_at = Some(6);
    let phase = index_page(&mut tables, "https://example.com/", &["fox", "dog"]);
    assert_eq!(phase, Phase::Finished);
    assert_eq!(tables.occurrences.len(), 2);
    assert_eq!(tables.scores.len(), 1);
    assert_eq!(tables.scores[0].keyword_id, 3);
}

#[test]
fn an_unawaited_reply_gives_the_page_up() {
    let (indexing, command) = PageIndexing::begin("https://example.com/", &tokens(&["fox"])).unwrap();
    assert!(matches!(command, Command::FindWebsite { .. }));
    assert_eq!(indexing.phase(), Phase::FindingWebsite);
    let (indexing, command) = indexing.step(Reply::Count(3));
    assert!(matches!(command, Command::Abort));
    assert_eq!(indexing.phase(), Phase::Aborted);
    let (indexing, command) = indexing.step(Reply::Done);
    assert!(matches!(command, Command::Abort));
    assert_eq!(indexing.phase(), Phase::Aborted);
}

#[test]
fn the_url_of_a_page_is_parsed_first() {
    match PageIndexing::begin("example.com/a", &tokens(&["fox"])) {
        Err(e) => assert_eq!(e, IndexingError::InvalidUrl(UrlError::RelativeUrlWithoutBase)),
        Ok(_) => panic!("a relative reference was taken as a page URL"),
    }
    match PageIndexing::begin("https://", &tokens(&["fox"])) {
        Err(e) => assert_eq!(e, IndexingError::InvalidUrl(UrlError::Malformed)),
        Ok(_) => panic!("a URL without host was taken as a page URL"),
    }
    let (_, command) = PageIndexing::begin("HTTPS://Example.COM", &tokens(&["fox"])).unwrap();
    match command {
        Command::FindWebsite { url } => assert_eq!(url.as_str(), "https://example.com/"),
        _ => panic!("the first request is the lookup of the website"),
    }
}
