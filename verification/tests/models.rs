use search_engine::models::keyword::{InsertKeywordDao, Keyword};
use search_engine::models::lookup::{FindOrCreate, Lookup, Upsert};
use search_engine::models::website::Website;
use search_engine::models::website_keyword_tfidf::{InsertWebsiteKeywordTfidfDao, WebsiteKeywordTfidf};
use search_engine::models::website_keywords::{InsertWebsiteKeywordsDao, WebsiteKeywords};
use search_engine::seed::AbsoluteUrl;

fn counts(frequency: i32, word_count: i32, docs_with_keyword: i64, total_docs: i64) -> InsertWebsiteKeywordTfidfDao {
    InsertWebsiteKeywordTfidfDao { website_id: 7, keyword_id: 9, frequency, word_count, docs_with_keyword, total_docs }
}

#[test]
fn an_existing_keyword_is_kept() {
    let row = Keyword { id: 5, keyword: "fox".to_string() };
    match Keyword::find_or_create(Lookup::Found(row), "fox") {
        FindOrCreate::Existing(k) => assert_eq!((k.id, k.keyword.as_str()), (5, "fox")),
        _ => panic!("an existing keyword is not created again"),
    }
}

#[test]
fn a_missing_keyword_is_created_with_its_spelling() {
    match Keyword::find_or_create(Lookup::NotFound, "fox") {
        FindOrCreate::Create(InsertKeywordDao { keyword }) => assert_eq!(keyword, "fox"),
        _ => panic!("a missing keyword is created"),
    }
    assert!(matches!(Keyword::find_or_create(Lookup::Failed, "fox"), FindOrCreate::Failed));
}

#[test]
fn a_website_is_found_or_created() {
    let url = AbsoluteUrl::parse("https://example.com").unwrap();
    let row = Website { id: 3, url: "https://example.com/".to_string(), word_count: 12 };
    match Website::find_or_create(Lookup::Found(row), url.clone(), 40) {
        FindOrCreate::Existing(w) => assert_eq!((w.id, w.word_count), (3, 12)),
        _ => panic!("an existing website is not created again"),
    }
    match Website::find_or_create(Lookup::NotFound, url.clone(), 40) {
        FindOrCreate::Create(dao) => {
            assert_eq!(dao.url.as_str(), "https://example.com/");
            assert_eq!(dao.word_count, 40);
        }
        _ => panic!("a missing website is created"),
    }
    assert!(matches!(Website::find_or_create(Lookup::Failed, url, 40), FindOrCreate::Failed));
}

#[test]
fn an_entry_is_updated_in_place_or_inserted() {
    let values = counts(2, 10, 1, 4);
    let row = WebsiteKeywordTfidf {
        id: 77,
        website_id: 7,
        keyword_id: 9,
        frequency: 1,
        word_count: 3,
        docs_with_keyword: 1,
        total_docs: 1,
    };
    match WebsiteKeywordTfidf::upsert_by_website_keyword(Lookup::Found(row), values) {
        Upsert::Update { id, values } => {
            assert_eq!(id, 77);
            assert_eq!((values.frequency, values.word_count), (2, 10));
        }
        _ => panic!("an existing entry is updated"),
    }
    match WebsiteKeywordTfidf::upsert_by_website_keyword(Lookup::NotFound, values) {
        Upsert::Insert(values) => assert_eq!((values.docs_with_keyword, values.total_docs), (1, 4)),
        _ => panic!("a missing entry is inserted"),
    }
    assert!(matches!(
        WebsiteKeywordTfidf::upsert_by_website_keyword(Lookup::Failed, values),
        Upsert::Failed
    ));
}

#[test]
fn sound_counts_have_the_keyword_in_some_but_not_too_many_documents() {
    assert!(counts(1, 1, 1, 1).is_sound());
    assert!(counts(2, 10, 3, 4).is_sound());
    assert!(!counts(2, 10, 0, 4).is_sound());
    assert!(!counts(2, 10, 5, 4).is_sound());
    assert!(!counts(0, 10, 1, 4).is_sound());
    assert!(!counts(11, 10, 1, 4).is_sound());
    assert!(!counts(1, 0, 1, 4).is_sound());
    assert!(!counts(1, 1, 0, 0).is_sound());
}

#[test]
fn occurrence_rows_hold_their_keys_and_count() {
    let dao = InsertWebsiteKeywordsDao { keyword_id: 2, website_id: 1, frequency: 4 };
    let row = WebsiteKeywords { id: 9, keyword_id: dao.keyword_id, website_id: dao.website_id, frequency: dao.frequency };
    assert_eq!((row.id, row.keyword_id, row.website_id, row.frequency), (9, 2, 1, 4));
}
