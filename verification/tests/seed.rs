use search_engine::seed::{needs_promotion, promote, resolve_seed, AbsoluteUrl, UrlError, WebsiteData};

#[test]
fn a_bare_domain_is_promoted() {
    assert_eq!(promote("example.com"), "https://www.example.com");
    assert_eq!(promote(""), "https://www.");
    let row = WebsiteData { rank: 1, root_domain: "example.com".to_string() };
    assert_eq!(row.rank, 1);
    assert_eq!(resolve_seed(&row.root_domain).unwrap().as_str(), "https://www.example.com/");
}

#[test]
fn an_absolute_url_is_taken_as_it_is() {
    assert_eq!(resolve_seed("https://example.org/a?b=c").unwrap().as_str(), "https://example.org/a?b=c");
    assert_eq!(resolve_seed("http://Example.org").unwrap().as_str(), "http://example.org/");
}

#[test]
fn only_a_missing_scheme_is_promoted() {
    assert!(needs_promotion(&Err(UrlError::RelativeUrlWithoutBase)));
    assert!(!needs_promotion(&Err(UrlError::Malformed)));
    assert!(!needs_promotion(&AbsoluteUrl::parse("https://example.com")));
    assert_eq!(AbsoluteUrl::parse("example.com").unwrap_err(), UrlError::RelativeUrlWithoutBase);
    assert_eq!(AbsoluteUrl::parse("https://").unwrap_err(), UrlError::Malformed);
    assert_eq!(resolve_seed("https://").unwrap_err(), UrlError::Malformed);
}

#[test]
fn a_row_that_fails_after_promotion_is_skipped() {
    assert_eq!(resolve_seed("exa mple.com").unwrap_err(), UrlError::Malformed);
    assert_eq!(resolve_seed("http://a b").unwrap_err(), UrlError::Malformed);
    assert_eq!(resolve_seed("").unwrap().as_str(), "https://www./");
}

#[test]
fn a_url_keeps_its_text_when_cloned() {
    let url = AbsoluteUrl::parse("https://example.com/path").unwrap();
    assert_eq!(url.clone().as_str(), url.as_str());
}
