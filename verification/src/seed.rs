//! Seed rows and the absolute URL that each one stands for.

use vstd::prelude::*;
use vstd::string::StringExecFns;

verus! {

/// One row of the seed list: a rank and a domain or URL.
#[derive(Debug, Clone)]
pub struct WebsiteData {
    pub rank: i32,
    pub root_domain: String,
}

/// Why a text is not an absolute URL.
#[derive(Debug, Clone, Copy, PartialEq, Eq, Structural)]
pub enum UrlError {
    /// The text is a relative reference: it has no scheme.
    RelativeUrlWithoutBase,
    /// The text is malformed in any other way.
    Malformed,
}

/// What `url::Url::parse` makes of a text: the URL in its serialised form, or
/// the kind of its failure.
pub uninterp spec fn parsed_url(input: Seq<char>) -> Result<Seq<char>, UrlError>;

/// Calls `url::Url::parse`, whose outcome depends on the text alone, and
/// hands out the serialised URL. Of the failures only the one for a missing
/// scheme is told apart.
#[verifier::external_body]
fn parse_url(input: &str) -> (r: Result<String, UrlError>)
    ensures
        match r {
            Ok(url) => parsed_url(input@) == Ok::<Seq<char>, UrlError>(url@),
            Err(e) => parsed_url(input@) == Err::<Seq<char>, UrlError>(e),
        },
{
    match url::Url::parse(input) {
        Ok(url) => Ok(String::from(url)),
        Err(url::ParseError::RelativeUrlWithoutBase) => Err(UrlError::RelativeUrlWithoutBase),
        Err(_) => Err(UrlError::Malformed),
    }
}

/// An absolute URL in its serialised form, as parsing some text gave it.
#[derive(Debug)]
pub struct AbsoluteUrl {
    text: String,
}

impl View for AbsoluteUrl {
    type V = Seq<char>;

    closed spec fn view(&self) -> Seq<char> {
        self.text@
    }
}

impl Clone for AbsoluteUrl {
    fn clone(&self) -> (out: Self)
        ensures
            out@ == self@,
    {
        proof {
            use_type_invariant(self);
        }
        AbsoluteUrl { text: self.text.clone() }
    }
}

impl AbsoluteUrl {
    #[verifier::type_invariant]
    spec fn parsed_from_some_text(&self) -> bool {
        exists|input: Seq<char>| #[trigger] parsed_url(input) == Ok::<Seq<char>, UrlError>(self.text@)
    }

    /// Parses a text as an absolute URL.
    pub fn parse(input: &str) -> (r: Result<Self, UrlError>)
        ensures
            match r {
                Ok(url) => parsed_url(input@) == Ok::<Seq<char>, UrlError>(url@),
                Err(e) => parsed_url(input@) == Err::<Seq<char>, UrlError>(e),
            },
    {
        match parse_url(input) {
            Ok(text) => Ok(AbsoluteUrl { text }),
            Err(e) => Err(e),
        }
    }

    /// The serialised URL.
    pub fn as_str(&self) -> (text: &str)
        ensures
            text@ == self@,
    {
        self.text.as_str()
    }
}

/// A bare domain promoted to a URL: `https://www.` in front of it.
pub open spec fn promoted(root_domain: Seq<char>) -> Seq<char> {
    "https://www."@ + root_domain
}

/// The seed URL, from the outcome of parsing the row's text and that of
/// parsing the promoted text: the first where it succeeds, the second where
/// the first failed for want of a scheme, and otherwise the failure.
pub open spec fn seed_outcome(
    direct: Result<Seq<char>, UrlError>,
    after_promotion: Result<Seq<char>, UrlError>,
) -> Result<Seq<char>, UrlError> {
    match direct {
        Ok(url) => Ok(url),
        Err(UrlError::RelativeUrlWithoutBase) => after_promotion,
        Err(e) => Err(e),
    }
}

/// The absolute URL that a seed row's text stands for.
pub open spec fn seed_url(root_domain: Seq<char>) -> Result<Seq<char>, UrlError> {
    seed_outcome(parsed_url(root_domain), parsed_url(promoted(root_domain)))
}

/// Decides whether a failed parse calls for a second attempt on the promoted
/// text: only a missing scheme does.
pub fn needs_promotion(direct: &Result<AbsoluteUrl, UrlError>) -> (b: bool)
    ensures
        b == (direct matches Err(UrlError::RelativeUrlWithoutBase)),
{
    match direct {
        Err(UrlError::RelativeUrlWithoutBase) => true,
        _ => false,
    }
}

/// Promotes a bare domain by putting `https://www.` in front of it.
pub fn promote(root_domain: &str) -> (out: String)
    ensures
        out@ == promoted(root_domain@),
{
    String::from_str("https://www.").concat(root_domain)
}

/// Resolves the text of a seed row to an absolute URL. A text that parses as
/// a URL is taken as it is; one that lacks a scheme is promoted and parsed
/// again; any other failure, of either attempt, is returned for the row to be
/// skipped.
pub fn resolve_seed(root_domain: &str) -> (r: Result<AbsoluteUrl, UrlError>)
    ensures
        match r {
            Ok(url) => seed_url(root_domain@) == Ok::<Seq<char>, UrlError>(url@),
            Err(e) => seed_url(root_domain@) == Err::<Seq<char>, UrlError>(e),
        },
{
    let direct = AbsoluteUrl::parse(root_domain);
    if needs_promotion(&direct) {
        let candidate = promote(root_domain);
        AbsoluteUrl::parse(candidate.as_str())
    } else {
        direct
    }
}

} // verus!
