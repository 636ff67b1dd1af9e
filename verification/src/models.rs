//! The rows of the index and the decisions taken around them.

pub mod keyword;
pub mod lookup;
pub mod website;
pub mod website_keyword_tfidf;
pub mod website_keywords;
