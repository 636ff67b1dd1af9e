//! Core of a web search indexer: text normalisation, seed handling and the
//! term-frequency index discipline.

pub mod counting;
pub mod discipline;
pub mod frequency;
pub mod html;
pub mod indexer;
pub mod language;
pub mod lemmatizer;
pub mod models;
pub mod numbers;
pub mod parser;
pub mod seed;
pub mod store;
pub mod text;
pub mod words;
