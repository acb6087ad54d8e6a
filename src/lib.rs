//! A full-text search index ranked by term frequency and inverse document frequency.

pub mod chars;
pub mod lexer;
pub mod table;
pub mod tfidf;
pub mod pipeline;
pub mod lda;
pub mod dispatch;
pub mod extract;
