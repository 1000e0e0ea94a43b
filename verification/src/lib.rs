//! Verified core of the Mouser feed reader: text handling, feed source
//! cleaning, article identifiers, the article cache with its archive
//! lifecycle, and date-ordered pagination.

pub mod text;
pub mod trusted;
pub mod urls;
pub mod sources;
pub mod ids;
pub mod model;
pub mod like;
pub mod store;
pub mod seqs;
pub mod laws;
pub mod pages;
pub mod fetch;
