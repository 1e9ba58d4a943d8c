//! Corpus generation core: turns raw crawl records into per-language corpus
//! lines plus a binary provenance journal that records, for every written
//! piece, which record and which line range it came from.

pub mod document;
pub mod error;
pub mod journal;
pub mod lang;
pub mod pipeline;
pub mod process;
pub mod rebuild;
pub mod schema;
pub mod types;
pub mod writer;

pub use error::CorpusError;
