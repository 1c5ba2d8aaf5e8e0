//! Word-uniqueness histogram engine: counts distinct whitespace-delimited
//! tokens per document (plain text files and members of possibly nested ZIP
//! archives) and aggregates the counts into a binned frequency table.

pub mod args;
pub mod histogram;
pub mod names;
pub mod processor;
pub mod ziparch;
pub mod render;
pub mod words;
