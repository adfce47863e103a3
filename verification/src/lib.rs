//! Bibliographic lookup: classifying what a user typed (DOI, arXiv id,
//! citation key or free text), planning the Crossref and arXiv requests,
//! mapping their records to a common work record, filtering, merging and
//! ranking results, and writing BibTeX entries.
pub mod text;
pub mod words;
pub mod numbers;
pub mod keys;
pub mod metadata;
pub mod bibtex;
pub mod search;
pub mod filter;
pub mod merging;
pub mod ranking;
pub mod sources;
pub mod requests;
pub mod display;
pub mod session;
pub mod laws;

pub use bibtex::format_bibtex;
pub use metadata::{Author, SourceKind, WorkRecord};
pub use search::{classify_query, QueryKind};
