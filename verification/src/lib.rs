//! Full-text search over the pages of PDF documents.
//!
//! Page text and queries are normalised before they are compared, so that
//! the broken words, missing spaces and line-end hyphens of extracted text
//! do not hide a match. A search takes a list of queries: filter queries
//! narrow the documents down, parallel queries say what is reported.
//! Matches can carry bibliographic metadata from a Zotero library and be
//! rendered as a Markdown report.
//!
//! The crate works on text that has been extracted already: reading PDF
//! files, directories and databases is left to the caller.

pub mod chars;
pub mod corpus;
pub mod document;
pub mod error;
pub mod evaluation;
pub mod evaluation_laws;
pub mod matcher;
pub mod metadata;
pub mod normalize;
pub mod pattern;
pub mod query;
pub mod report;
pub mod words;
pub mod worked_example;

pub use corpus::{find_pdf_files, search_pdfs, WalkedEntry};
pub use document::{Document, SearchMatch};
pub use evaluation::{search_pdf_with_queries, validate_queries};
pub use error::SearchError;
pub use matcher::search_in_page;
pub use metadata::{
    attachment_filename, attachment_metadata, bibliographic_record, build_zotero_map,
    extract_year, join_creators, library_link, AttachmentRecord, MetadataIndex, ZoteroMetadata,
};
pub use normalize::normalize_text;
pub use pattern::snippets_of_spans;
pub use query::{
    default_color, default_query_type, queries_from_tagged, QueryItem, QueryType, SearchParams,
    TaggedQuery,
};
pub use report::export_to_markdown;
pub use words::split_into_words;
