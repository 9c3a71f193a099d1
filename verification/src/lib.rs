//! A minimal line-oriented text search library.
//!
//! Given a query string and the full text of a document, the library returns
//! the lines of the document that contain the query as a substring, in
//! document order, either case-sensitively or after a simple ASCII
//! lowercasing of both query and line.  The search itself is pure: it reads
//! only its arguments and never fails.

pub mod config;
pub mod search;
pub mod text;

pub use config::Config;
pub use search::search;
pub use search::search_case_insensitive;
pub use search::search_with_policy;
pub use search::CasePolicy;
pub use text::split_lines;
