//! Search of extracted document text for the lines that hold a pattern.
//!
//! A document's text is cut into lines, the lines that hold the pattern are
//! kept in order, and every occurrence of the pattern in such a line is
//! reported with the text before it, the matched span and the text after it.

pub mod text;
pub mod scan;
pub mod encoding;
pub mod fold;
pub mod lines;
pub mod matcher;
pub mod normalize;
pub mod cli;
pub mod occurrence;
pub mod paint;
pub mod report;
pub mod select;
pub mod driver;

pub use crate::cli::Cli;
pub use crate::driver::{find_hits, search_file, ExtractedDocument, Hit};
pub use crate::lines::lines;
pub use crate::matcher::{
    contains_str, find_matching_lines, search_case_insensitive, search_case_sensitive,
};
pub use crate::normalize::{normalize, reversed};
pub use crate::occurrence::{locate_occurrences, occurrences_in, Occurrence};
pub use crate::report::{
    format_hit, print_pattern, print_pattern_insensitive, print_pattern_sensitive, show_hit,
    show_occurrences, split_occurrence, Segments,
};
pub use crate::select::{is_pdf_file, select_pdf_files};
