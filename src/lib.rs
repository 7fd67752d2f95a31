//! Byte-budgeted, line-indexed tables of contents for Markdown documents, together with
//! the rules a documentation fetcher applies around them: which URLs to try for a page,
//! how a fetched page is classified, and its line, word and character counts.
pub mod content;
pub mod headings;
pub mod markdown;
pub mod outline;
pub mod stats;
pub mod text;
pub mod toc;
pub mod variations;
