//! Interactive review of full-text search results.
//!
//! The library turns the raw, context-interleaved output of a line-oriented
//! content-search tool into an ordered sequence of match records, and keeps a
//! selection cursor with a grouped result list and a highlighted preview
//! consistent while the user navigates.  Process invocation and terminal
//! drawing live outside the library; everything here is verified.

pub mod pattern;
pub mod review;
pub mod search_match;
pub mod search_status;
pub mod searcher;
pub mod text;
