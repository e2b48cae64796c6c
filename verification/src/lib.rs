//! Verified core of a terminal browser for the textfiles.com archive.
//!
//! The crate covers the pipeline behind the screen: classifying a fetched
//! body as markup or plain text, extracting directory entries from the two
//! known page layouts, the navigation history, the retry policy of the
//! fetcher, and the pure text-layout helpers of the interface.  Network and
//! terminal I/O live outside, in the binary that drives this library.

pub mod browser;
pub mod fetcher;
pub mod parser;
pub mod text;
pub mod ui;
