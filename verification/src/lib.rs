//! Verified core of a small tweet search-index tool.
//!
//! The library owns everything that can be checked statically: the record
//! model, the parser for the batch file format, the JSON bodies sent to the
//! search engine, the chunk plan of the bulk loader, and the accounting of
//! engine responses. The surrounding process (HTTP transport, file reading,
//! command-line handling) lives outside the library and exchanges plain
//! values with it.

pub mod batch;
pub mod bulk;
pub mod indexing;
pub mod json_text;
pub mod query;
pub mod setup;
pub mod tweet;
