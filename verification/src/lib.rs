//! Bulk-ingest core: build SQL insert statements from tabular rows, parse a
//! record-oriented byte source into rows, and drive a create-then-insert
//! ingest against an external statement gateway.
//!
//! Statements and fields are byte strings; callers that work with text hand
//! in its UTF-8 bytes and read the results back the same way.

pub mod builder;
pub mod driver;
pub mod reader;
