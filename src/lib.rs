//! A pull-based XML tokenizer over bytes held in memory.
//!
//! - `reader`: the reader and its tag-state dispatch, with an exact account
//!   of each read (`read_step`) and the laws that follow from it;
//! - `parser`: the parser engine that turns one scanned construct into an
//!   event and keeps the stack of open elements;
//! - `scan`: classification and end of `<!` constructs, and the quote-aware
//!   search for the end of a tag;
//! - `encoding`: encoding detection and decoding;
//! - `namespace`: the namespace resolver of the namespace-aware reader;
//! - `decl`: attribute lists, as the XML declaration and namespace
//!   declarations need them;
//! - `builder`, `events`, `error`: options, events and errors.

pub mod error;
pub mod scan;
mod search;
pub mod events;
pub mod encoding;
pub mod decl;
pub mod parser;
pub mod builder;
pub mod namespace;
pub mod reader;
