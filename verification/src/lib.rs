//! A rich-text document engine for a sticky-note application.
//!
//! The heart of the crate is a tagged-range text model: a flat character
//! buffer in which every position carries a set of formatting tags, plus a
//! side table of embedded image anchors.  Around it stand the block/list
//! editing state machine, a serializer to an HTML-like markup dialect, a
//! tolerant tokenizer and deserializer for the same dialect, and a scanner
//! that finds cross-note title references in plain text.

pub mod chars;
pub mod tag;
pub mod table;
pub mod doc;
pub mod color;
pub mod edit;
pub mod token;
pub mod tokenize;
pub mod serialize;
pub mod deserialize;
pub mod autolink;
pub mod store;
pub mod laws;
