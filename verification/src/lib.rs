//! Extraction of hyperlink references — (name, destination, title) triples —
//! from markup text in several dialects: HTML inline anchors, and
//! reStructuredText inline links and link-reference definitions.
//!
//! Each dialect exposes one top-level parser that expects its opening marker
//! at the very start of the input and returns the unconsumed suffix together
//! with the extracted triple, or a typed, position-bearing parse error so that
//! a caller may try another dialect at the same offset.
//!
//! All parsers work on the raw bytes of the document text.

pub mod block;
pub mod chars;
pub mod error;
pub mod escape;
pub mod html;
pub mod restructured_text;
pub mod text;
