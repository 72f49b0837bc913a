//! Operator and debug toolkit for optical discs: raw sector reads from a drive, and diagnostics for
//! the stream label parsers.

pub mod cli;
pub mod dd;
pub mod json;
pub mod json_laws;
pub mod json_value;
pub mod labels_analyze;
pub mod labels_corpus_check;
pub mod labels_extract;
pub mod order;
pub mod order_laws;
pub mod stream_label;
pub mod stream_label_laws;
pub mod text;
pub mod text_laws;
