//! Script-aware text segmentation for full-text search indexing, and the
//! decisions of the bridge between a tokenizer and its host's callback
//! protocol.

pub mod host;
pub mod reg;
pub mod tokenize;
