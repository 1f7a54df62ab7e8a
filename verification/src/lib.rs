//! Bridge between a morphological analyzer and a full-text search engine's
//! custom-tokenizer protocol.
//!
//! The analyzer segments a document into a list of nodes; the engine wants a
//! stream of tokens, each with the byte offsets it covers in the document.
//! This crate holds the rules of that conversion: which nodes become tokens,
//! how offsets accumulate, when the stream stops, and the decisions taken
//! while a tokenizer is registered, created and deleted.
//!
//! Nothing here touches foreign memory. The caller copies what the analyzer
//! produced into [`node::MorphNode`] values and performs the host calls itself.

pub mod analysis;
pub mod context;
pub mod extension;
pub mod node;
pub mod span;
pub mod status;
pub mod tokenize;
