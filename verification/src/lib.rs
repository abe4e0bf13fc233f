//! MindScribe's retrieval and context-assembly engine.
//!
//! The crate decides which journal material is relevant to a query, fuses the
//! lexical and the semantic ranking, packs the result and the chat history
//! into a bounded prompt, and gates every exchange through a safety check.
//! Storage, model inference and the language-model client live outside it and
//! hand it plain values.

pub mod db;
pub mod error;
pub mod llm;
pub mod ml;
pub mod text;
pub mod time;
