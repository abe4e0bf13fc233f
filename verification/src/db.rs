//! The shapes that the journal store hands to the engine, and the retrieval
//! logic that works on them.

pub mod chat;
pub mod emotions;
pub mod encryption;
pub mod images;
pub mod journals;
pub mod search;
pub mod statements;
pub mod templates;
pub mod vectors;
