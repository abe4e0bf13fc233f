//! Chat messages as the store keeps them.

use vstd::prelude::*;

verus! {

/// Chat message stored with a journal entry.
#[derive(Debug, Clone)]
pub struct ChatMessage {
    pub id: String,
    pub journal_id: String,
    pub role: String,
    pub content: String,
    pub created_at: String,
    pub metadata: Option<String>,
}

/// Parameters for creating a new chat message.
#[derive(Debug)]
pub struct CreateMessageParams {
    pub journal_id: String,
    pub role: String,
    pub content: String,
    pub metadata: Option<String>,
}

} // verus!
