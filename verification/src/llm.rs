//! The chat companion: safety gate, prompt assembly and the shapes exchanged
//! with the language-model client.

pub mod chat;
pub mod ollama;
pub mod safety;
pub mod turn;

use crate::llm::ollama::{OllamaClient, OLLAMA_BASE_URL};
use crate::llm::safety::SafetyFilter;
use vstd::prelude::*;

verus! {

/// State for managing LLM interactions. Ollama is the backend for local
/// inference.
pub struct LlmState {
    pub ollama: OllamaClient,
    pub safety: SafetyFilter,
}

impl LlmState {
    /// The state for the default endpoint.
    pub fn new() -> (state: Self)
        ensures
            state.ollama.base() == OLLAMA_BASE_URL@,
    {
        LlmState { ollama: OllamaClient::new(), safety: SafetyFilter::new() }
    }
}

/// Who wrote a chat message.
#[derive(Debug, Clone, Copy, PartialEq, Eq, Structural)]
pub enum ChatRole {
    User,
    Assistant,
    System,
}

/// Chat message sent from or to the language model.
#[derive(Debug, Clone)]
pub struct ChatMessage {
    pub role: ChatRole,
    pub content: String,
}

/// Event payload for streaming chat chunks.
#[derive(Debug, Clone)]
pub struct ChatChunkEvent {
    pub chunk: String,
    pub done: bool,
}

/// Event payload for chat errors.
#[derive(Debug, Clone)]
pub struct ChatErrorEvent {
    pub message: String,
}

} // verus!
