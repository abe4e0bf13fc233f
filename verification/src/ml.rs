//! What the engine knows of the embedding and emotion models.

pub mod embeddings;
pub mod models;
pub mod sentiment;

use vstd::prelude::*;

verus! {

/// Status of ML model availability.
#[derive(Debug)]
pub struct ModelStatus {
    pub embedding_downloaded: bool,
    pub sentiment_downloaded: bool,
    pub models_dir: std::path::PathBuf,
}

} // verus!
