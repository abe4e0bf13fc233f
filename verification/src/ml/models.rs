//! Where the model files live on disk.

use std::path::PathBuf;
use vstd::prelude::*;

verus! {

#[verifier::external_type_specification]
#[verifier::external_body]
pub struct ExPathBuf(PathBuf);

/// The text of a path, as `Path::to_string_lossy` shows it.
pub uninterp spec fn path_text(path: PathBuf) -> Seq<char>;

/// The text of the path that `Path::join` makes of a base path with the text
/// `base` and of `name`, on the platform that the crate is built for.
pub uninterp spec fn joined_path(base: Seq<char>, name: Seq<char>) -> Seq<char>;

/// Calls `Path::join`, which adjoins `name` to `base`. The text of the
/// result depends on the text of `base` and on `name` alone and is named
/// [`joined_path`].
#[verifier::external_body]
fn join(base: &PathBuf, name: &str) -> (path: PathBuf)
    ensures
        path_text(path) == joined_path(path_text(*base), name@),
{
    base.join(name)
}

/// Information about a model to download.
#[derive(Debug, Clone, Copy)]
pub struct ModelInfo {
    pub repo_id: &'static str,
    pub model_file: &'static str,
    pub tokenizer_file: &'static str,
    pub config_file: &'static str,
    pub local_dir: &'static str,
    /// Additional files needed (e.g. `tokenizer_config.json` for vocab-based
    /// tokenizers).
    pub extra_files: &'static [&'static str],
}

impl ModelInfo {
    /// The text of the model's directory below a models directory with the
    /// text `models_dir`.
    pub open spec fn local_text(&self, models_dir: Seq<char>) -> Seq<char> {
        joined_path(models_dir, self.local_dir@)
    }

    /// Get the local path for this model.
    pub fn local_path(&self, models_dir: &PathBuf) -> (path: PathBuf)
        ensures
            path_text(path) == self.local_text(path_text(*models_dir)),
    {
        join(models_dir, self.local_dir)
    }

    /// Get the model weights file path.
    pub fn model_path(&self, models_dir: &PathBuf) -> (path: PathBuf)
        ensures
            path_text(path) == joined_path(
                self.local_text(path_text(*models_dir)),
                self.model_file@,
            ),
    {
        join(&self.local_path(models_dir), self.model_file)
    }

    /// Get the tokenizer file path.
    pub fn tokenizer_path(&self, models_dir: &PathBuf) -> (path: PathBuf)
        ensures
            path_text(path) == joined_path(
                self.local_text(path_text(*models_dir)),
                self.tokenizer_file@,
            ),
    {
        join(&self.local_path(models_dir), self.tokenizer_file)
    }

    /// Get the config file path.
    pub fn config_path(&self, models_dir: &PathBuf) -> (path: PathBuf)
        ensures
            path_text(path) == joined_path(
                self.local_text(path_text(*models_dir)),
                self.config_file@,
            ),
    {
        join(&self.local_path(models_dir), self.config_file)
    }
}

impl ModelInfo {
    /// The files that make up the model, below a models directory: weights,
    /// tokenizer and config, then the additional files. The model counts as
    /// downloaded once all of them exist.
    pub fn required_files(&self, models_dir: &PathBuf) -> (files: Vec<PathBuf>)
        ensures
            files.len() == 3 + self.extra_files@.len(),
            path_text(files[0]) == joined_path(
                self.local_text(path_text(*models_dir)),
                self.model_file@,
            ),
            path_text(files[1]) == joined_path(
                self.local_text(path_text(*models_dir)),
                self.tokenizer_file@,
            ),
            path_text(files[2]) == joined_path(
                self.local_text(path_text(*models_dir)),
                self.config_file@,
            ),
            forall|i: int|
                0 <= i < self.extra_files@.len() ==> path_text(#[trigger] files[3 + i])
                    == joined_path(
                    self.local_text(path_text(*models_dir)),
                    self.extra_files@[i]@,
                ),
    {
        let local = self.local_path(models_dir);
        let mut files: Vec<PathBuf> = Vec::new();
        files.push(join(&local, self.model_file));
        files.push(join(&local, self.tokenizer_file));
        files.push(join(&local, self.config_file));
        let mut i: usize = 0;
        while i < self.extra_files.len()
            invariant
                i <= self.extra_files@.len(),
                files.len() == 3 + i,
                path_text(local) == self.local_text(path_text(*models_dir)),
                path_text(files[0]) == joined_path(path_text(local), self.model_file@),
                path_text(files[1]) == joined_path(path_text(local), self.tokenizer_file@),
                path_text(files[2]) == joined_path(path_text(local), self.config_file@),
                forall|k: int|
                    0 <= k < i ==> path_text(#[trigger] files[3 + k]) == joined_path(
                        path_text(local),
                        self.extra_files@[k]@,
                    ),
            decreases self.extra_files@.len() - i,
        {
            files.push(join(&local, self.extra_files[i]));
            i += 1;
        }
        files
    }
}

/// Check if a model is already downloaded, given for each of its required
/// files whether it exists: all of them must.
pub fn is_model_downloaded(files_exist: &Vec<bool>) -> (downloaded: bool)
    ensures
        downloaded == forall|i: int| 0 <= i < files_exist.len() ==> #[trigger] files_exist[i],
{
    let mut i: usize = 0;
    while i < files_exist.len()
        invariant
            i <= files_exist.len(),
            forall|k: int| 0 <= k < i ==> #[trigger] files_exist[k],
        decreases files_exist.len() - i,
    {
        if !files_exist[i] {
            return false;
        }
        i += 1;
    }
    true
}

/// Embedding model: all-MiniLM-L6-v2 (384 dimensions).
pub fn embedding_model() -> (model: ModelInfo)
    ensures
        model.repo_id@ == "sentence-transformers/all-MiniLM-L6-v2"@,
        model.model_file@ == "model.safetensors"@,
        model.tokenizer_file@ == "tokenizer.json"@,
        model.config_file@ == "config.json"@,
        model.local_dir@ == "all-MiniLM-L6-v2"@,
        model.extra_files@.len() == 0,
{
    ModelInfo {
        repo_id: "sentence-transformers/all-MiniLM-L6-v2",
        model_file: "model.safetensors",
        tokenizer_file: "tokenizer.json",
        config_file: "config.json",
        local_dir: "all-MiniLM-L6-v2",
        extra_files: &[],
    }
}

/// Sentiment model: DistilBERT GoEmotions (27 emotions and neutral). Its
/// tokenizer is built from a vocabulary file.
pub fn sentiment_model() -> (model: ModelInfo)
    ensures
        model.repo_id@ == "joeddav/distilbert-base-uncased-go-emotions-student"@,
        model.model_file@ == "model.safetensors"@,
        model.tokenizer_file@ == "vocab.txt"@,
        model.config_file@ == "config.json"@,
        model.local_dir@ == "distilbert-go-emotions"@,
        model.extra_files@.len() == 2,
        model.extra_files@[0]@ == "tokenizer_config.json"@,
        model.extra_files@[1]@ == "special_tokens_map.json"@,
{
    ModelInfo {
        repo_id: "joeddav/distilbert-base-uncased-go-emotions-student",
        model_file: "model.safetensors",
        tokenizer_file: "vocab.txt",
        config_file: "config.json",
        local_dir: "distilbert-go-emotions",
        extra_files: &["tokenizer_config.json", "special_tokens_map.json"],
    }
}

} // verus!
