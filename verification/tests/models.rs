use mindscribe::ml::models::{embedding_model, is_model_downloaded, sentiment_model};
use std::path::PathBuf;

#[test]
fn model_files_live_below_the_models_directory() {
    let dir = PathBuf::from("/data/models");
    let model = embedding_model();
    assert_eq!(model.local_path(&dir), PathBuf::from("/data/models/all-MiniLM-L6-v2"));
    assert_eq!(
        model.model_path(&dir),
        PathBuf::from("/data/models/all-MiniLM-L6-v2/model.safetensors")
    );
    assert_eq!(
        model.tokenizer_path(&dir),
        PathBuf::from("/data/models/all-MiniLM-L6-v2/tokenizer.json")
    );
    assert_eq!(
        model.config_path(&dir),
        PathBuf::from("/data/models/all-MiniLM-L6-v2/config.json")
    );
    assert_eq!(model.repo_id, "sentence-transformers/all-MiniLM-L6-v2");
}

#[test]
fn a_model_needs_all_of_its_files() {
    let dir = PathBuf::from("models");
    assert_eq!(
        embedding_model().required_files(&dir),
        vec![
            PathBuf::from("models/all-MiniLM-L6-v2/model.safetensors"),
            PathBuf::from("models/all-MiniLM-L6-v2/tokenizer.json"),
            PathBuf::from("models/all-MiniLM-L6-v2/config.json"),
        ]
    );
    assert_eq!(
        sentiment_model().required_files(&dir),
        vec![
            PathBuf::from("models/distilbert-go-emotions/model.safetensors"),
            PathBuf::from("models/distilbert-go-emotions/vocab.txt"),
            PathBuf::from("models/distilbert-go-emotions/config.json"),
            PathBuf::from("models/distilbert-go-emotions/tokenizer_config.json"),
            PathBuf::from("models/distilbert-go-emotions/special_tokens_map.json"),
        ]
    );
}

#[test]
fn a_model_is_downloaded_once_every_file_exists() {
    assert!(is_model_downloaded(&vec![true, true, true]));
    assert!(!is_model_downloaded(&vec![true, false, true]));
    assert!(!is_model_downloaded(&vec![true, true, true, true, false]));
    assert!(is_model_downloaded(&vec![]));
}
