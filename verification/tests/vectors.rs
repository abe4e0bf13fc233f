use mindscribe::db::search::ChannelHit;
use mindscribe::db::vectors::{
    check_chunk_embeddings, check_embedding, check_query_embedding, embedding_to_blob,
    merge_best_distances, ArchiveFilter, ChunkData, ChunkSearchResult, EntryStatus,
    EMBEDDING_DIM,
};
use mindscribe::error::AppError;

fn bits(values: &[f32]) -> Vec<u32> {
    values.iter().map(|v| v.to_bits()).collect()
}

fn entry(id: &str, distance: f64) -> ChannelHit {
    ChannelHit {
        id: id.to_string(),
        score: distance.to_bits(),
    }
}

fn chunk(journal_id: &str, chunk_id: &str, distance: f64) -> ChunkSearchResult {
    ChunkSearchResult {
        journal_id: journal_id.to_string(),
        chunk_id: chunk_id.to_string(),
        chunk_text: String::new(),
        distance: distance.to_bits(),
    }
}

fn pairs(hits: &[ChannelHit]) -> Vec<(&str, f64)> {
    hits.iter()
        .map(|h| (h.id.as_str(), f64::from_bits(h.score)))
        .collect()
}

#[test]
fn test_invalid_dimension() {
    let bad_embedding: Vec<u32> = bits(&[1.0, 2.0, 3.0]); // Wrong dimension

    let result = check_embedding(&bad_embedding);
    assert!(result.is_err());
}

#[test]
fn dimension_errors_name_both_sizes() {
    match check_embedding(&bits(&[1.0, 2.0, 3.0])) {
        Err(AppError::InvalidInput(message)) => {
            assert_eq!(message, "Expected embedding of dimension 384, got 3")
        }
        other => panic!("unexpected: {:?}", other),
    }
    match check_query_embedding(&vec![0u32; 385]) {
        Err(AppError::InvalidInput(message)) => {
            assert_eq!(message, "Expected query embedding of dimension 384, got 385")
        }
        other => panic!("unexpected: {:?}", other),
    }
    assert!(check_embedding(&vec![0u32; EMBEDDING_DIM]).is_ok());
    assert!(check_query_embedding(&vec![0u32; EMBEDDING_DIM]).is_ok());
}

#[test]
fn chunks_are_checked_as_a_set() {
    let good = ChunkData {
        chunk_index: 0,
        chunk_text: "a".to_string(),
        embedding: vec![0u32; EMBEDDING_DIM],
    };
    let bad = ChunkData {
        chunk_index: 1,
        chunk_text: "b".to_string(),
        embedding: vec![0u32; 7],
    };
    assert!(check_chunk_embeddings(&vec![good.clone(), good.clone()]).is_ok());
    assert!(check_chunk_embeddings(&vec![]).is_ok());
    match check_chunk_embeddings(&vec![good, bad]) {
        Err(AppError::InvalidInput(message)) => {
            assert_eq!(message, "Expected embedding of dimension 384, got 7")
        }
        other => panic!("unexpected: {:?}", other),
    }
}

#[test]
fn blob_is_little_endian() {
    let blob = embedding_to_blob(&bits(&[1.0, -2.5]));
    let mut expected = Vec::new();
    expected.extend_from_slice(&1.0f32.to_le_bytes());
    expected.extend_from_slice(&(-2.5f32).to_le_bytes());
    assert_eq!(blob, expected);
    assert_eq!(embedding_to_blob(&vec![0x0403_0201]), vec![1, 2, 3, 4]);
    assert!(embedding_to_blob(&vec![]).is_empty());
}

#[test]
fn a_chunk_donates_its_distance_to_its_entry() {
    let entries = vec![entry("long", 0.9), entry("short", 0.4)];
    let chunks = vec![
        chunk("long", "c1", 0.2),
        chunk("long", "c2", 0.7),
        chunk("other", "c3", 0.5),
    ];
    let merged = merge_best_distances(&entries, &chunks);
    assert_eq!(
        pairs(&merged),
        vec![("long", 0.2), ("short", 0.4), ("other", 0.5)]
    );
}

#[test]
fn equal_distances_keep_the_order_of_first_appearance() {
    let entries = vec![entry("b", 0.5), entry("a", 0.5)];
    let chunks = vec![chunk("c", "c1", 0.5), chunk("a", "c2", 0.5)];
    let merged = merge_best_distances(&entries, &chunks);
    assert_eq!(pairs(&merged), vec![("b", 0.5), ("a", 0.5), ("c", 0.5)]);
    assert!(merge_best_distances(&vec![], &vec![]).is_empty());
}

fn run_filter(
    candidates: Vec<ChannelHit>,
    limit: usize,
    include_archived: bool,
    statuses: &[EntryStatus],
) -> (Vec<ChannelHit>, usize) {
    let mut filter = ArchiveFilter::new(candidates, limit, include_archived);
    let mut lookups = 0;
    while let Some(_id) = filter.pending() {
        filter = filter.resolve(statuses[lookups]);
        lookups += 1;
    }
    (filter.finish(), lookups)
}

#[test]
fn archived_and_orphaned_entries_are_filtered_out() {
    let candidates = vec![
        entry("a", 0.1),
        entry("b", 0.2),
        entry("c", 0.3),
        entry("d", 0.4),
        entry("e", 0.5),
    ];
    let statuses = [
        EntryStatus::Archived,
        EntryStatus::Active,
        EntryStatus::Missing,
        EntryStatus::Active,
        EntryStatus::Active,
    ];
    let (kept, lookups) = run_filter(candidates.clone(), 2, false, &statuses);
    assert_eq!(pairs(&kept), vec![("b", 0.2), ("d", 0.4)]);
    // The fifth candidate is never looked up: two survivors were enough.
    assert_eq!(lookups, 4);

    let (kept, lookups) = run_filter(candidates.clone(), 10, false, &statuses);
    assert_eq!(pairs(&kept), vec![("b", 0.2), ("d", 0.4), ("e", 0.5)]);
    assert_eq!(lookups, 5);

    let (kept, lookups) = run_filter(candidates, 0, false, &statuses);
    assert!(kept.is_empty());
    assert_eq!(lookups, 0);
}

#[test]
fn the_filter_names_the_entry_to_look_up() {
    let filter = ArchiveFilter::new(vec![entry("a", 0.1), entry("b", 0.2)], 1, false);
    assert_eq!(filter.pending(), Some("a".to_string()));
    let filter = filter.resolve(EntryStatus::Missing);
    assert_eq!(filter.pending(), Some("b".to_string()));
    let filter = filter.resolve(EntryStatus::Active);
    assert_eq!(filter.pending(), None);
    // A filter that wants no lookup ignores further answers.
    let filter = filter.resolve(EntryStatus::Active);
    assert_eq!(pairs(&filter.finish()), vec![("b", 0.2)]);
}

#[test]
fn orphans_are_dropped_even_where_archived_entries_are_included() {
    let candidates = vec![
        entry("a", 0.1),
        entry("b", 0.2),
        entry("c", 0.3),
        entry("d", 0.4),
        entry("e", 0.5),
    ];
    let statuses = [
        EntryStatus::Archived,
        EntryStatus::Missing,
        EntryStatus::Active,
        EntryStatus::Missing,
        EntryStatus::Archived,
    ];
    let (kept, lookups) = run_filter(candidates.clone(), 10, true, &statuses);
    assert_eq!(pairs(&kept), vec![("a", 0.1), ("c", 0.3), ("e", 0.5)]);
    assert_eq!(lookups, 5);

    // The cut to the limit counts the entries kept, not the candidates.
    let (kept, lookups) = run_filter(candidates.clone(), 2, true, &statuses);
    assert_eq!(pairs(&kept), vec![("a", 0.1), ("c", 0.3)]);
    assert_eq!(lookups, 3);

    let (kept, _) = run_filter(candidates, 10, false, &statuses);
    assert_eq!(pairs(&kept), vec![("c", 0.3)]);
}
