use mindscribe::db::search::{
    fts_only_results, lexical_query, plan_hybrid_search, reciprocal_rank_fusion, ChannelHit,
    RrfResult,
};
use mindscribe::db::vectors::{merge_best_distances, ArchiveFilter, ChunkSearchResult, EntryStatus};
use rusqlite::Connection;

/// An integer that orders relevance scores as the floats do, negative ones
/// included.
fn order_key(score: f64) -> u64 {
    let bits = score.to_bits();
    if bits >> 63 == 1 {
        !bits
    } else {
        bits | (1 << 63)
    }
}

fn store(entries: &[(&str, &str)]) -> Connection {
    let conn = Connection::open_in_memory().unwrap();
    conn.execute_batch(
        "CREATE TABLE journals (
            id TEXT PRIMARY KEY,
            content TEXT NOT NULL,
            is_archived BOOLEAN DEFAULT 0
        );
        CREATE VIRTUAL TABLE journals_fts USING fts5(
            content,
            content='journals',
            content_rowid='rowid'
        );
        CREATE TRIGGER journals_ai AFTER INSERT ON journals BEGIN
            INSERT INTO journals_fts(rowid, content) VALUES (NEW.rowid, NEW.content);
        END;",
    )
    .unwrap();
    for (id, content) in entries {
        conn.execute(
            "INSERT INTO journals (id, content) VALUES (?1, ?2)",
            (id, content),
        )
        .unwrap();
    }
    conn
}

fn archive(conn: &Connection, id: &str) {
    conn.execute("UPDATE journals SET is_archived = 1 WHERE id = ?1", (id,))
        .unwrap();
}

fn lexical_hits(conn: &Connection, query: &str, limit: usize, include_archived: bool) -> Vec<ChannelHit> {
    let found = match lexical_query(query, include_archived) {
        Some(found) => found,
        None => return Vec::new(),
    };
    let mut statement = conn.prepare(found.sql).unwrap();
    let rows = statement
        .query_map((found.match_text, limit as i64), |row| {
            Ok(ChannelHit {
                id: row.get::<_, String>(0)?,
                score: order_key(row.get::<_, f64>(1)?),
            })
        })
        .unwrap();
    rows.map(|row| row.unwrap()).collect()
}

fn lexical_search(conn: &Connection, query: &str, limit: usize, include_archived: bool) -> Vec<RrfResult> {
    let plan = plan_hybrid_search(limit, false);
    assert_eq!(plan.vector_limit, None);
    let hits = lexical_hits(conn, query, plan.fts_limit, include_archived);
    reciprocal_rank_fusion(&hits, &Vec::new(), limit).unwrap()
}

fn ids(results: &[RrfResult]) -> Vec<&str> {
    results.iter().map(|r| r.0.as_str()).collect()
}

const CORPUS: [(&str, &str); 3] = [
    ("day", "Today was a good day"),
    ("anxious", "Feeling anxious about tomorrow"),
    ("morning", "Good morning sunshine"),
];

#[test]
fn good_morning_is_found_by_words() {
    let conn = store(&CORPUS);

    let results = lexical_search(&conn, "good morning", 10, false);
    // Every word must match: only one entry holds both.
    assert_eq!(ids(&results), vec!["morning"]);
    assert!(results.iter().all(|r| r.3.is_none()));

    let results = lexical_search(&conn, "good", 10, false);
    let mut found = ids(&results);
    found.sort();
    assert_eq!(found, vec!["day", "morning"]);
    assert!(!ids(&results).contains(&"anxious"));
    assert_eq!(results[0].2, Some(1));
    assert_eq!(results[1].2, Some(2));

    // Partial words match as prefixes.
    let results = lexical_search(&conn, "morn", 10, false);
    assert_eq!(ids(&results), vec!["morning"]);
    let results = lexical_search(&conn, "anx tom", 10, false);
    assert_eq!(ids(&results), vec!["anxious"]);
}

#[test]
fn archived_entries_are_left_out_unless_asked_for() {
    let conn = store(&CORPUS);
    archive(&conn, "day");

    let results = lexical_search(&conn, "good", 10, false);
    assert_eq!(ids(&results), vec!["morning"]);

    let results = lexical_search(&conn, "good", 10, true);
    let mut found = ids(&results);
    found.sort();
    assert_eq!(found, vec!["day", "morning"]);
}

#[test]
fn a_blank_query_finds_nothing() {
    let conn = store(&CORPUS);
    assert!(lexical_search(&conn, "", 10, true).is_empty());
    assert!(lexical_search(&conn, "  \n ", 10, true).is_empty());
}

#[test]
fn quotes_in_a_query_are_harmless() {
    let conn = store(&[("q", "She said \"good\" twice"), ("p", "plain good")]);
    let results = lexical_search(&conn, "\"good\"", 10, true);
    let mut found = ids(&results);
    found.sort();
    assert_eq!(found, vec!["p", "q"]);
    assert!(lexical_search(&conn, "good\" OR \"plain", 10, true).is_empty());
}

#[test]
fn lexical_only_ranking_matches_fusion_without_vectors() {
    let conn = store(&CORPUS);
    let hits = lexical_hits(&conn, "good", 10, true);
    assert_eq!(
        fts_only_results(&hits).unwrap(),
        reciprocal_rank_fusion(&hits, &Vec::new(), 10).unwrap()
    );
}

#[test]
fn vector_hits_respect_the_archive() {
    let conn = store(&CORPUS);
    archive(&conn, "anxious");
    let entries = vec![
        ChannelHit { id: "anxious".to_string(), score: 0.10f64.to_bits() },
        ChannelHit { id: "gone".to_string(), score: 0.15f64.to_bits() },
        ChannelHit { id: "day".to_string(), score: 0.40f64.to_bits() },
    ];
    let chunks = vec![ChunkSearchResult {
        journal_id: "morning".to_string(),
        chunk_id: "c1".to_string(),
        chunk_text: "sunshine".to_string(),
        distance: 0.20f64.to_bits(),
    }];
    let merged = merge_best_distances(&entries, &chunks);
    let mut filter = ArchiveFilter::new(merged, 2, false);
    let mut orphans = Vec::new();
    while let Some(id) = filter.pending() {
        let archived: Result<bool, rusqlite::Error> = conn.query_row(
            "SELECT is_archived FROM journals WHERE id = ?1",
            (id.as_str(),),
            |row| row.get(0),
        );
        let status = match archived {
            Ok(false) => EntryStatus::Active,
            Ok(true) => EntryStatus::Archived,
            Err(rusqlite::Error::QueryReturnedNoRows) => {
                orphans.push(id.clone());
                EntryStatus::Missing
            }
            Err(other) => panic!("{}", other),
        };
        filter = filter.resolve(status);
    }
    let vector_hits = filter.finish();
    let found: Vec<&str> = vector_hits.iter().map(|h| h.id.as_str()).collect();
    assert_eq!(found, vec!["morning", "day"]);
    assert_eq!(orphans, vec!["gone".to_string()]);

    // Both channels agree on "morning": it leads the fused ranking.
    let lexical = lexical_hits(&conn, "good", 10, false);
    let fused = reciprocal_rank_fusion(&lexical, &vector_hits, 10).unwrap();
    assert_eq!(fused.len(), 2);
    assert!(fused.iter().all(|r| r.2.is_some() && r.3.is_some()));
    assert!(!fused[0].1.is_below(&fused[1].1));
}
