use mindscribe::db::journals::{
    entry_not_found, entry_type_or_default, entry_update_columns, list_query, search_query,
    validate_content, validate_update, EntryType,
};
use mindscribe::db::statements::update_statement;
use mindscribe::error::AppError;
use rusqlite::{Connection, OptionalExtension};

struct Entry {
    id: String,
    content: String,
    title: Option<String>,
    entry_type: EntryType,
    is_archived: bool,
}

fn setup_test_db() -> Connection {
    let conn = Connection::open_in_memory().unwrap();
    conn.execute_batch(
        "CREATE TABLE journals (
            id TEXT PRIMARY KEY,
            content TEXT NOT NULL,
            title TEXT,
            entry_type TEXT DEFAULT 'reflection',
            created_at TIMESTAMP DEFAULT CURRENT_TIMESTAMP,
            updated_at TIMESTAMP DEFAULT CURRENT_TIMESTAMP,
            is_archived BOOLEAN DEFAULT 0
        );
        CREATE VIRTUAL TABLE journals_fts USING fts5(
            content,
            content='journals',
            content_rowid='rowid'
        );
        CREATE TRIGGER journals_ai AFTER INSERT ON journals BEGIN
            INSERT INTO journals_fts(rowid, content) VALUES (NEW.rowid, NEW.content);
        END;
        CREATE TRIGGER journals_au AFTER UPDATE ON journals BEGIN
            INSERT INTO journals_fts(journals_fts, rowid, content) VALUES('delete', OLD.rowid, OLD.content);
            INSERT INTO journals_fts(rowid, content) VALUES (NEW.rowid, NEW.content);
        END;",
    )
    .unwrap();
    conn
}

fn read_entry(row: &rusqlite::Row) -> rusqlite::Result<Entry> {
    let entry_type: Option<String> = row.get(3)?;
    Ok(Entry {
        id: row.get(0)?,
        content: row.get(1)?,
        title: row.get(2)?,
        entry_type: EntryType::parse(entry_type.as_deref().unwrap_or_default()),
        is_archived: row.get(6)?,
    })
}

fn create(
    conn: &Connection,
    content: &str,
    title: Option<&str>,
    entry_type: Option<&str>,
) -> Result<String, AppError> {
    validate_content(content)?;
    let count: i64 = conn
        .query_row("SELECT COUNT(*) FROM journals", [], |row| row.get(0))
        .unwrap();
    let id = format!("entry-{}", count + 1);
    let moment = format!("2024-01-15T10:30:{:02}+00:00", count);
    conn.execute(
        "INSERT INTO journals (id, content, title, entry_type, created_at, updated_at) VALUES (?1, ?2, ?3, ?4, ?5, ?6)",
        (&id, content, title, entry_type_or_default(entry_type), &moment, &moment),
    )
    .unwrap();
    Ok(id)
}

fn get(conn: &Connection, id: &str) -> Result<Entry, AppError> {
    conn.query_row(
        "SELECT id, content, title, entry_type, created_at, updated_at, is_archived FROM journals WHERE id = ?1",
        (id,),
        read_entry,
    )
    .optional()
    .unwrap()
    .ok_or_else(|| entry_not_found(id))
}

fn list(
    conn: &Connection,
    limit: Option<i64>,
    offset: Option<i64>,
    archived: Option<bool>,
) -> Vec<Entry> {
    let query = list_query(limit, offset, archived);
    let mut statement = conn.prepare(query.sql()).unwrap();
    let rows = match query.flag() {
        Some(flag) => statement
            .query_map((flag, query.limit, query.offset), read_entry)
            .unwrap(),
        None => statement
            .query_map((query.limit, query.offset), read_entry)
            .unwrap(),
    };
    rows.map(|row| row.unwrap()).collect()
}

fn update(
    conn: &Connection,
    id: &str,
    content: Option<&str>,
    title: Option<&str>,
    entry_type: Option<&str>,
    created_at: Option<&str>,
) -> Result<Entry, AppError> {
    validate_update(content, created_at)?;
    let columns = entry_update_columns(
        content.is_some(),
        title.is_some(),
        entry_type.is_some(),
        created_at.is_some(),
    );
    let sql = update_statement("journals", &columns);
    let mut values = vec!["2024-02-01T00:00:00+00:00".to_string()];
    for given in [content, title, entry_type, created_at].into_iter().flatten() {
        values.push(given.to_string());
    }
    values.push(id.to_string());
    let rows = conn
        .execute(&sql, rusqlite::params_from_iter(values.iter()))
        .unwrap();
    if rows == 0 {
        return Err(entry_not_found(id));
    }
    get(conn, id)
}

fn archive(conn: &Connection, id: &str) {
    conn.execute("UPDATE journals SET is_archived = 1 WHERE id = ?1", (id,))
        .unwrap();
}

fn search(conn: &Connection, query: &str, include_archived: bool) -> Vec<Entry> {
    let found = match search_query(query, include_archived) {
        Some(found) => found,
        None => return vec![],
    };
    let mut statement = conn.prepare(found.sql).unwrap();
    let rows = statement.query_map((found.match_text,), read_entry).unwrap();
    rows.map(|row| row.unwrap()).collect()
}

#[test]
fn journals_test_create_and_get() {
    let conn = setup_test_db();

    let id = create(&conn, "Test entry content", None, None).unwrap();

    let journal = get(&conn, &id).unwrap();
    assert_eq!(journal.id, id);
    assert_eq!(journal.content, "Test entry content");
    assert!(!journal.is_archived);
    assert_eq!(journal.entry_type, EntryType::Reflection);
}

#[test]
fn test_create_with_title_and_type() {
    let conn = setup_test_db();

    let id = create(
        &conn,
        "Morning thoughts",
        Some("A Fresh Start"),
        Some("morning"),
    )
    .unwrap();
    let journal = get(&conn, &id).unwrap();

    assert_eq!(journal.title, Some("A Fresh Start".to_string()));
    assert_eq!(journal.entry_type, EntryType::Morning);
}

#[test]
fn test_list_entries() {
    let conn = setup_test_db();

    create(&conn, "Entry 1", None, None).unwrap();
    create(&conn, "Entry 2", None, None).unwrap();
    create(&conn, "Entry 3", None, None).unwrap();

    let entries = list(&conn, Some(10), None, None);
    assert_eq!(entries.len(), 3);
}

#[test]
fn listings_are_paged_newest_first() {
    let conn = setup_test_db();
    for i in 1..=5 {
        create(&conn, &format!("Entry {}", i), None, None).unwrap();
    }
    let contents = |entries: Vec<Entry>| -> Vec<String> {
        entries.into_iter().map(|e| e.content).collect()
    };
    assert_eq!(
        contents(list(&conn, Some(2), None, None)),
        vec!["Entry 5", "Entry 4"]
    );
    assert_eq!(
        contents(list(&conn, Some(2), Some(3), None)),
        vec!["Entry 2", "Entry 1"]
    );
    assert_eq!(list(&conn, None, None, None).len(), 5);
}

#[test]
fn test_update_entry() {
    let conn = setup_test_db();

    let id = create(&conn, "Original content", None, None).unwrap();
    let updated = update(&conn, &id, Some("Updated content"), None, None, None).unwrap();

    assert_eq!(updated.content, "Updated content");
}

#[test]
fn test_update_title_only() {
    let conn = setup_test_db();

    let id = create(&conn, "Some content", None, None).unwrap();
    let updated = update(&conn, &id, None, Some("New Title"), None, None).unwrap();

    assert_eq!(updated.title, Some("New Title".to_string()));
    assert_eq!(updated.content, "Some content");
}

#[test]
fn every_field_of_an_update_reaches_its_column() {
    let conn = setup_test_db();
    let id = create(&conn, "Some content", None, None).unwrap();
    let other = create(&conn, "Other content", None, None).unwrap();

    let updated = update(
        &conn,
        &id,
        Some("New content"),
        Some("New Title"),
        Some("evening"),
        Some("2020-05-05T05:05:05+00:00"),
    )
    .unwrap();
    assert_eq!(updated.content, "New content");
    assert_eq!(updated.title, Some("New Title".to_string()));
    assert_eq!(updated.entry_type, EntryType::Evening);
    let stored: (String, String) = conn
        .query_row(
            "SELECT created_at, updated_at FROM journals WHERE id = ?1",
            (&id,),
            |row| Ok((row.get(0)?, row.get(1)?)),
        )
        .unwrap();
    assert_eq!(stored.0, "2020-05-05T05:05:05+00:00");
    assert_eq!(stored.1, "2024-02-01T00:00:00+00:00");

    // The other entry is untouched.
    let untouched = get(&conn, &other).unwrap();
    assert_eq!(untouched.content, "Other content");
    assert_eq!(untouched.title, None);

    match update(&conn, "missing", Some("x"), None, None, None) {
        Err(AppError::NotFound(message)) => assert_eq!(message, "Journal entry not found: missing"),
        _ => panic!("an entry that does not exist cannot be updated"),
    }
    assert!(update(&conn, &id, Some("   "), None, None, None).is_err());
}

#[test]
fn test_search_entries() {
    let conn = setup_test_db();

    create(&conn, "Today was a good day", None, None).unwrap();
    create(&conn, "Feeling anxious about tomorrow", None, None).unwrap();
    create(&conn, "Good morning sunshine", None, None).unwrap();

    let results = search(&conn, "good", false);
    assert_eq!(results.len(), 2);
}

#[test]
fn test_search_excludes_archived() {
    let conn = setup_test_db();

    let entry1 = create(&conn, "Today was a good day", None, None).unwrap();
    create(&conn, "Good morning sunshine", None, None).unwrap();
    archive(&conn, &entry1);

    // Without archived
    let results = search(&conn, "good", false);
    assert_eq!(results.len(), 1);
    assert_eq!(results[0].content, "Good morning sunshine");

    // With archived
    let results_with_archived = search(&conn, "good", true);
    assert_eq!(results_with_archived.len(), 2);
}

#[test]
fn test_list_archived_only() {
    let conn = setup_test_db();

    let entry1 = create(&conn, "Entry 1", None, None).unwrap();
    create(&conn, "Entry 2", None, None).unwrap();
    archive(&conn, &entry1);

    let archived = list(&conn, None, None, Some(true));
    assert_eq!(archived.len(), 1);

    let not_archived = list(&conn, None, None, Some(false));
    assert_eq!(not_archived.len(), 1);
}
