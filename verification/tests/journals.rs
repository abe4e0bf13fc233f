use chrono::Datelike;
use mindscribe::db::journals::{
    calculate_longest_streak, calculate_streak, current_streak, entry_not_found,
    entry_type_or_default, entry_update_columns, list_query, longest_streak, search_query,
    streak_info, validate_content, validate_update, wants_title, ArchiveSelection, EntryType,
    LIST_ANY_SQL, LIST_BY_FLAG_SQL, SEARCH_ANY_SQL, SEARCH_UNARCHIVED_SQL,
};
use mindscribe::db::statements::update_statement;
use mindscribe::error::AppError;

fn strings(values: &[&str]) -> Vec<String> {
    values.iter().map(|v| v.to_string()).collect()
}

fn day(text: &str) -> i32 {
    chrono::NaiveDate::parse_from_str(text, "%Y-%m-%d")
        .unwrap()
        .num_days_from_ce()
}

#[test]
fn test_create_empty_content_fails() {
    let result = validate_content("   ");
    assert!(result.is_err());
}

#[test]
fn content_must_hold_more_than_whitespace() {
    assert!(validate_content("Test entry content").is_ok());
    assert!(validate_content(" x ").is_ok());
    for blank in ["", " ", "\n\t  ", "\u{3000}"] {
        match validate_content(blank) {
            Err(AppError::InvalidInput(message)) => assert_eq!(message, "Content cannot be empty"),
            other => panic!("unexpected: {:?}", other),
        }
    }
}

#[test]
fn entry_types_have_names() {
    assert_eq!(EntryType::Morning.as_str(), "morning");
    assert_eq!(EntryType::Evening.as_str(), "evening");
    assert_eq!(EntryType::Gratitude.as_str(), "gratitude");
    assert_eq!(EntryType::Reflection.as_str(), "reflection");
    assert_eq!(EntryType::parse("morning"), EntryType::Morning);
    assert_eq!(EntryType::parse("EVENING"), EntryType::Evening);
    assert_eq!(EntryType::parse("Gratitude"), EntryType::Gratitude);
    assert_eq!(EntryType::parse("anything"), EntryType::Reflection);
    assert_eq!(EntryType::parse(""), EntryType::Reflection);
    assert_eq!("Morning".parse::<EntryType>(), Ok(EntryType::Morning));
    assert_eq!("unknown".parse::<EntryType>(), Ok(EntryType::Reflection));
    assert_eq!(EntryType::default(), EntryType::Reflection);
    assert_eq!(entry_type_or_default(None), "reflection");
    assert_eq!(entry_type_or_default(Some("morning")), "morning");
}

#[test]
fn updates_are_checked_before_they_are_written() {
    assert!(validate_update(None, None).is_ok());
    assert!(validate_update(Some("Updated content"), Some("2024-01-15T10:30:00+00:00")).is_ok());
    assert!(validate_update(None, Some("2024-01-15T10:30:00Z")).is_ok());
    match validate_update(Some("  "), Some("nonsense")) {
        Err(AppError::InvalidInput(message)) => assert_eq!(message, "Content cannot be empty"),
        other => panic!("unexpected: {:?}", other),
    }
    match validate_update(Some("fine"), Some("2024-01-15")) {
        Err(AppError::InvalidInput(message)) => {
            assert_eq!(message, "Invalid created_at date format: 2024-01-15")
        }
        other => panic!("unexpected: {:?}", other),
    }
}

#[test]
fn update_statements_number_their_parameters() {
    let columns = entry_update_columns(true, false, false, false);
    assert_eq!(columns, strings(&["updated_at", "content"]));
    assert_eq!(
        update_statement("journals", &columns),
        "UPDATE journals SET updated_at = ?1, content = ?2 WHERE id = ?3"
    );
    let columns = entry_update_columns(true, true, true, true);
    assert_eq!(
        update_statement("journals", &columns),
        "UPDATE journals SET updated_at = ?1, content = ?2, title = ?3, entry_type = ?4, created_at = ?5 WHERE id = ?6"
    );
    let columns = entry_update_columns(false, true, false, true);
    assert_eq!(
        update_statement("journals", &columns),
        "UPDATE journals SET updated_at = ?1, title = ?2, created_at = ?3 WHERE id = ?4"
    );
    let many: Vec<String> = (0..11).map(|i| format!("c{}", i)).collect();
    let sql = update_statement("t", &many);
    assert!(sql.contains("c9 = ?10, c10 = ?11 WHERE id = ?12"));
}

#[test]
fn missing_entries_are_named() {
    match entry_not_found("abc") {
        AppError::NotFound(message) => assert_eq!(message, "Journal entry not found: abc"),
        other => panic!("unexpected: {:?}", other),
    }
    assert_eq!(entry_not_found("abc").message(), "Journal entry not found: abc");
}

#[test]
fn listings_resolve_to_fixed_queries() {
    let query = list_query(None, None, None);
    assert_eq!((query.limit, query.offset), (50, 0));
    assert_eq!(query.selection, ArchiveSelection::Any);
    assert_eq!(query.sql(), LIST_ANY_SQL);
    assert_eq!(query.flag(), None);

    let query = list_query(Some(10), Some(20), Some(true));
    assert_eq!((query.limit, query.offset), (10, 20));
    assert_eq!(query.selection, ArchiveSelection::ArchivedOnly);
    assert_eq!(query.sql(), LIST_BY_FLAG_SQL);
    assert_eq!(query.flag(), Some(1));

    let query = list_query(Some(1000), None, Some(false));
    assert_eq!(query.limit, 100);
    assert_eq!(query.selection, ArchiveSelection::UnarchivedOnly);
    assert_eq!(query.flag(), Some(0));

    assert_eq!(list_query(Some(-3), None, None).limit, -3);
}

#[test]
fn searches_resolve_to_fixed_queries() {
    assert!(search_query("   ", false).is_none());
    assert!(search_query("", true).is_none());
    let found = search_query("good", false).unwrap();
    assert_eq!(found.sql, SEARCH_UNARCHIVED_SQL);
    assert_eq!(found.match_text, "\"good\"*");
    let found = search_query("good morning", true).unwrap();
    assert_eq!(found.sql, SEARCH_ANY_SQL);
    assert_eq!(found.match_text, "\"good\"* \"morning\"*");
}

#[test]
fn the_longest_streak_is_the_longest_run_of_days() {
    assert_eq!(calculate_longest_streak(&vec![]), 0);
    assert_eq!(calculate_longest_streak(&strings(&["2024-03-10"])), 1);
    let dates = strings(&[
        "2024-03-10",
        "2024-03-09",
        "2024-03-07",
        "2024-03-06",
        "2024-03-05",
        "2024-03-01",
        "2024-02-29",
        "2024-02-28",
        "2024-02-27",
        "2024-01-01",
    ]);
    assert_eq!(calculate_longest_streak(&dates), 4);
    // A date that cannot be read breaks the run.
    let dates = strings(&["2024-03-10", "2024-03-09", "bad", "2024-03-08", "2024-03-07"]);
    assert_eq!(calculate_longest_streak(&dates), 2);
    assert_eq!(calculate_longest_streak(&strings(&["bad"])), 1);
}

#[test]
fn the_current_streak_ends_today_or_yesterday() {
    let dates = strings(&["2024-03-10", "2024-03-09", "2024-03-08", "2024-03-06"]);
    assert_eq!(calculate_streak(&dates, day("2024-03-10")).unwrap(), 3);
    assert_eq!(calculate_streak(&dates, day("2024-03-11")).unwrap(), 3);
    assert_eq!(calculate_streak(&dates, day("2024-03-12")).unwrap(), 0);
    assert_eq!(calculate_streak(&vec![], day("2024-03-12")).unwrap(), 0);
    assert_eq!(calculate_streak(&strings(&["2024-03-10"]), day("2024-03-10")).unwrap(), 1);
    match calculate_streak(&strings(&["10.03.2024"]), day("2024-03-10")) {
        Err(AppError::InvalidInput(message)) => assert_eq!(message, "Invalid date format"),
        other => panic!("unexpected: {:?}", other),
    }
}

#[test]
fn streak_info_sums_up_the_days() {
    let dates = strings(&[
        "2024-03-13",
        "2024-03-12",
        "2024-03-10",
        "2024-03-09",
        "2024-03-08",
        "2024-03-07",
    ]);
    // 2024-03-10 was a Sunday.
    let info = streak_info(&dates, day("2024-03-13"), day("2024-03-10"));
    assert_eq!(info.current_streak, 2);
    assert_eq!(info.longest_streak, 4);
    assert_eq!(info.last_entry_date, Some("2024-03-13".to_string()));
    assert_eq!(
        info.entries_this_week,
        strings(&["2024-03-13", "2024-03-12", "2024-03-10"])
    );

    let info = streak_info(&strings(&["bad", "2024-03-12"]), day("2024-03-13"), day("2024-03-10"));
    assert_eq!(info.current_streak, 0);
    assert_eq!(info.longest_streak, 1);
    assert_eq!(info.entries_this_week, strings(&["2024-03-12"]));

    let info = streak_info(&vec![], day("2024-03-13"), day("2024-03-10"));
    assert_eq!((info.current_streak, info.longest_streak), (0, 0));
    assert_eq!(info.last_entry_date, None);
    assert!(info.entries_this_week.is_empty());
}

#[test]
fn short_entries_get_no_title() {
    assert!(!wants_title("Too short."));
    assert!(!wants_title("   nineteen chars here      "));
    assert!(wants_title("This has twenty char"));
    assert!(wants_title("  A long enough entry to deserve a title.  "));
}

#[test]
fn streaks_are_counted_over_day_numbers() {
    let days = vec![Some(100), Some(99), Some(98), None, Some(96), Some(95), Some(94), Some(93)];
    assert_eq!(longest_streak(&days), 4);
    assert_eq!(current_streak(&days, 100), 3);
    assert_eq!(current_streak(&days, 101), 3);
    assert_eq!(current_streak(&days, 102), 0);
    assert_eq!(current_streak(&days, 99), 0);

    assert_eq!(longest_streak(&vec![]), 0);
    assert_eq!(current_streak(&vec![], 5), 0);
    assert_eq!(longest_streak(&vec![None, None]), 1);
    assert_eq!(current_streak(&vec![None, Some(4)], 5), 0);
    // The same day twice is no run of two.
    assert_eq!(longest_streak(&vec![Some(7), Some(7)]), 1);
    assert_eq!(longest_streak(&vec![Some(i32::MIN + 1), Some(i32::MIN)]), 2);
    assert_eq!(current_streak(&vec![Some(i32::MAX), Some(i32::MIN)], i32::MIN), 0);
}
