use mindscribe::db::chat::ChatMessage as DbChatMessage;
use mindscribe::db::journals::{EntryType, Journal};
use mindscribe::db::search::{HybridSearchResult, RrfScore};
use mindscribe::llm::chat::{
    assemble_rag_context, fit_context_budget, fit_within, truncate_snippet, ChatService,
    ContextBudget, SYSTEM_PROMPT,
};
use mindscribe::llm::ollama::OllamaClient;
use mindscribe::llm::safety::{SafetyFilter, SafetyLevel};
use mindscribe::time::Timestamp;

fn journal(id: &str, content: &str) -> Journal {
    Journal {
        id: id.to_string(),
        content: content.to_string(),
        title: None,
        entry_type: EntryType::Reflection,
        created_at: Timestamp {
            nanos: 1_705_314_600_000_000_000,
        },
        updated_at: Timestamp {
            nanos: 1_705_314_600_000_000_000,
        },
        is_archived: false,
    }
}

fn result(id: &str, content: &str) -> HybridSearchResult {
    HybridSearchResult {
        journal: journal(id, content),
        score: RrfScore { num: 1, den: 61 },
        fts_rank: Some(1),
        vec_rank: None,
    }
}

fn turn(role: &str, content: &str) -> DbChatMessage {
    DbChatMessage {
        id: format!("m-{}", content.len()),
        journal_id: "j".to_string(),
        role: role.to_string(),
        content: content.to_string(),
        created_at: "2024-01-15T10:30:00+00:00".to_string(),
        metadata: None,
    }
}

fn contents(history: &[DbChatMessage]) -> Vec<&str> {
    history.iter().map(|m| m.content.as_str()).collect()
}

fn result_ids(results: &[HybridSearchResult]) -> Vec<&str> {
    results.iter().map(|r| r.journal.id.as_str()).collect()
}

fn service() -> ChatService {
    ChatService::new(OllamaClient::new(), SafetyFilter::new())
}

#[test]
fn test_truncate_snippet() {
    let short = "Hello world";
    assert_eq!(truncate_snippet(short, 50), "Hello world");

    let long = "This is a longer piece of text that should be truncated at a word boundary";
    let truncated = truncate_snippet(long, 30);
    assert!(truncated.len() <= 33); // 30 + "..."
    assert!(truncated.ends_with("..."));
}

#[test]
fn truncate_snippet_breaks_at_the_last_space() {
    let long = "This is a longer piece of text that should be truncated at a word boundary";
    assert_eq!(truncate_snippet(long, 30), "This is a longer piece of...");
    assert_eq!(truncate_snippet("abcdefghij", 4), "abcd...");
    assert_eq!(truncate_snippet("abcdefghij", 10), "abcdefghij");
    assert_eq!(truncate_snippet(" abcdefghij", 4), "...");
    assert_eq!(truncate_snippet("", 0), "");
    assert_eq!(truncate_snippet("ab", 0), "...");
}

#[test]
fn test_build_prompt() {
    let ollama = OllamaClient::new();
    let safety = SafetyFilter::new();
    let service = ChatService::new(ollama, safety);

    let messages = service.build_prompt("How am I feeling?", None);
    assert_eq!(messages.len(), 2);
    assert_eq!(messages[0].role, "system");
    assert_eq!(messages[1].role, "user");
    assert_eq!(messages[1].content, "How am I feeling?");
}

#[test]
fn prompt_without_context_is_the_system_prompt() {
    let messages = service().build_prompt("Hi", None);
    assert_eq!(messages[0].content, SYSTEM_PROMPT);
    let messages = service().build_prompt("Hi", Some(&[]));
    assert_eq!(messages[0].content, SYSTEM_PROMPT);
}

#[test]
fn prompt_shows_entries_in_journal_tags() {
    let context = vec![result("e1", "A good day at the lake."), result("e2", "Rain.")];
    let messages = service().build_prompt("Hi", Some(&context));
    let expected = format!(
        "{}\n\nRELEVANT PAST ENTRIES:\n<journal date=\"2024-01-15 10:30:00 UTC\">\nA good day at the lake.\n</journal>\n<journal date=\"2024-01-15 10:30:00 UTC\">\nRain.\n</journal>\n",
        SYSTEM_PROMPT
    );
    assert_eq!(messages[0].content, expected);
}

#[test]
fn prompt_shows_every_entry_that_fits_and_cuts_them() {
    let long = "word ".repeat(60);
    let context: Vec<HybridSearchResult> = (0..7)
        .map(|i| result(&format!("e{}", i), &long))
        .collect();
    let messages = service().build_prompt("Hi", Some(&context));
    let system = &messages[0].content;
    assert_eq!(system.matches("<journal date=").count(), 7);
    let snippet = format!("{}...", "word ".repeat(40).trim_end());
    assert!(system.contains(&format!("\n{}\n</journal>", snippet)));
}

#[test]
fn every_source_names_an_entry_that_the_prompt_shows() {
    // Each entry costs 550: fourteen of twenty fit the ceiling of 8000.
    let context: Vec<HybridSearchResult> = (0..20)
        .map(|i| result(&format!("e{}", i), &format!("Entry number {} {}", i, "x".repeat(600))))
        .collect();
    let prompt = service().build_prompt_with_sources("Hi", Some(&context), None);
    let system = &prompt.messages[0].content;
    assert_eq!(prompt.sources.len(), 14);
    assert_eq!(system.matches("<journal date=").count(), 14);
    for (i, source) in prompt.sources.iter().enumerate() {
        assert_eq!(source.entry_id, format!("e{}", i));
        // The snippet breaks at the last space within 200 characters.
        assert!(system.contains(&format!("\nEntry number {}...\n</journal>", i)));
    }
    assert!(!system.contains("Entry number 14..."));
}

#[test]
fn prompt_puts_history_between_system_and_user() {
    let history = vec![turn("user", "first"), turn("assistant", "second")];
    let messages = service().build_prompt_with_history("third", None, Some(&history));
    let shape: Vec<(&str, &str)> = messages
        .iter()
        .skip(1)
        .map(|m| (m.role.as_str(), m.content.as_str()))
        .collect();
    assert_eq!(
        shape,
        vec![("user", "first"), ("assistant", "second"), ("user", "third")]
    );
}

#[test]
fn sources_refer_to_the_entries_that_fit() {
    let long = format!("{} tail", "x".repeat(150));
    let context = vec![result("e1", "Short entry."), result("e2", &long)];
    let prompt = service().build_prompt_with_sources("Hi", Some(&context), None);
    assert_eq!(prompt.messages.len(), 2);
    assert_eq!(prompt.sources.len(), 2);
    assert_eq!(prompt.sources[0].entry_id, "e1");
    assert_eq!(prompt.sources[0].date, "2024-01-15T10:30:00+00:00");
    assert_eq!(prompt.sources[0].snippet, "Short entry.");
    assert_eq!(prompt.sources[0].score, RrfScore { num: 1, den: 61 });
    assert_eq!(prompt.sources[1].snippet, format!("{}...", "x".repeat(100)));
}

#[test]
fn history_is_packed_newest_first() {
    // Each turn costs its length and 20: 120 for each of these.
    let history: Vec<DbChatMessage> = (0..5)
        .map(|i| turn("user", &format!("{}{}", i, "h".repeat(99))))
        .collect();
    let budget = ContextBudget {
        max_context: 1000,
        system_prompt: 100,
        rag: 500,
        history: 300,
    };
    let (_, fitted) = fit_within(None, Some(&history), &budget);
    assert_eq!(fitted.len(), 2);
    assert!(fitted[0].content.starts_with('3'));
    assert!(fitted[1].content.starts_with('4'));
}

#[test]
fn a_turn_that_does_not_fit_ends_the_packing() {
    let history = vec![
        turn("user", "small"),
        turn("assistant", &"b".repeat(500)),
        turn("user", "recent"),
    ];
    let budget = ContextBudget {
        max_context: 1000,
        system_prompt: 0,
        rag: 0,
        history: 100,
    };
    let (_, fitted) = fit_within(None, Some(&history), &budget);
    // "small" would fit, but the turn before it did not: it is not taken.
    assert_eq!(contents(&fitted), vec!["recent"]);
}

#[test]
fn entries_get_what_history_leaves() {
    let history = vec![turn("user", &"h".repeat(380))]; // costs 400
    let rag = vec![
        result("a", &"a".repeat(100)), // costs 150
        result("b", &"b".repeat(900)), // costs 550, capped
        result("c", "c"),              // costs 51
    ];
    let budget = ContextBudget {
        max_context: 1200,
        system_prompt: 200,
        rag: 800,
        history: 500,
    };
    // 1000 available, 400 spent on history, 600 left for entries.
    let (fitted, turns) = fit_within(Some(&rag), Some(&history), &budget);
    assert_eq!(turns.len(), 1);
    assert_eq!(result_ids(&fitted), vec!["a"]);

    let budget = ContextBudget {
        max_context: 1300,
        ..budget
    };
    let (fitted, _) = fit_within(Some(&rag), Some(&history), &budget);
    assert_eq!(result_ids(&fitted), vec!["a", "b"]);

    let budget = ContextBudget {
        max_context: 5000,
        ..budget
    };
    // The ceiling for entries is 800: 150 + 550 + 51 fits.
    let (fitted, _) = fit_within(Some(&rag), Some(&history), &budget);
    assert_eq!(result_ids(&fitted), vec!["a", "b", "c"]);
}

#[test]
fn packing_never_exceeds_the_budget() {
    let history: Vec<DbChatMessage> = (0..40)
        .map(|i| turn("user", &"h".repeat(37 * (i % 7) + 5)))
        .collect();
    let rag: Vec<HybridSearchResult> = (0..40)
        .map(|i| result(&format!("e{}", i), &"r".repeat(91 * (i % 9))))
        .collect();
    for max_context in [0usize, 50, 400, 1000, 2500, 6000] {
        let budget = ContextBudget {
            max_context,
            system_prompt: 300,
            rag: 1500,
            history: 2000,
        };
        let (fitted, turns) = fit_within(Some(&rag), Some(&history), &budget);
        let history_cost: usize = turns.iter().map(|m| m.content.chars().count() + 20).sum();
        let rag_cost: usize = fitted
            .iter()
            .map(|r| r.journal.content.chars().count().min(500) + 50)
            .sum();
        assert!(history_cost + rag_cost <= max_context.saturating_sub(300));
        assert!(history_cost <= 2000);
        assert!(rag_cost <= 1500);
        // What is kept of the history is its most recent part.
        let skipped = history.len() - turns.len();
        assert_eq!(contents(&turns), contents(&history[skipped..]));
        assert_eq!(result_ids(&fitted), result_ids(&rag[..fitted.len()]));
    }
}

#[test]
fn the_default_budget_keeps_recent_history() {
    let history: Vec<DbChatMessage> = (0..10)
        .map(|i| turn("user", &format!("{}{}", i, "h".repeat(2979))))
        .collect();
    // Each turn costs 3000; 14000 allow four of them.
    let rag = vec![result("a", &"a".repeat(2000)); 20];
    let (fitted, turns) = fit_context_budget(Some(&rag), Some(&history));
    assert_eq!(turns.len(), 4);
    assert!(turns[0].content.starts_with('6'));
    assert!(turns[3].content.starts_with('9'));
    // 22000 - 12000 = 10000 remain, the ceiling for entries is 8000: 14 * 550.
    assert_eq!(fitted.len(), 14);
}

#[test]
fn context_puts_the_current_entry_first() {
    let search = vec![result("a", "A"), result("cur", "Current"), result("b", "B")];
    let context = assemble_rag_context(Some(journal("cur", "Current")), Some("cur"), search.clone(), 5);
    assert_eq!(result_ids(&context), vec!["cur", "a", "b"]);
    assert_eq!(context[0].score, RrfScore { num: 1, den: 1 });
    assert_eq!((context[0].fts_rank, context[0].vec_rank), (Some(1), Some(1)));

    let context = assemble_rag_context(Some(journal("cur", "Current")), Some("cur"), search.clone(), 2);
    assert_eq!(result_ids(&context), vec!["cur", "a"]);

    // The entry could not be fetched: it is still left out of the results.
    let context = assemble_rag_context(None, Some("cur"), search.clone(), 5);
    assert_eq!(result_ids(&context), vec!["a", "b"]);

    let context = assemble_rag_context(None, None, search, 5);
    assert_eq!(result_ids(&context), vec!["a", "cur", "b"]);
}

#[test]
fn the_service_checks_and_augments() {
    let service = service();
    let verdict = service.check_safety("I feel hopeless");
    assert_eq!(verdict.level, SafetyLevel::Distress);
    let reply = service.augment_with_safety("Tell me more.", &verdict);
    assert!(reply.starts_with("Tell me more.\n\n---\n"));
    let calm = service.check_safety("great day");
    assert_eq!(service.augment_with_safety("Nice.", &calm), "Nice.");
}
