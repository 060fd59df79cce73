use zeroclaw::agent::checkpoint::{
    checkpoint_with, create_checkpoint, from_row, to_row, Checkpoint, InMemoryCheckpointStore,
};
use zeroclaw::agent::classifier::{
    classify, classify_with_decision, complexity_of, decide, estimate_complexity,
};
use zeroclaw::agent::eval_suite::{
    canonical_tasks, result_of, Category, EvalResult, EvalSummary, Oracle,
};
use zeroclaw::agent::microcompactor::{microcompact, MicrocompactionConfig};
use zeroclaw::agent::session_state::{RequiresActionDetails, SessionStateTracker, SessionStatus};
use zeroclaw::agent::tool_executor::{
    backoff_ms, decide_next, is_retryable, says_final, AfterAttempt, Attempt, ToolExecutor, ToolRetryPolicy,
};
use zeroclaw::agent::tool_result_truncate::{format_tool_output, MAX_TOOL_OUTPUT_BYTES};
use zeroclaw::config::schema::{ClassificationRule, QueryClassificationConfig};
use zeroclaw::json;
use zeroclaw::json::Json;
use zeroclaw::providers::traits::ChatMessage;
use zeroclaw::tools::traits::ToolResult;

fn msg(role: &str, content: &str) -> ChatMessage {
    ChatMessage {
        role: role.to_string(),
        content: content.to_string(),
    }
}

fn default_config() -> MicrocompactionConfig {
    MicrocompactionConfig::default()
}

fn make_config(enabled: bool, rules: Vec<ClassificationRule>) -> QueryClassificationConfig {
    QueryClassificationConfig { enabled, rules }
}

fn sample_history() -> Vec<ChatMessage> {
    vec![
        ChatMessage::user("Hello"),
        ChatMessage::assistant("Hi there!"),
    ]
}

// ---- microcompactor

#[test]
fn noop_when_disabled() {
    let mut messages = vec![
        msg("system", "sys"),
        msg("user", "hello"),
        msg("tool", &"x".repeat(1000)),
    ];
    let config = MicrocompactionConfig {
        enabled: false,
        ..default_config()
    };
    let result = microcompact(&mut messages, &config);
    assert_eq!(result.cleared_count, 0);
    assert_eq!(messages[2].content.len(), 1000);
}

#[test]
fn skips_small_tool_results() {
    let mut messages = vec![
        msg("system", "sys"),
        msg("tool", "short result"),
        msg("user", "next"),
    ];
    let result = microcompact(&mut messages, &default_config());
    assert_eq!(result.cleared_count, 0);
    assert_eq!(messages[1].content, "short result");
}

#[test]
fn clears_old_large_tool_result() {
    let large = "x".repeat(1000);
    let mut messages = vec![
        msg("system", "sys"),
        msg("tool", &large), // old, large — should be cleared
        msg("user", "q1"),
        msg("tool", "small1"), // recent — protected
        msg("tool", "small2"),
        msg("tool", "small3"),
        msg("tool", "small4"),
        msg("tool", "small5"),
        msg("tool", "small6"),
    ];
    let result = microcompact(&mut messages, &default_config());
    assert_eq!(result.cleared_count, 1);
    assert!(result.chars_reclaimed > 0);
    assert!(messages[1].content.starts_with("[Tool result cleared"));
    assert!(messages[1].content.contains("1000 chars"));
}

#[test]
fn protects_recent_tool_results() {
    let large = "y".repeat(1000);
    let config = MicrocompactionConfig {
        protect_recent_turns: 2,
        max_result_chars: 100,
        ..default_config()
    };
    let mut messages = vec![
        msg("system", "sys"),
        msg("tool", &large), // old — should be cleared
        msg("user", "q"),
        msg("tool", &large), // 2nd from end — protected
        msg("tool", &large), // 1st from end — protected
    ];
    let result = microcompact(&mut messages, &config);
    assert_eq!(result.cleared_count, 1);
    assert!(messages[1].content.starts_with("[Tool result cleared"));
    assert_eq!(messages[3].content.len(), 1000);
    assert_eq!(messages[4].content.len(), 1000);
}

#[test]
fn idempotent_skips_already_cleared() {
    let mut messages = vec![
        msg("system", "sys"),
        msg(
            "tool",
            "[Tool result cleared \u{2014} was 5000 chars]\npreview...",
        ),
        msg("user", "next"),
    ];
    let result = microcompact(&mut messages, &default_config());
    assert_eq!(result.cleared_count, 0);
}

#[test]
fn preserves_non_tool_messages() {
    let mut messages = vec![
        msg("system", &"s".repeat(2000)),
        msg("user", &"u".repeat(2000)),
        msg("assistant", &"a".repeat(2000)),
    ];
    let original: Vec<String> = messages.iter().map(|m| m.content.clone()).collect();
    microcompact(&mut messages, &default_config());
    for (i, m) in messages.iter().enumerate() {
        assert_eq!(m.content, original[i]);
    }
}

#[test]
fn preview_respects_char_boundary() {
    let content = "\u{1f600}".repeat(200);
    let config = MicrocompactionConfig {
        protect_recent_turns: 0,
        max_result_chars: 100,
        preview_chars: 50,
        ..default_config()
    };
    let mut messages = vec![msg("tool", &content)];
    microcompact(&mut messages, &config);
    assert!(messages[0].content.starts_with("[Tool result cleared"));
}

#[test]
fn few_tool_results_are_all_recent() {
    let mut messages = vec![msg("tool", &"x".repeat(1000)), msg("user", "next")];
    let result = microcompact(&mut messages, &default_config());
    assert_eq!(result.cleared_count, 0);
    assert_eq!(messages[0].content.len(), 1000);
}

#[test]
fn cleared_result_shows_its_length_and_a_preview() {
    let config = MicrocompactionConfig {
        protect_recent_turns: 0,
        max_result_chars: 10,
        preview_chars: 3,
        ..default_config()
    };
    let mut messages = vec![msg("tool", "abcdefghijklmnopqrstuvwxyz".repeat(10).as_str())];
    let result = microcompact(&mut messages, &config);
    assert_eq!(result.cleared_count, 1);
    assert!(messages[0].content.starts_with("[Tool result cleared \u{2014} was 260 chars]\nabc"));
    assert_eq!(result.chars_reclaimed, 260 - messages[0].content.chars().count());
    let once = messages[0].content.clone();
    let again = microcompact(&mut messages, &config);
    assert_eq!(again.cleared_count, 0);
    assert_eq!(messages[0].content, once);
}

#[test]
fn results_are_measured_in_characters() {
    let config = MicrocompactionConfig { protect_recent_turns: 0, ..default_config() };
    let short = "é".repeat(300);
    let long = "é".repeat(600);
    let mut messages = vec![msg("tool", &short), msg("tool", &long)];
    let result = microcompact(&mut messages, &config);
    assert_eq!(result.cleared_count, 1);
    assert_eq!(messages[0].content, short);
    let head = format!("[Tool result cleared \u{2014} was 600 chars]\n{}", "é".repeat(200));
    assert!(messages[1].content.starts_with(&head));
    assert_eq!(messages[1].content.matches('é').count(), 200);
}

#[test]
fn config_defaults() {
    let config = MicrocompactionConfig::default();
    assert!(config.enabled);
    assert_eq!(config.protect_recent_turns, 6);
    assert_eq!(config.max_result_chars, 500);
    assert_eq!(config.preview_chars, 200);
}

// ---- classifier

#[test]
fn disabled_returns_none() {
    let config = make_config(
        false,
        vec![ClassificationRule {
            hint: "fast".into(),
            keywords: vec!["hello".into()],
            ..Default::default()
        }],
    );
    assert_eq!(classify(&config, "hello"), None);
}

#[test]
fn empty_rules_returns_none() {
    let config = make_config(true, vec![]);
    assert_eq!(classify(&config, "hello"), None);
}

#[test]
fn keyword_match_case_insensitive() {
    let config = make_config(
        true,
        vec![ClassificationRule {
            hint: "fast".into(),
            keywords: vec!["hello".into()],
            ..Default::default()
        }],
    );
    assert_eq!(classify(&config, "HELLO world"), Some("fast".into()));
}

#[test]
fn pattern_match_case_sensitive() {
    let config = make_config(
        true,
        vec![ClassificationRule {
            hint: "code".into(),
            patterns: vec!["fn ".into()],
            ..Default::default()
        }],
    );
    assert_eq!(classify(&config, "fn main()"), Some("code".into()));
    assert_eq!(classify(&config, "FN MAIN()"), None);
}

#[test]
fn length_constraints() {
    let config = make_config(
        true,
        vec![ClassificationRule {
            hint: "fast".into(),
            keywords: vec!["hi".into()],
            max_length: Some(10),
            ..Default::default()
        }],
    );
    assert_eq!(classify(&config, "hi"), Some("fast".into()));
    assert_eq!(
        classify(&config, "hi there, how are you doing today?"),
        None
    );

    let config2 = make_config(
        true,
        vec![ClassificationRule {
            hint: "reasoning".into(),
            keywords: vec!["explain".into()],
            min_length: Some(20),
            ..Default::default()
        }],
    );
    assert_eq!(classify(&config2, "explain"), None);
    assert_eq!(
        classify(&config2, "explain how this works in detail"),
        Some("reasoning".into())
    );
}

#[test]
fn priority_ordering() {
    let config = make_config(
        true,
        vec![
            ClassificationRule {
                hint: "fast".into(),
                keywords: vec!["code".into()],
                priority: 1,
                ..Default::default()
            },
            ClassificationRule {
                hint: "code".into(),
                keywords: vec!["code".into()],
                priority: 10,
                ..Default::default()
            },
        ],
    );
    assert_eq!(classify(&config, "write some code"), Some("code".into()));
}

#[test]
fn no_match_returns_none() {
    let config = make_config(
        true,
        vec![ClassificationRule {
            hint: "fast".into(),
            keywords: vec!["hello".into()],
            ..Default::default()
        }],
    );
    assert_eq!(classify(&config, "something completely different"), None);
}

#[test]
fn classify_with_decision_exposes_priority_of_matched_rule() {
    let config = make_config(
        true,
        vec![
            ClassificationRule {
                hint: "fast".into(),
                keywords: vec!["code".into()],
                priority: 3,
                ..Default::default()
            },
            ClassificationRule {
                hint: "code".into(),
                keywords: vec!["code".into()],
                priority: 10,
                ..Default::default()
            },
        ],
    );

    let decision = classify_with_decision(&config, "write code now")
        .expect("classification decision expected");
    assert_eq!(decision.hint, "code");
    assert_eq!(decision.priority, 10);
}

#[test]
fn complexity_simple_question() {
    assert!(estimate_complexity("what is rust?") < 20);
}

#[test]
fn complexity_complex_task() {
    // "refactor" (+10) + "concurrent" (+10) = 20
    // Adding more complex keywords to push over 40
    assert!(
        estimate_complexity(
            "refactor and optimize the authentication system to use async concurrent handlers, debug performance issues, and migrate to the new design"
        ) > 40
    );
}

#[test]
fn complexity_caps_at_100() {
    // Length > 2000 (+30) plus 5 complex keywords (+50) plus code block (+15) = 95
    // Add question marks to push to 100
    let long_complex = format!(
        "refactor architect design debug optimize {}```code```???",
        "x ".repeat(1000)
    );
    assert_eq!(estimate_complexity(&long_complex), 100);
}

#[test]
fn first_rule_wins_among_equal_priorities() {
    let rule = |hint: &str| ClassificationRule {
        hint: hint.into(),
        keywords: vec!["go".into()],
        priority: 4,
        ..Default::default()
    };
    let config = make_config(true, vec![rule("one"), rule("two")]);
    assert_eq!(classify(&config, "go"), Some("one".into()));
}

#[test]
fn keywords_are_lowered_too() {
    let config = make_config(
        true,
        vec![ClassificationRule {
            hint: "loud".into(),
            keywords: vec!["ÄRGER".into()],
            ..Default::default()
        }],
    );
    assert_eq!(classify(&config, "viel ärger"), Some("loud".into()));
}

#[test]
fn decide_takes_the_lowered_texts() {
    let config = make_config(
        true,
        vec![ClassificationRule {
            hint: "h".into(),
            keywords: vec!["KEY".into()],
            ..Default::default()
        }],
    );
    let found = decide(&config, "A KEY", "a key", &vec![vec!["key".to_string()]]).unwrap();
    assert_eq!(found.hint, "h");
    assert!(decide(&config, "A KEY", "a key", &vec![vec!["lock".to_string()]]).is_none());
}

#[test]
fn complexity_adds_up() {
    assert_eq!(complexity_of("", ""), 0);
    assert_eq!(estimate_complexity("refactor this"), complexity_of("refactor this", "refactor this"));
    assert!(estimate_complexity("refactor this") >= 10);
    assert_eq!(estimate_complexity("REFACTOR this"), estimate_complexity("refactor this"));
}

// ---- tool_executor

#[test]
fn only_what_is_worth_it_is_tried_again() {
    let policy = ToolRetryPolicy { max_retries: 1, ..ToolRetryPolicy::default() };
    assert_eq!(decide_next(&policy, 0, true), AfterAttempt::Retry { backoff_ms: 500 });
    assert_eq!(decide_next(&policy, 0, false), AfterAttempt::Return);
    assert_eq!(decide_next(&policy, 1, true), AfterAttempt::Return);
}

#[test]
fn retryable_classification() {
    assert!(!is_retryable(&ToolResult {
        success: true,
        output: "ok".into(),
        error: None,
    }));
    assert!(!is_retryable(&ToolResult {
        success: false,
        output: String::new(),
        error: Some("Path not allowed by security policy".into()),
    }));
    assert!(!is_retryable(&ToolResult {
        success: false,
        output: String::new(),
        error: Some("Action blocked: autonomy is read-only".into()),
    }));
    assert!(is_retryable(&ToolResult {
        success: false,
        output: String::new(),
        error: Some("connection reset by peer".into()),
    }));
    assert!(is_retryable(&ToolResult {
        success: false,
        output: String::new(),
        error: Some("Tool timed out after 60s".into()),
    }));
}

fn drive(executor: &ToolExecutor, name: &str, mut fails: u32) -> (ToolResult, u32, Vec<u64>) {
    let mut attempt: u32 = 0;
    let mut waits: Vec<u64> = Vec::new();
    loop {
        let outcome = if fails > 0 {
            fails -= 1;
            ToolResult {
                success: false,
                output: String::new(),
                error: Some("connection reset".into()),
            }
        } else {
            ToolResult { success: true, output: "ok".into(), error: None }
        };
        let (result, next) = executor.settle(name, attempt, Attempt::Finished(outcome));
        match next {
            AfterAttempt::Return => return (result, attempt + 1, waits),
            AfterAttempt::Retry { backoff_ms } => {
                waits.push(backoff_ms);
                attempt += 1;
            }
        }
    }
}

#[test]
fn no_retry_for_default_tools() {
    let executor = ToolExecutor::new();
    let (result, attempts, _) = drive(&executor, "shell", 3);
    assert!(!result.success);
    assert_eq!(attempts, 1);
}

#[test]
fn retries_read_tools() {
    let executor = ToolExecutor::new();
    let (result, _, _) = drive(&executor, "file_read", 1);
    assert!(result.success, "should succeed after retry");
}

#[test]
fn retries_network_tools() {
    let executor = ToolExecutor::new();
    let (result, _, waits) = drive(&executor, "web_fetch", 2);
    assert!(result.success, "should succeed after 2 retries");
    assert_eq!(waits.len(), 2);
    assert!(waits[0] <= waits[1]);
}

#[test]
fn no_retry_on_security_error() {
    let executor = ToolExecutor::new();
    let denied = ToolResult {
        success: false,
        output: String::new(),
        error: Some("Path not allowed by security policy".into()),
    };
    let (result, next) = executor.settle("web_fetch", 0, Attempt::Finished(denied));
    assert!(matches!(next, AfterAttempt::Return));
    assert!(!result.success);
    assert!(result.error.unwrap().contains("security policy"));
}

#[test]
fn exhausts_retries_then_returns_last_error() {
    let executor = ToolExecutor::new();
    let (result, attempts, _) = drive(&executor, "web_fetch", 5);
    assert!(!result.success);
    assert!(result.error.unwrap().contains("connection reset"));
    assert_eq!(attempts, executor.policy_for("web_fetch").max_retries + 1);
}

#[test]
fn failed_and_timed_out_attempts_become_results() {
    let executor = ToolExecutor::new();
    let (failed, _) = executor.settle("shell", 0, Attempt::Failed("boom".to_string()));
    assert!(!failed.success);
    assert!(failed.error.unwrap().contains("boom"));
    let (late, _) = executor.settle("shell", 0, Attempt::TimedOut);
    assert!(!late.success);
    assert!(late.error.unwrap().contains("timed out"));
}

#[test]
fn backoff_doubles_up_to_the_cap() {
    let policy = ToolRetryPolicy { max_retries: 9, backoff_base_ms: 100, backoff_max_ms: 1000 };
    assert_eq!(backoff_ms(&policy, 0), 100);
    assert_eq!(backoff_ms(&policy, 1), 200);
    assert_eq!(backoff_ms(&policy, 3), 800);
    assert_eq!(backoff_ms(&policy, 4), 1000);
    assert_eq!(backoff_ms(&policy, 63), 1000);
}

#[test]
fn final_errors_are_recognized_in_lower_case() {
    assert!(says_final("path not allowed by security policy"));
    assert!(!says_final("connection reset by peer"));
}

// ---- session_state

#[test]
fn initial_state_is_idle() {
    let tracker = SessionStateTracker::new();
    assert_eq!(tracker.metadata().status, SessionStatus::Idle);
}

#[test]
fn transition_to_running() {
    let mut tracker = SessionStateTracker::new();
    tracker.set_running("anthropic", "sonnet");
    let meta = tracker.metadata();
    assert_eq!(meta.status, SessionStatus::Running);
    assert_eq!(meta.provider.as_deref(), Some("anthropic"));
}

#[test]
fn tool_running_tracked() {
    let mut tracker = SessionStateTracker::new();
    tracker.set_running("anthropic", "sonnet");
    tracker.set_tool_running("file_read");
    assert_eq!(
        tracker.metadata().current_tool.as_deref(),
        Some("file_read")
    );
}

#[test]
fn idle_increments_turn_count() {
    let mut tracker = SessionStateTracker::new();
    tracker.set_running("a", "b");
    tracker.set_idle();
    tracker.set_running("a", "b");
    tracker.set_idle();
    assert_eq!(tracker.metadata().turn_count, 2);
}

#[test]
fn token_tracking() {
    let mut tracker = SessionStateTracker::new();
    tracker.add_tokens(1000, 500);
    tracker.add_tokens(2000, 800);
    let meta = tracker.metadata();
    assert_eq!(meta.total_input_tokens, 3000);
    assert_eq!(meta.total_output_tokens, 1300);
}

#[test]
fn requires_action_state() {
    let mut tracker = SessionStateTracker::new();
    tracker.set_requires_action(RequiresActionDetails {
        tool_name: Some("shell".into()),
        action_description: "Approve command execution".into(),
    });
    let meta = tracker.metadata();
    assert_eq!(meta.status, SessionStatus::RequiresAction);
    assert!(meta.requires_action.is_some());
}

#[test]
fn error_and_completion_are_tracked() {
    let mut tracker = SessionStateTracker::new();
    tracker.set_error("lost");
    let meta = tracker.metadata_at(7);
    assert_eq!(meta.status, SessionStatus::Error);
    assert_eq!(meta.last_error.as_deref(), Some("lost"));
    assert_eq!(meta.elapsed_secs, 7);
    tracker.set_completed();
    assert_eq!(tracker.metadata().status, SessionStatus::Completed);
}

// ---- tool_result_truncate

#[test]
fn short_content_passes_through_verbatim() {
    let r = format_tool_output("hello world", true);
    assert_eq!(r, "hello world");
}

#[test]
fn short_error_passes_through_verbatim() {
    let r = format_tool_output("ENOENT: no such file", false);
    assert_eq!(r, "ENOENT: no such file");
}

#[test]
fn long_error_truncates_from_head_and_preserves_tail() {
    let head = "LEADING_NOISE\n".repeat(4000);
    let tail = "REAL_ERROR_AT_TAIL";
    let input = format!("{head}{tail}");
    let r = format_tool_output(&input, false);
    assert!(
        r.ends_with(tail),
        "tail must be preserved; got last 64 chars: {:?}",
        &r[r.len().saturating_sub(64)..]
    );
    assert!(
        r.contains("omitted from head"),
        "must announce head truncation; got prefix: {:?}",
        &r[..r.len().min(64)]
    );
    assert!(r.len() <= MAX_TOOL_OUTPUT_BYTES + 128);
}

#[test]
fn exactly_max_is_not_truncated() {
    let s = "a".repeat(MAX_TOOL_OUTPUT_BYTES);
    let r = format_tool_output(&s, true);
    assert_eq!(r.len(), MAX_TOOL_OUTPUT_BYTES);
    assert!(!r.contains("omitted from head"));
}

#[test]
fn multibyte_safe_at_cut_point() {
    let head = "é".repeat(20_000);
    let tail = "TAIL";
    let input = format!("{head}{tail}");
    let r = format_tool_output(&input, false);
    assert!(r.ends_with(tail));
    assert!(r.len() <= MAX_TOOL_OUTPUT_BYTES + 128);
}

// ---- checkpoint

#[test]
fn save_and_load_checkpoint() {
    let mut store = InMemoryCheckpointStore::new();
    let cp = create_checkpoint("s1", Some("step-1"), &sample_history(), None);
    let id = store.save(&cp);

    let loaded = store
        .load(&id)
        .expect("checkpoint should exist");
    assert_eq!(loaded.id, cp.id);
    assert_eq!(loaded.session_id, "s1");
    assert_eq!(loaded.label.as_deref(), Some("step-1"));
    assert_eq!(loaded.history.len(), 2);
    assert_eq!(loaded.turn_count, 2);
}

#[test]
fn list_checkpoints_ordered_newest_first() {
    let mut store = InMemoryCheckpointStore::new();

    let mut cp1 = create_checkpoint("s1", Some("first"), &sample_history(), None);
    cp1.created_at = "2025-01-01T00:00:00+00:00".to_string();
    store.save(&cp1);

    let mut cp2 = create_checkpoint("s1", Some("second"), &sample_history(), None);
    cp2.created_at = "2025-01-02T00:00:00+00:00".to_string();
    store.save(&cp2);

    let list = store.list("s1");
    assert_eq!(list.len(), 2);
    assert_eq!(list[0].label.as_deref(), Some("second"));
    assert_eq!(list[1].label.as_deref(), Some("first"));
}

#[test]
fn delete_checkpoint() {
    let mut store = InMemoryCheckpointStore::new();
    let cp = create_checkpoint("s1", None, &sample_history(), None);
    let id = store.save(&cp);

    assert!(store.delete(&id));
    assert!(store.load(&id).is_none());
}

#[test]
fn clear_session_removes_all() {
    let mut store = InMemoryCheckpointStore::new();
    for i in 0..5 {
        let cp = create_checkpoint("s1", Some(&format!("cp-{i}")), &sample_history(), None);
        store.save(&cp);
    }
    let cp_s2 = create_checkpoint("s2", Some("other"), &sample_history(), None);
    store.save(&cp_s2);

    let removed = store.clear_session("s1");
    assert_eq!(removed, 5);
    assert!(store.list("s1").is_empty());
    assert_eq!(store.list("s2").len(), 1);
}

#[test]
fn delete_nonexistent_returns_false() {
    let mut store = InMemoryCheckpointStore::new();
    assert!(!store.delete("nonexistent"));
}

#[test]
fn new_checkpoints_have_random_ids_and_utc_times() {
    let a = create_checkpoint("s", None, &sample_history(), None);
    let b = create_checkpoint("s", None, &sample_history(), None);
    assert_ne!(a.id, b.id);
    assert_eq!(a.id.len(), 36);
    assert_eq!(a.id.as_bytes()[14], b'4');
    assert!(a.created_at.ends_with("+00:00"));
}

#[test]
fn saving_under_a_known_id_replaces() {
    let mut store = InMemoryCheckpointStore::new();
    let first = checkpoint_with("id".into(), "t1".into(), "s", Some("a"), &sample_history(), None);
    let second = checkpoint_with("id".into(), "t2".into(), "s", Some("b"), &[], None);
    store.save(&first);
    store.save(&second);
    assert_eq!(store.list("s").len(), 1);
    let held = store.load("id").unwrap();
    assert_eq!(held.label.as_deref(), Some("b"));
    assert_eq!(held.turn_count, 0);
}

fn same(a: &Checkpoint, b: &Checkpoint) -> bool {
    a.id == b.id
        && a.session_id == b.session_id
        && a.label == b.label
        && a.turn_count == b.turn_count
        && a.created_at == b.created_at
        && a.metadata == b.metadata
        && a.history.len() == b.history.len()
}

#[test]
fn a_row_gives_the_checkpoint_back() {
    let metadata = json::parse(r#"{"step": 3, "approved": true, "path": ["a", -1, null]}"#);
    let cp = create_checkpoint("s1", Some("label-a"), &sample_history(), metadata);
    let row = to_row(&cp);
    assert_eq!(row.metadata.as_deref(), Some(r#"{"approved":true,"path":["a",-1,null],"step":3}"#));
    let back = from_row(row, sample_history()).unwrap();
    assert!(same(&back, &cp));
    let plain = create_checkpoint("s1", None, &sample_history(), None);
    assert!(same(&from_row(to_row(&plain), sample_history()).unwrap(), &plain));
}

#[test]
fn metadata_with_fractions_come_back_too() {
    let metadata = json::parse(r#"{"score": 0.25, "deep": [[1.5]]}"#);
    assert!(metadata.is_some());
    let cp = create_checkpoint("s1", None, &sample_history(), metadata);
    let back = from_row(to_row(&cp), sample_history()).unwrap();
    assert!(same(&back, &cp));
}

#[test]
fn a_checkpoint_survives_what_happens_to_others() {
    let mut store = InMemoryCheckpointStore::new();
    let kept = create_checkpoint("s1", Some("kept"), &sample_history(), None);
    let beside = create_checkpoint("s1", Some("beside"), &[], None);
    let other = create_checkpoint("s2", Some("other"), &[], None);
    store.save(&kept);
    store.save(&beside);
    store.save(&other);
    assert!(store.delete(&beside.id));
    assert_eq!(store.clear_session("s2"), 1);
    assert!(same(&store.load(&kept.id).unwrap(), &kept));
    assert!(store.load(&beside.id).is_none());
    assert!(store.load("never saved").is_none());
}

#[test]
fn a_row_with_broken_metadata_is_refused() {
    let cp = create_checkpoint("s1", None, &[], Some(Json::Bool(true)));
    let mut row = to_row(&cp);
    row.metadata = Some("{".to_string());
    assert!(from_row(row, vec![]).is_none());
}

// ---- eval_suite

#[test]
fn canonical_tasks_cover_all_four_categories() {
    let tasks = canonical_tasks();
    for cat in [
        Category::DiligenceAfterFailure,
        Category::MultiStepChaining,
        Category::WrongToolRecovery,
        Category::LongContextRetention,
    ] {
        let n = tasks.iter().filter(|t| t.category == cat).count();
        assert!(n >= 1, "category {cat:?} has {n} tasks; require >=1 in v1");
    }
    assert!(tasks.len() >= 4, "v1 suite must have >=4 tasks total");
}

#[test]
fn pass_rate_and_median_tokens_zero_on_empty_suite() {
    let s = EvalSummary { results: vec![] };
    let rate = s.pass_rate("minimal");
    let value = if rate.total == 0 { 0.0 } else { rate.passed as f64 / rate.total as f64 };
    assert_eq!(value, 0.0);
    assert_eq!(s.median_tokens("minimal"), 0);
}

fn eval_result(core: &str, passed: bool, tokens_used: u64) -> EvalResult {
    EvalResult {
        task_id: "t",
        category: Category::MultiStepChaining,
        core: core.to_string(),
        passed,
        iterations_used: 0,
        tokens_used,
    }
}

#[test]
fn rate_and_median_count_one_core_only() {
    let s = EvalSummary {
        results: vec![
            eval_result("minimal", true, 30),
            eval_result("other", false, 1),
            eval_result("minimal", false, 10),
            eval_result("minimal", true, 20),
            eval_result("minimal", true, 40),
        ],
    };
    let rate = s.pass_rate("minimal");
    assert_eq!((rate.passed, rate.total), (3, 4));
    assert_eq!(s.median_tokens("minimal"), 30);
    assert_eq!(s.median_tokens("other"), 1);
}

#[test]
fn every_canonical_task_passes_on_its_last_text() {
    for task in canonical_tasks() {
        let last = task.scripted_responses.last().unwrap().text.clone().unwrap();
        assert!(result_of(&task, "minimal", Some(&last)).passed, "{}", task.id);
        assert!(!result_of(&task, "minimal", Some("")).passed);
        assert!(!result_of(&task, "minimal", None).passed);
        assert_eq!(result_of(&task, "minimal", None).core, "minimal");
    }
}

#[test]
fn oracles_look_for_their_words() {
    assert!(Oracle::Contains("teal").holds("it is teal.", 1));
    assert!(!Oracle::Contains("teal").holds("it is blue.", 1));
    assert!(Oracle::HasDigit.holds("all 4", 0));
    assert!(!Oracle::HasDigit.holds("all four", 0));
}
