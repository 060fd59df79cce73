use std::collections::HashSet;
use zeroclaw::json;
use zeroclaw::json::Json;
use zeroclaw::tools::mcp_client::{
    accept_initialize, accept_tools_list, initialize_request, tools_list_request, CircuitBreaker,
    Exchange, McpRegistry, McpServer,
};
use zeroclaw::tools::mcp_protocol::{JsonRpcError, JsonRpcResponse, McpToolDef};
use zeroclaw::tools::output_formatter::{
    is_json_like, safe_char_boundary, truncate_json, truncate_lines, truncate_output,
    MAX_OUTPUT_CHARS,
};
use zeroclaw::tools::task_planner::{PlanExecution, SubTask, TaskPlan};

fn sub(id: &str, deps: &[&str], agent: &str, priority: i32) -> SubTask {
    SubTask {
        id: id.to_string(),
        description: format!("{} task", id),
        agent: agent.to_string(),
        prompt: format!("Do {}", id),
        depends_on: deps.iter().map(|d| d.to_string()).collect(),
        priority,
    }
}

// ---- task_planner

#[test]
fn valid_linear_plan() {
    let plan = TaskPlan {
        goal: "linear".into(),
        tasks: vec![
            sub("a", &[], "agent1", 0),
            sub("b", &["a"], "agent1", 0),
            sub("c", &["b"], "agent1", 0),
        ],
    };
    assert!(plan.validate().is_ok());
}

#[test]
fn valid_parallel_plan() {
    let plan = TaskPlan {
        goal: "parallel".into(),
        tasks: vec![
            sub("a", &[], "agent1", 0),
            sub("b", &[], "agent2", 0),
            sub("c", &["a", "b"], "agent3", 0),
        ],
    };
    assert!(plan.validate().is_ok());
    let batches = plan.execution_batches().unwrap();
    assert_eq!(batches.len(), 2);
    let first_ids: HashSet<&str> = batches[0].iter().map(|t| t.id.as_str()).collect();
    assert!(first_ids.contains("a"));
    assert!(first_ids.contains("b"));
    assert_eq!(batches[1].len(), 1);
    assert_eq!(batches[1][0].id, "c");
}

#[test]
fn rejects_cycle() {
    let plan = TaskPlan {
        goal: "cyclic".into(),
        tasks: vec![sub("a", &["b"], "x", 0), sub("b", &["a"], "x", 0)],
    };
    let err = plan.validate().unwrap_err();
    assert!(err.contains("cycle"), "expected cycle error, got: {err}");
}

#[test]
fn rejects_missing_dep() {
    let plan = TaskPlan {
        goal: "missing".into(),
        tasks: vec![sub("a", &["nonexistent"], "x", 0)],
    };
    let err = plan.validate().unwrap_err();
    assert!(err.contains("non-existent"), "got: {err}");
}

#[test]
fn rejects_self_dep() {
    let plan = TaskPlan {
        goal: "self".into(),
        tasks: vec![sub("a", &["a"], "x", 0)],
    };
    let err = plan.validate().unwrap_err();
    assert!(err.contains("itself"), "got: {err}");
}

#[test]
fn rejects_empty_plan() {
    let plan = TaskPlan {
        goal: "empty".into(),
        tasks: vec![],
    };
    let err = plan.validate().unwrap_err();
    assert!(err.contains("no tasks"), "got: {err}");
}

#[test]
fn ready_tasks_respects_completed() {
    let plan = TaskPlan {
        goal: "ready".into(),
        tasks: vec![
            sub("a", &[], "x", 0),
            sub("b", &["a"], "x", 0),
            sub("c", &["b"], "x", 0),
        ],
    };

    // Initially only "a" is ready.
    let ready = plan.ready_tasks(&[]);
    assert_eq!(ready.len(), 1);
    assert_eq!(ready[0].id, "a");

    // After "a" completes, "b" is ready.
    let ready = plan.ready_tasks(&["a".into()]);
    assert_eq!(ready.len(), 1);
    assert_eq!(ready[0].id, "b");

    // After "a" and "b" complete, "c" is ready.
    let ready = plan.ready_tasks(&["a".into(), "b".into()]);
    assert_eq!(ready.len(), 1);
    assert_eq!(ready[0].id, "c");
}

#[test]
fn topological_order_correct() {
    let plan = TaskPlan {
        goal: "topo".into(),
        tasks: vec![
            sub("c", &["b"], "x", 0),
            sub("a", &[], "x", 0),
            sub("b", &["a"], "x", 0),
        ],
    };
    let order = plan.topological_order().unwrap();
    let ids: Vec<&str> = order.iter().map(|t| t.id.as_str()).collect();

    // "a" must precede "b", "b" must precede "c"
    let pos_a = ids.iter().position(|&id| id == "a").unwrap();
    let pos_b = ids.iter().position(|&id| id == "b").unwrap();
    let pos_c = ids.iter().position(|&id| id == "c").unwrap();
    assert!(pos_a < pos_b);
    assert!(pos_b < pos_c);
}

#[test]
fn execution_batches_naseyma_workflow() {
    // Simulates 7-agent Naseyma workflow:
    // brief -> research -> [pitch, strategy] -> design -> content -> qa
    let plan = TaskPlan {
        goal: "naseyma website generation".into(),
        tasks: vec![
            sub("brief", &[], "brief_agent", 0),
            sub("research", &["brief"], "research_agent", 0),
            sub("pitch", &["research"], "pitch_agent", 0),
            sub("strategy", &["research"], "strategy_agent", 0),
            sub("design", &["pitch", "strategy"], "design_agent", 0),
            sub("content", &["design"], "content_agent", 0),
            sub("qa", &["content"], "qa_agent", 0),
        ],
    };

    assert!(plan.validate().is_ok());
    let batches = plan.execution_batches().unwrap();

    // Expected batches:
    // 1: [brief]
    // 2: [research]
    // 3: [pitch, strategy]  (parallel)
    // 4: [design]
    // 5: [content]
    // 6: [qa]
    assert_eq!(batches.len(), 6);

    let batch_ids: Vec<Vec<&str>> = batches
        .iter()
        .map(|b| b.iter().map(|t| t.id.as_str()).collect())
        .collect();

    assert_eq!(batch_ids[0], vec!["brief"]);
    assert_eq!(batch_ids[1], vec!["research"]);
    let mut b2 = batch_ids[2].clone();
    b2.sort();
    assert_eq!(b2, vec!["pitch", "strategy"]);
    assert_eq!(batch_ids[3], vec!["design"]);
    assert_eq!(batch_ids[4], vec!["content"]);
    assert_eq!(batch_ids[5], vec!["qa"]);
}

#[test]
fn plan_execution_lifecycle() {
    let plan = TaskPlan {
        goal: "lifecycle".into(),
        tasks: vec![
            sub("a", &[], "x", 0),
            sub("b", &["a"], "x", 0),
            sub("c", &["b"], "x", 0),
        ],
    };
    let mut exec = PlanExecution::new(plan);

    assert!(!exec.is_finished());
    assert!(!exec.is_success());

    exec.complete("a", "result_a".into());
    assert!(!exec.is_finished());

    exec.complete("b", "result_b".into());
    assert!(!exec.is_finished());

    exec.complete("c", "result_c".into());
    assert!(exec.is_finished());
    assert!(exec.is_success());
}

#[test]
fn enriched_prompt_includes_dependency_results() {
    let plan = TaskPlan {
        goal: "enrich".into(),
        tasks: vec![
            sub("a", &[], "x", 0),
            sub("b", &[], "x", 0),
            sub("c", &["a", "b"], "x", 0),
        ],
    };
    let mut exec = PlanExecution::new(plan);
    exec.complete("a", "output_a".into());
    exec.complete("b", "output_b".into());

    let task_c = &exec.plan.tasks[2];
    let prompt = exec.enriched_prompt(task_c);

    assert!(prompt.contains("output_a"), "missing dep a result");
    assert!(prompt.contains("output_b"), "missing dep b result");
    assert!(prompt.contains("Do c"), "missing original prompt");
}

#[test]
fn failed_task_blocks_dependents() {
    let plan = TaskPlan {
        goal: "failure".into(),
        tasks: vec![
            sub("a", &[], "x", 0),
            sub("b", &["a"], "x", 0),
            sub("c", &["b"], "x", 0),
        ],
    };
    let mut exec = PlanExecution::new(plan);

    // "a" is ready initially.
    let ready = exec.ready_tasks();
    assert_eq!(ready.len(), 1);
    assert_eq!(ready[0].id, "a");

    // Fail "a" — "b" should NOT become ready.
    exec.fail("a", "boom".into());
    let ready = exec.ready_tasks();
    assert!(ready.is_empty(), "b should be blocked by failed a");

    // The plan is not finished because "b" and "c" never ran.
    assert!(!exec.is_finished());
    assert!(!exec.is_success());
}

#[test]
fn priority_orders_tasks_that_are_ready_together() {
    let plan = TaskPlan {
        goal: "order".into(),
        tasks: vec![
            sub("low", &[], "x", 5),
            sub("high", &[], "x", 1),
            sub("last", &["low", "high"], "x", 0),
        ],
    };
    let batches = plan.execution_batches().unwrap();
    let ids: Vec<Vec<&str>> =
        batches.iter().map(|b| b.iter().map(|t| t.id.as_str()).collect()).collect();
    assert_eq!(ids, vec![vec!["high", "low"], vec!["last"]]);
    let order = plan.topological_order().unwrap();
    let ids: Vec<&str> = order.iter().map(|t| t.id.as_str()).collect();
    assert_eq!(ids, vec!["low", "high", "last"]);
}

#[test]
fn success_needs_every_task_not_as_many_completions() {
    let plan = TaskPlan {
        goal: "twice".into(),
        tasks: vec![sub("a", &[], "x", 0), sub("b", &[], "x", 0)],
    };
    let mut exec = PlanExecution::new(plan);
    exec.complete("a", "one".into());
    exec.complete("a", "two".into());
    assert!(!exec.is_success());
    exec.complete("b", "three".into());
    assert!(exec.is_success());
    exec.fail("b", "late".into());
    assert!(!exec.is_success());
}

#[test]
fn a_cycle_has_no_order() {
    let plan = TaskPlan {
        goal: "cyclic".into(),
        tasks: vec![sub("a", &["b"], "x", 0), sub("b", &["a"], "x", 0)],
    };
    assert!(plan.topological_order().is_none());
    assert!(plan.execution_batches().is_none());
}

// ---- output_formatter

#[test]
fn small_output_unchanged() {
    let output = "hello world";
    assert_eq!(truncate_output(output, "test"), output);
}

#[test]
fn large_output_truncated() {
    let output = "line\n".repeat(10_000); // way over limit when chars > MAX_OUTPUT_CHARS
    // Force truncation by using a smaller threshold for testing
    // Since we can't easily change the const, just verify the function exists
    // and handles the logic correctly
    assert!(output.len() < MAX_OUTPUT_CHARS || truncate_output(&output, "test").len() < output.len());
}

#[test]
fn json_detection() {
    assert!(is_json_like(r#"{"key": "value"}"#));
    assert!(is_json_like(r#"[1, 2, 3]"#));
    assert!(!is_json_like("just text"));
    assert!(is_json_like("  { \"padded\": true }  "));
}

#[test]
fn line_truncation_preserves_head_tail() {
    let lines: Vec<String> = (0..200).map(|i| format!("line {i}")).collect();
    let output = lines.join("\n");
    // This is under MAX_OUTPUT_CHARS so won't trigger, but test the function directly
    let result = truncate_lines(&output);
    assert!(result.contains("line 0"));
    assert!(result.contains("line 199"));
    assert!(result.contains("omitted"));
}

#[test]
fn safe_char_boundary_handles_multibyte() {
    let s = "hello 🌍 world";
    let boundary = safe_char_boundary(s, 7); // might be mid-emoji
    assert!(s.is_char_boundary(boundary));
}

#[test]
fn long_json_keeps_its_ends() {
    let output = format!("[{}]", "1,".repeat(80_000));
    let cut = truncate_output(&output, "t");
    assert!(cut.len() < output.len());
    assert!(cut.starts_with("[1,1,"));
    assert!(cut.ends_with("1,]"));
    assert_eq!(cut, truncate_json(&output));
}

#[test]
fn output_is_measured_in_characters() {
    let output = "é".repeat(60_000);
    assert_eq!(truncate_output(&output, "t"), output);
    let longer = "é".repeat(100_001);
    let cut = truncate_output(&longer, "t");
    assert!(cut.chars().count() < cut.len());
    assert_ne!(cut, longer);
}

#[test]
fn boundary_moves_back_to_a_character() {
    assert_eq!(safe_char_boundary("hello 🌍 world", 7), 6);
    assert_eq!(safe_char_boundary("abc", 10), 3);
}

// ---- mcp_client

#[test]
fn tool_name_prefix_format() {
    let prefixed = format!("{}__{}", "filesystem", "read_file");
    assert_eq!(prefixed, "filesystem__read_file");
}

#[test]
fn circuit_breaker_stays_closed_under_threshold() {
    let mut cb = CircuitBreaker::new(3, 30_000);
    cb.record_failure();
    cb.record_failure();
    assert!(!cb.is_open());
}

#[test]
fn circuit_breaker_opens_at_threshold() {
    let mut cb = CircuitBreaker::new(3, 60_000); // long backoff so it stays open
    cb.record_failure();
    cb.record_failure();
    cb.record_failure();
    assert!(cb.is_open());
}

#[test]
fn circuit_breaker_resets_on_success() {
    let mut cb = CircuitBreaker::new(3, 60_000);
    cb.record_failure();
    cb.record_failure();
    cb.record_success();
    assert_eq!(cb.failure_count(), 0);
    cb.record_failure();
    cb.record_failure();
    cb.record_failure();
    // Now it should be open
    assert!(cb.is_open());
}

#[test]
fn circuit_breaker_default_values() {
    let cb = CircuitBreaker::default();
    assert_eq!(cb.failure_threshold, 3);
    assert_eq!(cb.backoff_ms, 30_000);
    assert_eq!(cb.failure_count(), 0);
    assert!(!cb.is_open());
}

#[test]
fn circuit_breaker_closes_after_backoff() {
    let mut cb = CircuitBreaker::new(3, 1);
    cb.record_failure_at(1_000);
    cb.record_failure_at(1_000);
    cb.record_failure_at(1_000);
    assert!(cb.is_open_at(1_000));
    assert!(!cb.is_open_at(1_010)); // backoff elapsed
}

#[test]
fn empty_registry_is_empty() {
    let registry = McpRegistry::new();
    assert!(registry.is_empty());
    assert_eq!(registry.server_count(), 0);
    assert_eq!(registry.tool_count(), 0);
}

#[test]
fn empty_registry_tool_names_is_empty() {
    let registry = McpRegistry::new();
    assert!(registry.tool_names().is_empty());
}

#[test]
fn empty_registry_get_tool_def_returns_none() {
    let registry = McpRegistry::new();
    let result = registry.get_tool_def("nonexistent__tool");
    assert!(result.is_none());
}

#[test]
fn empty_registry_call_tool_unknown_name_returns_error() {
    let registry = McpRegistry::new();
    let err = registry
        .resolve("nonexistent__tool")
        .expect_err("should fail for unknown tool");
    assert!(err.to_string().contains("unknown MCP tool"), "got: {err}");
}

fn tool(name: &str) -> McpToolDef {
    McpToolDef { name: name.to_string(), description: None, input_schema: Json::Null }
}

fn server(name: &str, tools: Vec<McpToolDef>) -> McpServer {
    McpServer::connected(name.to_string(), None, tools)
}

fn answer(result: Option<Json>, error: Option<JsonRpcError>) -> Exchange {
    Exchange::Answer(JsonRpcResponse { jsonrpc: "2.0".to_string(), id: None, result, error })
}

#[test]
fn tools_of_two_servers_are_kept_apart() {
    let mut registry = McpRegistry::new();
    registry.add(server("fs", vec![tool("read"), tool("write")]));
    registry.add(server("web", vec![tool("read")]));
    assert_eq!(registry.server_count(), 2);
    assert_eq!(registry.tool_count(), 3);
    let mut names = registry.tool_names();
    names.sort();
    assert_eq!(names, vec!["fs__read", "fs__write", "web__read"]);
    let (at, inner) = registry.resolve("web__read").unwrap();
    assert_eq!((at, inner.as_str()), (1, "read"));
    assert_eq!(registry.get_tool_def("fs__write").unwrap().name, "write");
    assert_eq!(registry.server_mut(1).unwrap().name, "web");
    assert!(registry.server_mut(2).is_none());
}

#[test]
fn requests_of_the_handshake() {
    let open = initialize_request();
    assert_eq!(open.method, "initialize");
    assert_eq!(open.id, Some(Json::UInt(1)));
    assert_eq!(open.params.unwrap().text_at("protocolVersion"), Some("2024-11-05"));
    assert_eq!(tools_list_request().method, "tools/list");
    let ready = accept_initialize("fs", &answer(Some(json::object0()), None), "").unwrap();
    assert_eq!(ready.method, "notifications/initialized");
    assert!(ready.id.is_none());
}

#[test]
fn handshake_failures_name_the_server() {
    let refusal = JsonRpcError { code: -1, message: "no".to_string(), data: None };
    assert!(accept_initialize("fs", &answer(None, Some(refusal)), "no").is_err());
    let late = accept_initialize("fs", &Exchange::TimedOut, "").err().unwrap();
    assert!(late.contains("fs"), "got: {late}");
    let lost = accept_tools_list("fs", Exchange::Failed("gone".to_string())).err().unwrap();
    assert_eq!(lost, "gone");
    let none = accept_tools_list("fs", answer(None, None)).err().unwrap();
    assert!(none.contains("fs"), "got: {none}");
}

#[test]
fn calls_are_numbered_and_stopped_by_an_open_circuit() {
    let mut s = server("fs", vec![tool("read")]);
    let first = s.begin_call("read", &json::object0()).unwrap();
    let second = s.begin_call("read", &json::object0()).unwrap();
    assert_ne!(first.id, second.id);
    assert_eq!(first.params.unwrap().text_at("name"), Some("read"));
    for _ in 0..3 {
        assert!(s.finish_call("read", Exchange::Failed("reset".to_string())).is_err());
    }
    let refused = s.begin_call("read", &json::object0()).err().unwrap();
    assert!(refused.contains("circuit"), "got: {refused}");
    assert!(s.begin_call_given(false, "read", &json::object0()).is_ok());
    let done = s.finish_call_at("read", answer(Some(json::string("x")), None), 5).unwrap();
    assert_eq!(done.as_text(), Some("x"));
    assert_eq!(s.circuit_breaker.failure_count(), 0);
}

#[test]
fn timeouts_open_the_circuit() {
    let mut s = McpServer::connected("fs".into(), Some(20), vec![tool("read")]);
    for i in 0..3 {
        assert_eq!(s.circuit_breaker.failure_count(), i);
        let late = s.finish_call_at("read", Exchange::TimedOut, 5).unwrap_err();
        assert_eq!(late, "MCP server `fs` timed out after 20s during tool call `read`");
    }
    assert!(s.circuit_breaker.is_open_at(6));
}

#[test]
fn results_are_shown_as_pretty_json() {
    let shown = McpRegistry::shown_result(&json::object1("a", Json::UInt(1)));
    assert_eq!(shown, "{\n  \"a\": 1\n}");
}

#[test]
fn the_timeout_of_a_tool_is_capped() {
    assert_eq!(server("a", vec![]).tool_timeout(), 180);
    assert_eq!(McpServer::connected("a".into(), Some(20), vec![]).tool_timeout(), 20);
    assert_eq!(McpServer::connected("a".into(), Some(9_999), vec![]).tool_timeout(), 600);
}

#[test]
fn few_lines_are_cut_by_length() {
    assert_eq!(MAX_OUTPUT_CHARS, 100_000);
    assert_eq!(
        truncate_lines("a\nb"),
        "a\nb\n\n... [output truncated — showing first and last lines] ...\n\na\nb"
    );
}
