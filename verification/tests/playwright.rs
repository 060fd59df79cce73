use zeroclaw::json;
use zeroclaw::json::Json;
use zeroclaw::tools::browser::BrowserAction;
use zeroclaw::tools::playwright_mcp::{
    action_to_mcp_tool, exhausted, extract_page_url_from_result, file_name, is_replayable_tool_call,
    js_string, parse_sse_json, pending_call, retry_delay_ms, snapshot_ref, text_selector, Answer,
    PlaywrightMcpClient, Step, TabIdAllocator,
};

fn json(s: &str) -> Json {
    json::parse(s).expect("JSON")
}

#[test]
fn tab_id_first_acquire_returns_one() {
    let mut alloc = TabIdAllocator::new();
    assert_eq!(alloc.acquire(), 1);
}

#[test]
fn tab_id_second_acquire_returns_two() {
    let mut alloc = TabIdAllocator::new();
    alloc.acquire();
    assert_eq!(alloc.acquire(), 2);
}

#[test]
fn tab_id_released_id_is_reused() {
    let mut alloc = TabIdAllocator::new();
    let id = alloc.acquire();
    alloc.release(id);
    assert_eq!(alloc.acquire(), id);
}

#[test]
fn open_maps_to_browser_navigate() {
    let (tool, args) = action_to_mcp_tool(BrowserAction::Open { url: "https://x.com".into() }).unwrap();
    assert_eq!(tool, "browser_navigate");
    assert_eq!(args.text_at("url"), Some("https://x.com"));
}

#[test]
fn click_maps_to_browser_click() {
    let (tool, args) = action_to_mcp_tool(BrowserAction::Click { selector: "@e12".into() }).unwrap();
    assert_eq!(tool, "browser_click");
    assert_eq!(args.text_at("ref"), Some("e12"));
}

#[test]
fn fill_maps_to_browser_fill_form_with_value() {
    let (tool, args) = action_to_mcp_tool(BrowserAction::Fill { selector: "@e30".into(), value: "hello".into() }).unwrap();
    assert_eq!(tool, "browser_evaluate");
    assert_eq!(args.text_at("ref"), Some("e30"));
    assert!(args.text_at("function").unwrap().contains("hello"));
}

#[test]
fn type_maps_to_browser_type() {
    let (tool, args) = action_to_mcp_tool(BrowserAction::Type { selector: "@e34".into(), text: "world".into() }).unwrap();
    assert_eq!(tool, "browser_type");
    assert_eq!(args.text_at("ref"), Some("e34"));
    assert_eq!(args.text_at("text"), Some("world"));
}

#[test]
fn press_maps_to_browser_press_key() {
    let (tool, args) = action_to_mcp_tool(BrowserAction::Press { key: "Enter".into() }).unwrap();
    assert_eq!(tool, "browser_press_key");
    assert_eq!(args.text_at("key"), Some("Enter"));
}

#[test]
fn screenshot_maps_to_browser_take_screenshot() {
    let (tool, _) = action_to_mcp_tool(BrowserAction::Screenshot { path: None, full_page: false }).unwrap();
    assert_eq!(tool, "browser_take_screenshot");
}

#[test]
fn get_title_maps_to_browser_evaluate_with_title_function() {
    let (tool, args) = action_to_mcp_tool(BrowserAction::GetTitle).unwrap();
    assert_eq!(tool, "browser_evaluate");
    assert!(args.text_at("function").unwrap().contains("title"));
}

#[test]
fn get_url_maps_to_browser_evaluate_with_href_function() {
    let (tool, args) = action_to_mcp_tool(BrowserAction::GetUrl).unwrap();
    assert_eq!(tool, "browser_evaluate");
    assert!(args.text_at("function").unwrap().contains("href") || args.text_at("function").unwrap().contains("location"));
}

#[test]
fn close_maps_to_browser_close() {
    let (tool, _) = action_to_mcp_tool(BrowserAction::Close).unwrap();
    assert_eq!(tool, "browser_close");
}

#[test]
fn snapshot_maps_to_browser_snapshot() {
    let (tool, _) = action_to_mcp_tool(BrowserAction::Snapshot { interactive_only: false, compact: false, depth: None }).unwrap();
    assert_eq!(tool, "browser_snapshot");
}

#[test]
fn hover_maps_to_browser_hover() {
    let (tool, args) = action_to_mcp_tool(BrowserAction::Hover { selector: "@e44".into() }).unwrap();
    assert_eq!(tool, "browser_hover");
    assert_eq!(args.text_at("ref"), Some("e44"));
}

#[test]
fn scroll_maps_to_browser_scroll() {
    let (tool, args) = action_to_mcp_tool(BrowserAction::Scroll { direction: "down".into(), pixels: Some(300) }).unwrap();
    assert_eq!(tool, "browser_evaluate");
    assert!(args.text_at("function").unwrap().contains("scrollBy"));
}

#[test]
fn wait_with_selector_maps_to_browser_wait_for() {
    let (tool, args) = action_to_mcp_tool(BrowserAction::Wait { selector: Some("@e52".into()), ms: None, text: None }).unwrap();
    assert_eq!(tool, "browser_evaluate");
    assert_eq!(args.text_at("ref"), Some("e52"));
}

#[test]
fn bare_ref_maps_to_playwright_ref_tools() {
    let (click_tool, click_args) = action_to_mcp_tool(BrowserAction::Click { selector: "e12".into() }).unwrap();
    assert_eq!(click_tool, "browser_click");
    assert_eq!(click_args.text_at("ref"), Some("e12"));

    let (fill_tool, fill_args) = action_to_mcp_tool(BrowserAction::Fill { selector: "e30".into(), value: "hello".into() }).unwrap();
    assert_eq!(fill_tool, "browser_evaluate");
    assert_eq!(fill_args.text_at("ref"), Some("e30"));
}

#[test]
fn fill_with_text_selector_maps_to_browser_evaluate() {
    let (tool, args) = action_to_mcp_tool(BrowserAction::Fill {
        selector: "text=Username".into(),
        value: "admin".into(),
    }).unwrap();

    assert_eq!(tool, "browser_evaluate");
    let function = args.text_at("function").unwrap();
    assert!(function.contains("Username"));
    assert!(function.contains("input, textarea, select"));
}

#[test]
fn css_fill_maps_to_browser_run_code() {
    let (tool, args) = action_to_mcp_tool(BrowserAction::Fill {
        selector: "input#username".into(),
        value: "admin".into(),
    }).unwrap();

    assert_eq!(tool, "browser_run_code");
    let code = args.text_at("code").unwrap();
    assert!(code.contains("locator"));
    assert!(code.contains("fill"));
    assert!(code.contains("input#username"));
}

#[test]
fn find_fill_by_label_uses_text_locator() {
    let (tool, args) = action_to_mcp_tool(BrowserAction::Find {
        by: "label".into(),
        value: "Username".into(),
        action: "fill".into(),
        fill_value: Some("admin".into()),
    }).unwrap();

    assert_eq!(tool, "browser_evaluate");
    let function = args.text_at("function").unwrap();
    assert!(function.contains("Username"));
    assert!(function.contains("admin"));
}

#[test]
fn find_click_by_role_maps_to_browser_click() {
    let (tool, args) = action_to_mcp_tool(BrowserAction::Find {
        by: "role".into(),
        value: "button".into(),
        action: "click".into(),
        fill_value: None,
    }).unwrap();
    assert_eq!(tool, "browser_run_code");
    assert!(args.text_at("code").unwrap().contains("locator"));
}

#[test]
fn detects_replayable_input_mutations() {
    assert!(is_replayable_tool_call(
        "browser_fill_form",
        &json(r####"{ "fields": [{ "ref": "e30", "value": "admin" }] }"####),
    ));
    assert!(is_replayable_tool_call(
        "browser_evaluate",
        &json(r####"{ "function": "(element) => { field.value = 'x'; field.dispatchEvent(new Event('input', { bubbles: true })); }" }"####),
    ));
    assert!(is_replayable_tool_call(
        "browser_run_code",
        &json(r####"{ "code": "async (page) => { await page.locator('input').fill('x'); return true; }" }"####),
    ));
    assert!(!is_replayable_tool_call(
        "browser_evaluate",
        &json(r####"{ "function": "() => window.location.href" }"####),
    ));
}

#[test]
fn extracts_page_url_from_tool_result() {
    let result = json(r####"{
        "content": [{
            "type": "text",
            "text": "### Page\n- Page URL: https://example.com/dashboard\n- Page Title: Example"
        }]
    }"####);
    assert_eq!(
        extract_page_url_from_result(&result).as_deref(),
        Some("https://example.com/dashboard")
    );

    let run_code_result = json(r####"{
        "content": [{
            "type": "text",
            "text": "### Result\n\"https://example.com/secure\"\n### Ran Playwright code"
        }]
    }"####);
    assert_eq!(
        extract_page_url_from_result(&run_code_result).as_deref(),
        Some("https://example.com/secure")
    );
}

// ---- the client, driven by answers

/// Plays the server: `script` gives the answer to each request, except to those
/// that read the cookies.
fn run(
    client: &mut PlaywrightMcpClient,
    tool: &str,
    arguments: Json,
    sent: &mut Vec<Json>,
    script: &mut dyn FnMut(usize, &Json) -> Option<Answer>,
) -> Result<Json, String> {
    let call = pending_call(tool, arguments);
    let mut step = client.begin(&call);
    loop {
        let mut ask = |body: Json, sent: &mut Vec<Json>| {
            let answer = script(sent.len(), &body);
            sent.push(body);
            answer
        };
        step = match step {
            Step::Open { body, again } => {
                let answer = ask(body, sent);
                client.opened(&answer, again)
            }
            Step::Announce { session, body, again } => {
                ask(body, sent);
                client.announced(session, again, &call)
            }
            Step::Call { session, body } => {
                let answer = ask(body, sent);
                client.called(session, &answer, &call)
            }
            Step::Restore { session, body, plan, at } => {
                let answer = ask(body, sent);
                client.restored(session, plan, at, &answer, &call)
            }
            Step::Retry { session, body } => {
                let answer = ask(body, sent);
                client.retried(session, &answer, &call)
            }
            Step::Capture { result, .. } => client.captured(&status(500), result),
            Step::Done(outcome) => return outcome,
        };
    }
}

fn answer(body: &str) -> Option<Answer> {
    Some(Answer {
        status: 200,
        shown_status: "200 OK".to_string(),
        session_header: Some("test-session".to_string()),
        body: Some(format!("event: message\ndata: {body}\n\n")),
    })
}

fn status(code: u16) -> Option<Answer> {
    Some(Answer {
        status: code,
        shown_status: format!("{code}"),
        session_header: None,
        body: Some(String::new()),
    })
}

fn init_response() -> Option<Answer> {
    answer(r#"{"jsonrpc":"2.0","id":1,"result":{"capabilities":{},"protocolVersion":"2024-11-05","serverInfo":{"name":"test","version":"1"}}}"#)
}

fn tool_ok_response(id: usize) -> Option<Answer> {
    answer(&format!(
        r#"{{"jsonrpc":"2.0","id":{id},"result":{{"content":[{{"type":"text","text":"done"}}]}}}}"#
    ))
}

fn new_client(api_key: Option<String>) -> PlaywrightMcpClient {
    PlaywrightMcpClient::new(
        "http://mcp/".to_string(),
        api_key,
        30_000,
        None,
        None,
        Vec::new(),
        None,
    )
}

fn called_tool(body: &Json) -> &str {
    body.get("params").unwrap().text_at("name").unwrap()
}

fn called_argument<'a>(body: &'a Json, key: &str) -> Option<&'a Json> {
    body.get("params").unwrap().get("arguments").unwrap().get(key)
}

#[test]
fn client_calls_tool_via_mcp_endpoint() {
    let mut client = new_client(None);
    assert_eq!(client.mcp_url(), "http://mcp/mcp");
    let mut sent: Vec<Json> = Vec::new();
    let result = run(
        &mut client,
        "browser_navigate",
        json(r#"{ "url": "https://x.com" }"#),
        &mut sent,
        &mut |n, _| match n {
            0 => init_response(),
            1 => status(202),
            n => tool_ok_response(n),
        },
    );
    assert!(result.is_ok(), "expected ok, got: {result:?}");
    assert_eq!(sent[0].text_at("method"), Some("initialize"));
    assert_eq!(sent[1].text_at("method"), Some("notifications/initialized"));
    assert_eq!(sent[2].text_at("method"), Some("tools/call"));
}

#[test]
fn client_sends_bearer_token_on_every_request() {
    let client = new_client(Some("tok123".into()));
    for session in [None, Some("test-session")] {
        let headers = client.request_headers(session);
        assert!(headers.iter().any(|(k, v)| k.to_lowercase() == "authorization" && v == "Bearer tok123"));
    }
    assert!(new_client(None).request_headers(None).iter().all(|(k, _)| k.to_lowercase() != "authorization"));
}

#[test]
fn client_resets_session_on_404_and_retries() {
    let mut client = new_client(None);
    let mut sent: Vec<Json> = Vec::new();
    let result = run(
        &mut client,
        "browser_navigate",
        json(r#"{ "url": "https://x.com" }"#),
        &mut sent,
        &mut |n, _| match n {
            0 => init_response(),
            1 => status(202),
            2 => status(404),
            3 => init_response(),
            4 => status(202),
            n => tool_ok_response(n),
        },
    );
    assert!(result.is_ok(), "expected successful retry after 404, got: {result:?}");
    assert_eq!(sent.len(), 6);
}

#[test]
fn client_restores_last_url_before_retrying_snapshot_after_404() {
    let mut client = new_client(None);
    let mut sent: Vec<Json> = Vec::new();
    let mut script = |n: usize, body: &Json| match n {
        0 | 4 => init_response(),
        1 | 5 => status(202),
        2 => {
            assert_eq!(called_tool(body), "browser_navigate");
            answer(r#"{"jsonrpc":"2.0","id":2,"result":{"content":[{"type":"text","text":"navigated"}]}}"#)
        }
        3 => {
            assert_eq!(called_tool(body), "browser_snapshot");
            status(404)
        }
        6 => {
            assert_eq!(called_tool(body), "browser_navigate");
            assert_eq!(called_argument(body, "url").unwrap().as_text(), Some("https://example.com/login"));
            tool_ok_response(6)
        }
        7 => {
            assert_eq!(called_tool(body), "browser_snapshot");
            tool_ok_response(7)
        }
        other => panic!("unexpected request index {other}"),
    };
    run(
        &mut client,
        "browser_navigate",
        json(r#"{ "url": "https://example.com/login" }"#),
        &mut sent,
        &mut script,
    )
    .expect("navigate should succeed");
    let result = run(&mut client, "browser_snapshot", json("{}"), &mut sent, &mut script);
    assert!(result.is_ok(), "expected snapshot retry to succeed after restoring last URL, got: {result:?}");
    assert_eq!(sent.len(), 8);
}

#[test]
fn client_replays_form_state_before_retrying_click_after_404() {
    let mut client = new_client(None);
    let mut sent: Vec<Json> = Vec::new();
    fn field_ref(body: &Json) -> Option<&str> {
        called_argument(body, "fields").unwrap().as_array().unwrap()[0].text_at("ref")
    }
    let mut script = |n: usize, body: &Json| match n {
        0 | 5 => init_response(),
        1 | 6 => status(202),
        2 => {
            assert_eq!(called_tool(body), "browser_navigate");
            tool_ok_response(2)
        }
        3 => {
            assert_eq!(called_tool(body), "browser_fill_form");
            assert_eq!(field_ref(body), Some("e30"));
            tool_ok_response(3)
        }
        4 => {
            assert_eq!(called_tool(body), "browser_click");
            status(404)
        }
        7 => {
            assert_eq!(called_tool(body), "browser_navigate");
            assert_eq!(called_argument(body, "url").unwrap().as_text(), Some("https://example.com/login"));
            tool_ok_response(7)
        }
        8 => {
            assert_eq!(called_tool(body), "browser_fill_form");
            assert_eq!(field_ref(body), Some("e30"));
            tool_ok_response(8)
        }
        9 => {
            assert_eq!(called_tool(body), "browser_click");
            tool_ok_response(9)
        }
        other => panic!("unexpected request index {other}"),
    };
    run(
        &mut client,
        "browser_navigate",
        json(r#"{ "url": "https://example.com/login" }"#),
        &mut sent,
        &mut script,
    )
    .expect("navigate should succeed");
    run(
        &mut client,
        "browser_fill_form",
        json(r#"{"fields": [{"name": "Username", "type": "textbox", "ref": "e30", "value": "admin"}]}"#),
        &mut sent,
        &mut script,
    )
    .expect("fill should succeed");
    let result = run(&mut client, "browser_click", json(r#"{ "ref": "e39" }"#), &mut sent, &mut script);
    assert!(result.is_ok(), "expected click retry to succeed after replaying form state, got: {result:?}");
    assert_eq!(sent.len(), 10);
}

#[test]
fn client_fails_after_all_retries_exhausted() {
    let mut client = new_client(None);
    let mut sent: Vec<Json> = Vec::new();
    let mut attempt: u32 = 1;
    loop {
        let result = run(&mut client, "browser_navigate", json("{}"), &mut sent, &mut |_, _| status(500));
        let error = result.err().unwrap();
        match retry_delay_ms(attempt) {
            Some(ms) => assert_eq!(ms, 100 * attempt as u64),
            None => {
                assert!(exhausted(&error).contains(&error));
                break;
            }
        }
        attempt += 1;
    }
    assert_eq!(attempt, 3);
}

#[test]
fn cookies_are_captured_and_restored() {
    let mut client = new_client(None);
    let call = pending_call("browser_snapshot", json("{}"));
    client.session_id = Some("s".to_string());
    client.last_url = Some("https://a.org".to_string());
    client.cookies_json = Some("[{\"name\":\"c\"}]".to_string());
    let plan = client.restore_plan();
    assert_eq!(plan.len(), 2);
    assert!(plan[0].arguments.text_at("code").unwrap().contains("addCookies"));
    assert!(plan[0].arguments.text_at("code").unwrap().contains("\\\"name\\\""));
    assert_eq!(plan[1].tool_name, "browser_navigate");
    match client.begin(&call) {
        Step::Call { session, body } => {
            assert_eq!(session, "s");
            assert_eq!(called_tool(&body), "browser_snapshot");
        }
        _ => panic!("expected a call"),
    }
    let read = answer(r####"{"jsonrpc":"2.0","id":1,"result":{"content":[{"type":"text","text":"### Result\n\"[]\"\n### Ran Playwright code"}]}}"####);
    match client.captured(&read, Json::Bool(true)) {
        Step::Done(Ok(given)) => assert_eq!(given, Json::Bool(true)),
        _ => panic!("expected the end"),
    }
    assert_eq!(client.cookies_json.as_deref(), Some("[]"));
}

#[test]
fn selectors_are_told_apart() {
    assert_eq!(snapshot_ref("@e12"), Some("e12"));
    assert_eq!(snapshot_ref("e12"), Some("e12"));
    assert_eq!(snapshot_ref("em"), None);
    assert_eq!(text_selector("text=Name"), Some("Name"));
    assert_eq!(text_selector("#name"), None);
    assert_eq!(js_string("a\"b\n"), "\"a\\\"b\\n\"");
    assert_eq!(file_name("/tmp/x/shot.png").as_deref(), Some("shot.png"));
}

#[test]
fn event_streams_are_read() {
    let read = parse_sse_json("event: message\ndata: {\"a\":1}\n\n").unwrap();
    assert_eq!(read.get("a"), Some(&Json::UInt(1)));
    assert!(parse_sse_json("event: message\n\n").is_err());
    assert!(parse_sse_json("data: {").is_err());
}

#[test]
fn waiting_by_time_is_in_seconds() {
    let (tool, args) =
        action_to_mcp_tool(BrowserAction::Wait { selector: None, ms: Some(1500), text: None }).unwrap();
    assert_eq!(tool, "browser_wait_for");
    assert_eq!(args.get("time"), Some(&Json::Real("1.5".to_string())));
}

#[test]
fn the_smallest_released_tab_comes_first() {
    let mut alloc = TabIdAllocator::new();
    for _ in 0..3 {
        alloc.acquire();
    }
    alloc.release(3);
    alloc.release(1);
    assert_eq!(alloc.acquire(), 1);
    assert_eq!(alloc.acquire(), 3);
    assert_eq!(alloc.acquire(), 4);
}
