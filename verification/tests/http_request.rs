use zeroclaw::json;
use zeroclaw::json::Json;
use zeroclaw::tools::host::{
    is_non_global_v4, is_non_global_v6, is_private_or_local_host, parse_ipv4, parse_ipv6,
};
use zeroclaw::tools::http_request::{
    error_chain, extract_host, host_matches_allowlist, is_sensitive_header,
    normalize_allowed_domains, normalize_domain, read_args, show_header, succeeded, unsent, BodyRead, HttpMethod,
    HttpRequestTool, HttpStep,
};

fn test_tool(allowed_domains: Vec<&str>) -> HttpRequestTool<()> {
    test_tool_with_private(allowed_domains, false)
}

fn test_tool_with_private(
    allowed_domains: Vec<&str>,
    allow_private_hosts: bool,
) -> HttpRequestTool<()> {
    HttpRequestTool::new(
        (),
        allowed_domains.into_iter().map(String::from).collect(),
        1_000_000,
        30,
        allow_private_hosts,
    )
}

fn json(s: &str) -> Json {
    json::parse(s).expect("JSON")
}

#[test]
fn normalize_domain_strips_scheme_path_and_case() {
    let got = normalize_domain("  HTTPS://Docs.Example.com/path ").unwrap();
    assert_eq!(got, "docs.example.com");
}

#[test]
fn normalize_allowed_domains_deduplicates() {
    let got = normalize_allowed_domains(vec![
        "example.com".into(),
        "EXAMPLE.COM".into(),
        "https://example.com/".into(),
    ]);
    assert_eq!(got, vec!["example.com".to_string()]);
}

#[test]
fn validate_accepts_exact_domain() {
    let tool = test_tool(vec!["example.com"]);
    let got = tool.validate_url("https://example.com/docs").unwrap();
    assert_eq!(got, "https://example.com/docs");
}

#[test]
fn validate_accepts_http() {
    let tool = test_tool(vec!["example.com"]);
    assert!(tool.validate_url("http://example.com").is_ok());
}

#[test]
fn validate_accepts_subdomain() {
    let tool = test_tool(vec!["example.com"]);
    assert!(tool.validate_url("https://api.example.com/v1").is_ok());
}

#[test]
fn validate_accepts_wildcard_allowlist_for_public_host() {
    let tool = test_tool(vec!["*"]);
    assert!(tool.validate_url("https://news.ycombinator.com").is_ok());
}

#[test]
fn validate_wildcard_allowlist_still_rejects_private_host() {
    let tool = test_tool(vec!["*"]);
    let err = tool
        .validate_url("https://localhost:8080")
        .unwrap_err()
        .to_string();
    assert!(err.contains("local/private"));
}

#[test]
fn validate_rejects_allowlist_miss() {
    let tool = test_tool(vec!["example.com"]);
    let err = tool
        .validate_url("https://google.com")
        .unwrap_err()
        .to_string();
    assert!(err.contains("allowed_domains"));
}

#[test]
fn validate_rejects_localhost() {
    let tool = test_tool(vec!["localhost"]);
    let err = tool
        .validate_url("https://localhost:8080")
        .unwrap_err()
        .to_string();
    assert!(err.contains("local/private"));
}

#[test]
fn validate_rejects_private_ipv4() {
    let tool = test_tool(vec!["192.168.1.5"]);
    let err = tool
        .validate_url("https://192.168.1.5")
        .unwrap_err()
        .to_string();
    assert!(err.contains("local/private"));
}

#[test]
fn validate_rejects_whitespace() {
    let tool = test_tool(vec!["example.com"]);
    let err = tool
        .validate_url("https://example.com/hello world")
        .unwrap_err()
        .to_string();
    assert!(err.contains("whitespace"));
}

#[test]
fn validate_rejects_userinfo() {
    let tool = test_tool(vec!["example.com"]);
    let err = tool
        .validate_url("https://user@example.com")
        .unwrap_err()
        .to_string();
    assert!(err.contains("userinfo"));
}

#[test]
fn validate_requires_allowlist() {
    let tool = HttpRequestTool::new((), vec![], 1_000_000, 30, false);
    let err = tool
        .validate_url("https://example.com")
        .unwrap_err()
        .to_string();
    assert!(err.contains("allowed_domains"));
}

#[test]
fn validate_accepts_valid_methods() {
    let tool = test_tool(vec!["example.com"]);
    assert!(tool.validate_method("GET").is_ok());
    assert!(tool.validate_method("POST").is_ok());
    assert!(tool.validate_method("PUT").is_ok());
    assert!(tool.validate_method("DELETE").is_ok());
    assert!(tool.validate_method("PATCH").is_ok());
    assert!(tool.validate_method("HEAD").is_ok());
    assert!(tool.validate_method("OPTIONS").is_ok());
}

#[test]
fn validate_rejects_invalid_method() {
    let tool = test_tool(vec!["example.com"]);
    let err = tool.validate_method("INVALID").unwrap_err().to_string();
    assert!(err.contains("Unsupported HTTP method"));
}

#[test]
fn blocks_multicast_ipv4() {
    assert!(is_private_or_local_host("224.0.0.1"));
    assert!(is_private_or_local_host("239.255.255.255"));
}

#[test]
fn blocks_broadcast() {
    assert!(is_private_or_local_host("255.255.255.255"));
}

#[test]
fn blocks_reserved_ipv4() {
    assert!(is_private_or_local_host("240.0.0.1"));
    assert!(is_private_or_local_host("250.1.2.3"));
}

#[test]
fn blocks_documentation_ranges() {
    assert!(is_private_or_local_host("192.0.2.1")); // TEST-NET-1
    assert!(is_private_or_local_host("198.51.100.1")); // TEST-NET-2
    assert!(is_private_or_local_host("203.0.113.1")); // TEST-NET-3
}

#[test]
fn public_addresses_beside_the_documentation_ranges_pass() {
    assert!(!is_private_or_local_host("203.0.1.1"));
    assert!(!is_private_or_local_host("203.0.112.255"));
    assert!(!is_private_or_local_host("198.51.1.1"));
    assert!(!is_private_or_local_host("198.51.101.0"));
    assert!(is_private_or_local_host("203.0.113.255"));
    assert!(is_private_or_local_host("198.51.100.0"));
}

#[test]
fn a_request_is_charged_where_the_agent_may_act() {
    let tool = test_tool(vec!["example.com"]);
    assert!(tool.is_charged(true));
    assert!(!tool.is_charged(false));
}

#[test]
fn blocks_benchmarking_range() {
    assert!(is_private_or_local_host("198.18.0.1"));
    assert!(is_private_or_local_host("198.19.255.255"));
}

#[test]
fn blocks_ipv6_localhost() {
    assert!(is_private_or_local_host("::1"));
    assert!(is_private_or_local_host("[::1]"));
}

#[test]
fn blocks_ipv6_multicast() {
    assert!(is_private_or_local_host("ff02::1"));
}

#[test]
fn blocks_ipv6_link_local() {
    assert!(is_private_or_local_host("fe80::1"));
}

#[test]
fn blocks_ipv6_unique_local() {
    assert!(is_private_or_local_host("fd00::1"));
}

#[test]
fn blocks_ipv4_mapped_ipv6() {
    assert!(is_private_or_local_host("::ffff:127.0.0.1"));
    assert!(is_private_or_local_host("::ffff:192.168.1.1"));
    assert!(is_private_or_local_host("::ffff:10.0.0.1"));
}

#[test]
fn allows_public_ipv4() {
    assert!(!is_private_or_local_host("8.8.8.8"));
    assert!(!is_private_or_local_host("1.1.1.1"));
    assert!(!is_private_or_local_host("93.184.216.34"));
}

#[test]
fn blocks_ipv6_documentation_range() {
    assert!(is_private_or_local_host("2001:db8::1"));
}

#[test]
fn allows_public_ipv6() {
    assert!(!is_private_or_local_host("2607:f8b0:4004:800::200e"));
}

#[test]
fn blocks_shared_address_space() {
    assert!(is_private_or_local_host("100.64.0.1"));
    assert!(is_private_or_local_host("100.127.255.255"));
    assert!(!is_private_or_local_host("100.63.0.1")); // Just below range
    assert!(!is_private_or_local_host("100.128.0.1")); // Just above range
}

#[test]
fn truncate_response_within_limit() {
    let tool = test_tool(vec!["example.com"]);
    let text = "hello world";
    assert_eq!(tool.truncate_response(text), "hello world");
}

#[test]
fn truncate_response_over_limit() {
    let tool = HttpRequestTool::new(
        (),
        vec!["example.com".into()],
        10,
        30,
        false,
    );
    let text = "hello world this is long";
    let truncated = tool.truncate_response(text);
    assert!(truncated.len() <= 10 + 60); // limit + message
    assert!(truncated.contains("[Response truncated"));
}

#[test]
fn truncate_response_zero_means_unlimited() {
    let tool = HttpRequestTool::new(
        (),
        vec!["example.com".into()],
        0, // max_response_size = 0 means no limit
        30,
        false,
    );
    let text = "a".repeat(10_000_000);
    assert_eq!(tool.truncate_response(&text), text);
}

#[test]
fn truncate_response_nonzero_still_truncates() {
    let tool = HttpRequestTool::new(
        (),
        vec!["example.com".into()],
        5,
        30,
        false,
    );
    let text = "hello world";
    let truncated = tool.truncate_response(text);
    assert!(truncated.starts_with("hello"));
    assert!(truncated.contains("[Response truncated"));
}

#[test]
fn parse_headers_preserves_original_values() {
    let tool = test_tool(vec!["example.com"]);
    let headers = json(
        r#"{
        "Authorization": "Bearer secret",
        "Content-Type": "application/json",
        "X-API-Key": "my-key"
    }"#,
    );
    let parsed = tool.parse_headers(&headers);
    assert_eq!(parsed.len(), 3);
    assert!(
        parsed
            .iter()
            .any(|(k, v)| k == "Authorization" && v == "Bearer secret")
    );
    assert!(
        parsed
            .iter()
            .any(|(k, v)| k == "X-API-Key" && v == "my-key")
    );
    assert!(
        parsed
            .iter()
            .any(|(k, v)| k == "Content-Type" && v == "application/json")
    );
}

#[test]
fn redact_headers_for_display_redacts_sensitive() {
    let headers = vec![
        ("Authorization".into(), "Bearer secret".into()),
        ("Content-Type".into(), "application/json".into()),
        ("X-API-Key".into(), "my-key".into()),
        ("X-Secret-Token".into(), "tok-123".into()),
    ];
    let redacted = HttpRequestTool::<()>::redact_headers_for_display(&headers);
    assert_eq!(redacted.len(), 4);
    assert!(
        redacted
            .iter()
            .any(|(k, v)| k == "Authorization" && v == "***REDACTED***")
    );
    assert!(
        redacted
            .iter()
            .any(|(k, v)| k == "X-API-Key" && v == "***REDACTED***")
    );
    assert!(
        redacted
            .iter()
            .any(|(k, v)| k == "X-Secret-Token" && v == "***REDACTED***")
    );
    assert!(
        redacted
            .iter()
            .any(|(k, v)| k == "Content-Type" && v == "application/json")
    );
}

#[test]
fn redact_headers_does_not_alter_original() {
    let headers = vec![("Authorization".into(), "Bearer real-token".into())];
    let _ = HttpRequestTool::<()>::redact_headers_for_display(&headers);
    assert_eq!(headers[0].1, "Bearer real-token");
}

#[test]
fn ssrf_octal_loopback_not_parsed_as_ip() {
    // 0177.0.0.1 is octal for 127.0.0.1 in some languages, but
    // Rust's IpAddr rejects it — it falls through as a hostname.
    assert!(!is_private_or_local_host("0177.0.0.1"));
}

#[test]
fn ssrf_hex_loopback_not_parsed_as_ip() {
    // 0x7f000001 is hex for 127.0.0.1 in some languages.
    assert!(!is_private_or_local_host("0x7f000001"));
}

#[test]
fn ssrf_decimal_loopback_not_parsed_as_ip() {
    // 2130706433 is decimal for 127.0.0.1 in some languages.
    assert!(!is_private_or_local_host("2130706433"));
}

#[test]
fn ssrf_zero_padded_loopback_not_parsed_as_ip() {
    // 127.000.000.001 uses zero-padded octets.
    assert!(!is_private_or_local_host("127.000.000.001"));
}

#[test]
fn ssrf_alternate_notations_rejected_by_validate_url() {
    // Even if is_private_or_local_host doesn't flag these, they
    // fail the allowlist because they're treated as hostnames.
    let tool = test_tool(vec!["example.com"]);
    for notation in [
        "http://0177.0.0.1",
        "http://0x7f000001",
        "http://2130706433",
        "http://127.000.000.001",
    ] {
        let err = tool.validate_url(notation).unwrap_err().to_string();
        assert!(
            err.contains("allowed_domains"),
            "Expected allowlist rejection for {notation}, got: {err}"
        );
    }
}

#[test]
fn redirect_policy_is_none() {
    // Structural test: the tool should be buildable with redirect-safe config.
    // The actual Policy::none() enforcement is in execute_request's client builder.
    let tool = test_tool(vec!["example.com"]);
    assert_eq!(tool.name(), "http_request");
}

#[test]
fn ssrf_blocks_loopback_127_range() {
    assert!(is_private_or_local_host("127.0.0.1"));
    assert!(is_private_or_local_host("127.0.0.2"));
    assert!(is_private_or_local_host("127.255.255.255"));
}

#[test]
fn ssrf_blocks_rfc1918_10_range() {
    assert!(is_private_or_local_host("10.0.0.1"));
    assert!(is_private_or_local_host("10.255.255.255"));
}

#[test]
fn ssrf_blocks_rfc1918_172_range() {
    assert!(is_private_or_local_host("172.16.0.1"));
    assert!(is_private_or_local_host("172.31.255.255"));
}

#[test]
fn ssrf_blocks_unspecified_address() {
    assert!(is_private_or_local_host("0.0.0.0"));
}

#[test]
fn ssrf_blocks_dot_localhost_subdomain() {
    assert!(is_private_or_local_host("evil.localhost"));
    assert!(is_private_or_local_host("a.b.localhost"));
}

#[test]
fn ssrf_blocks_dot_local_tld() {
    assert!(is_private_or_local_host("service.local"));
}

#[test]
fn ssrf_ipv6_unspecified() {
    assert!(is_private_or_local_host("::"));
}

#[test]
fn validate_rejects_ftp_scheme() {
    let tool = test_tool(vec!["example.com"]);
    let err = tool
        .validate_url("ftp://example.com")
        .unwrap_err()
        .to_string();
    assert!(err.contains("http://") || err.contains("https://"));
}

#[test]
fn validate_rejects_empty_url() {
    let tool = test_tool(vec!["example.com"]);
    let err = tool.validate_url("").unwrap_err().to_string();
    assert!(err.contains("empty"));
}

#[test]
fn validate_rejects_ipv6_host() {
    let tool = test_tool(vec!["example.com"]);
    let err = tool
        .validate_url("http://[::1]:8080/path")
        .unwrap_err()
        .to_string();
    assert!(err.contains("IPv6"));
}

#[test]
fn default_blocks_private_hosts() {
    let tool = test_tool(vec!["localhost", "192.168.1.5", "*"]);
    assert!(
        tool.validate_url("https://localhost:8080")
            .unwrap_err()
            .to_string()
            .contains("local/private")
    );
    assert!(
        tool.validate_url("https://192.168.1.5")
            .unwrap_err()
            .to_string()
            .contains("local/private")
    );
    assert!(
        tool.validate_url("https://10.0.0.1")
            .unwrap_err()
            .to_string()
            .contains("local/private")
    );
}

#[test]
fn allow_private_hosts_permits_localhost() {
    let tool = test_tool_with_private(vec!["localhost"], true);
    assert!(tool.validate_url("https://localhost:8080").is_ok());
}

#[test]
fn allow_private_hosts_permits_private_ipv4() {
    let tool = test_tool_with_private(vec!["192.168.1.5"], true);
    assert!(tool.validate_url("https://192.168.1.5").is_ok());
}

#[test]
fn allow_private_hosts_permits_rfc1918_with_wildcard() {
    let tool = test_tool_with_private(vec!["*"], true);
    assert!(tool.validate_url("https://10.0.0.1").is_ok());
    assert!(tool.validate_url("https://172.16.0.1").is_ok());
    assert!(tool.validate_url("https://192.168.1.1").is_ok());
    assert!(tool.validate_url("http://localhost:8123").is_ok());
}

#[test]
fn allow_private_hosts_still_requires_allowlist() {
    let tool = test_tool_with_private(vec!["example.com"], true);
    let err = tool
        .validate_url("https://192.168.1.5")
        .unwrap_err()
        .to_string();
    assert!(
        err.contains("allowed_domains"),
        "Private host should still need allowlist match, got: {err}"
    );
}

#[test]
fn allow_private_hosts_false_still_blocks() {
    let tool = test_tool_with_private(vec!["*"], false);
    assert!(
        tool.validate_url("https://localhost:8080")
            .unwrap_err()
            .to_string()
            .contains("local/private")
    );
}

fn reply(step: HttpStep) -> String {
    match step {
        HttpStep::Reply(r) => {
            assert!(!r.success);
            r.error.unwrap()
        }
        HttpStep::Send(_) => panic!("should not send"),
    }
}

#[test]
fn execute_blocks_readonly_mode() {
    let tool = test_tool(vec!["example.com"]);
    let args = read_args(&json(r#"{"url": "https://example.com"}"#)).unwrap();
    assert!(reply(tool.prepare(&args, false, true)).contains("read-only"));
}

#[test]
fn execute_blocks_when_rate_limited() {
    let tool = test_tool(vec!["example.com"]);
    let args = read_args(&json(r#"{"url": "https://example.com"}"#)).unwrap();
    assert!(reply(tool.prepare(&args, true, false)).contains("rate limit"));
}

#[test]
fn a_request_is_prepared_from_its_arguments() {
    let tool = test_tool(vec!["example.com"]);
    let args = read_args(&json(
        r#"{"url": " https://example.com/x ", "method": "post", "headers": {"A": "b", "C": 1}, "body": "hi"}"#,
    ))
    .unwrap();
    match tool.prepare(&args, true, true) {
        HttpStep::Send(r) => {
            assert_eq!(r.url, "https://example.com/x");
            assert!(matches!(r.method, HttpMethod::Post));
            assert_eq!(r.headers, vec![("A".to_string(), "b".to_string())]);
            assert_eq!(r.body.as_deref(), Some("hi"));
            assert_eq!(r.timeout_secs, 30);
        }
        HttpStep::Reply(r) => panic!("unexpected reply {:?}", r.error),
    }
    assert!(read_args(&json("{}")).is_err());
    let bad = read_args(&json(r#"{"url": "https://example.com", "method": "BREW"}"#)).unwrap();
    assert!(reply(tool.prepare(&bad, true, true)).contains("Unsupported HTTP method"));
    let far = read_args(&json(r#"{"url": "https://other.org"}"#)).unwrap();
    assert!(reply(tool.prepare(&far, true, true)).contains("allowed_domains"));
}

#[test]
fn a_request_is_prepared_from_its_cased_texts() {
    let tool = test_tool(vec!["example.com"]);
    let args = read_args(&json(r#"{"url": "https://Example.com/x", "method": "put"}"#)).unwrap();
    match tool.prepare_given(&args, true, true, "example.com", "PUT") {
        HttpStep::Send(r) => assert!(matches!(r.method, HttpMethod::Put)),
        HttpStep::Reply(r) => panic!("unexpected reply {:?}", r.error),
    }
    assert!(reply(tool.prepare_given(&args, true, true, "example.org", "PUT")).contains("example.org"));
    assert_eq!(
        tool.judge_method("brew", "BREW").unwrap_err(),
        "Unsupported HTTP method: brew. Supported: GET, POST, PUT, DELETE, PATCH, HEAD, OPTIONS"
    );
}

#[test]
fn a_zero_timeout_falls_back() {
    let tool = HttpRequestTool::new((), vec!["a.com".to_string()], 10, 0, false);
    assert_eq!(tool.effective_timeout_secs(), 30);
}

#[test]
fn the_response_is_reported() {
    let tool = test_tool(vec!["example.com"]);
    let body = BodyRead::Text("hello".to_string());
    let names = vec!["content-type".to_string()];
    let ok = tool.finish(200, Some("OK"), &names, &body);
    assert!(ok.success);
    assert!(ok.error.is_none());
    assert!(ok.output.contains("200"));
    assert!(ok.output.contains("hello"));
    assert!(ok.output.contains("content-type"));
    let gone = tool.finish(404, Some("Not Found"), &names, &body);
    assert!(!gone.success);
    assert_eq!(gone.error.as_deref(), Some("HTTP 404"));
    let failed = BodyRead::Failed { error: "cut".to_string(), chain: "cut".to_string() };
    assert!(tool.finish(200, Some("OK"), &names, &failed).output.contains("cut"));
    assert!(succeeded(204));
    assert!(!succeeded(301));
    let lines = vec!["a: 1".to_string(), "b: 2".to_string()];
    assert_eq!(
        tool.respond(200, None, &lines, &body).output,
        "Status: 200 Unknown\nResponse Headers: a: 1, b: 2\n\nResponse Body:\nhello"
    );
    assert_eq!(show_header("A", "a", "\"A\""), "A: \"A\"");
    assert_eq!(show_header("Set-Cookie", "set-cookie", "x"), "Set-Cookie: ***REDACTED***");
}

#[test]
fn an_unsent_request_says_why() {
    let chain = error_chain(&vec!["send failed".to_string(), "refused".to_string()]);
    assert!(chain.contains("refused"));
    let r = unsent("network send failed", "send failed", &chain);
    assert!(!r.success);
    let said = r.error.unwrap();
    assert!(said.contains("HTTP request failed"), "got: {said}");
    assert!(said.contains("refused"), "got: {said}");
}

#[test]
fn hosts_and_allowlists() {
    assert_eq!(extract_host("https://Example.com:443/x?y#z").unwrap(), "example.com");
    assert!(extract_host("https:///x").is_err());
    let allowed = vec!["example.com".to_string()];
    assert!(host_matches_allowlist("example.com", &allowed));
    assert!(host_matches_allowlist("a.example.com", &allowed));
    assert!(!host_matches_allowlist("badexample.com", &allowed));
    assert!(is_sensitive_header("x-api-key"));
    assert!(!is_sensitive_header("accept"));
}

#[test]
fn addresses_are_parsed() {
    assert_eq!(parse_ipv4("1.2.3.4"), Some([1, 2, 3, 4]));
    assert_eq!(parse_ipv4("01.2.3.4"), None);
    assert_eq!(parse_ipv4("1.2.3"), None);
    assert_eq!(parse_ipv6("::1"), Some([0, 0, 0, 0, 0, 0, 0, 1]));
    assert_eq!(parse_ipv6("1:2:3:4:5:6:7:8"), Some([1, 2, 3, 4, 5, 6, 7, 8]));
    assert_eq!(parse_ipv6("::ffff:1.2.3.4"), Some([0, 0, 0, 0, 0, 0xffff, 0x102, 0x304]));
    assert_eq!(parse_ipv6("1::2::3"), None);
    assert_eq!(parse_ipv4("255.0.0.256"), None);
    assert_eq!(parse_ipv4("1.2.3.4.5"), None);
    assert_eq!(parse_ipv6("::"), Some([0; 8]));
    assert_eq!(parse_ipv6("1:2"), None);
    assert_eq!(parse_ipv6("12345::"), None);
    assert!(is_non_global_v4([169, 254, 1, 1]));
    assert!(!is_non_global_v4([8, 8, 4, 4]));
    assert!(is_non_global_v6([0xfc00, 0, 0, 0, 0, 0, 0, 1]));
    assert!(!is_non_global_v6([0x2606, 0x4700, 0, 0, 0, 0, 0, 1]));
}

#[test]
fn the_schema_names_the_url() {
    let schema = test_tool(vec!["a.com"]).parameters_schema();
    let required = schema.get("required").unwrap().as_array().unwrap();
    assert_eq!(required[0].as_text(), Some("url"));
}
