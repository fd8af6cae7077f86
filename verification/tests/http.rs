use rmeter::http::client::HttpClientBuilder;
use rmeter::http::history::RequestHistory;
use rmeter::http::request::{Auth, SendRequestInput};
use rmeter::http::response::SendRequestOutput;
use rmeter::http::websocket::extract_host;
use rmeter::plan::model::HttpMethod;
use rmeter::string_map::StringMap;
use std::time::Duration;

fn make_input(url: &str) -> SendRequestInput {
    SendRequestInput {
        method: HttpMethod::Get,
        url: url.to_string(),
        headers: StringMap::new(),
        body: None,
        auth: None,
    }
}

fn make_output(status: u16) -> SendRequestOutput {
    SendRequestOutput {
        status,
        headers: StringMap::new(),
        body: String::new(),
        elapsed_ms: 42,
        size_bytes: 0,
    }
}

#[test]
fn default_builder_has_expected_values() {
    let builder = HttpClientBuilder::default();
    assert_eq!(Duration::from_millis(builder.timeout_ms()), Duration::from_secs(30));
    assert_eq!(builder.max_idle_per_host(), 10);
    assert_eq!(Duration::from_millis(builder.pool_idle_timeout_ms()), Duration::from_secs(90));
    assert!(!builder.accepts_invalid_certs());
    assert!(builder.agent().starts_with("rmeter/"));
}

#[test]
fn builder_setters_change_one_setting_each() {
    let builder = HttpClientBuilder::new()
        .timeout(5_000)
        .pool_max_idle_per_host(100)
        .pool_idle_timeout(1_000)
        .user_agent("agent/1".to_string())
        .danger_accept_invalid_certs(true);
    assert_eq!(builder.timeout_ms(), 5_000);
    assert_eq!(builder.max_idle_per_host(), 100);
    assert_eq!(builder.pool_idle_timeout_ms(), 1_000);
    assert_eq!(builder.agent(), "agent/1");
    assert!(builder.accepts_invalid_certs());
    let builder = HttpClientBuilder::new().timeout(1);
    assert_eq!(builder.timeout_ms(), 1);
    assert_eq!(builder.max_idle_per_host(), 10);
    assert_eq!(builder.pool_idle_timeout_ms(), 90_000);
    assert_eq!(builder.agent(), "rmeter/0.1.0");
    assert!(!builder.accepts_invalid_certs());
}

#[test]
fn new_history_is_empty() {
    let history = RequestHistory::new(10);
    assert!(history.list().is_empty());
}

#[test]
fn add_returns_unique_ids() {
    let mut history = RequestHistory::new(10);
    let id1 = history.add(make_input("http://a.com"), make_output(200));
    let id2 = history.add(make_input("http://b.com"), make_output(201));
    assert_ne!(id1, id2);
}

#[test]
fn add_inserts_entry_in_list() {
    let mut history = RequestHistory::new(10);
    let id = history.add(make_input("http://example.com"), make_output(200));
    let entries = history.list();
    assert_eq!(entries.len(), 1);
    assert_eq!(entries[0].id, id);
    assert_eq!(entries[0].input.url, "http://example.com");
    assert_eq!(entries[0].output.status, 200);
}

#[test]
fn list_preserves_insertion_order() {
    let mut history = RequestHistory::new(10);
    history.add(make_input("http://first.com"), make_output(200));
    history.add(make_input("http://second.com"), make_output(201));
    history.add(make_input("http://third.com"), make_output(202));
    let entries = history.list();
    assert_eq!(entries.len(), 3);
    assert_eq!(entries[0].input.url, "http://first.com");
    assert_eq!(entries[1].input.url, "http://second.com");
    assert_eq!(entries[2].input.url, "http://third.com");
}

#[test]
fn respects_max_entries_limit() {
    let mut history = RequestHistory::new(3);
    for i in 0..5 {
        history.add(make_input(&format!("http://url{i}.com")), make_output(200));
    }
    let entries = history.list();
    assert_eq!(entries.len(), 3);
    assert_eq!(entries[0].input.url, "http://url2.com");
    assert_eq!(entries[1].input.url, "http://url3.com");
    assert_eq!(entries[2].input.url, "http://url4.com");
}

#[test]
fn max_entries_one() {
    let mut history = RequestHistory::new(1);
    history.add(make_input("http://a.com"), make_output(200));
    history.add(make_input("http://b.com"), make_output(201));
    let entries = history.list();
    assert_eq!(entries.len(), 1);
    assert_eq!(entries[0].input.url, "http://b.com");
}

#[test]
fn max_entries_zero_keeps_nothing() {
    let mut history = RequestHistory::new(0);
    history.add(make_input("http://a.com"), make_output(200));
    assert!(history.list().is_empty());
}

#[test]
fn clear_removes_all_entries() {
    let mut history = RequestHistory::new(10);
    history.add(make_input("http://example.com"), make_output(200));
    history.add(make_input("http://example.com"), make_output(201));
    assert_eq!(history.list().len(), 2);
    history.clear();
    assert!(history.list().is_empty());
}

#[test]
fn entry_has_valid_timestamp() {
    let mut history = RequestHistory::new(10);
    history.add(make_input("http://example.com"), make_output(200));
    let entry = &history.list()[0];
    assert!(chrono::DateTime::parse_from_rfc3339(&entry.timestamp).is_ok());
}

#[test]
fn entry_has_valid_uuid_id() {
    let mut history = RequestHistory::new(10);
    history.add(make_input("http://example.com"), make_output(200));
    let entry = &history.list()[0];
    assert!(uuid::Uuid::parse_str(&entry.id).is_ok());
}

#[test]
fn add_after_clear_works() {
    let mut history = RequestHistory::new(5);
    history.add(make_input("http://a.com"), make_output(200));
    history.clear();
    history.add(make_input("http://b.com"), make_output(201));
    let entries = history.list();
    assert_eq!(entries.len(), 1);
    assert_eq!(entries[0].input.url, "http://b.com");
}

#[test]
fn auth_bearer_construction_and_pattern_match() {
    let auth = Auth::Bearer("my-token-123".to_string());
    match auth {
        Auth::Bearer(token) => assert_eq!(token, "my-token-123"),
        _ => panic!("expected Bearer"),
    }
}

#[test]
fn send_request_output_clone() {
    let output = SendRequestOutput {
        status: 200,
        headers: StringMap::new(),
        body: "test".to_string(),
        elapsed_ms: 10,
        size_bytes: 4,
    };
    let cloned = output.clone();
    assert_eq!(cloned.status, output.status);
    assert_eq!(cloned.body, output.body);
}

#[test]
fn extract_host_plain() {
    assert_eq!(extract_host("ws://example.com/chat").unwrap(), "example.com");
}

#[test]
fn extract_host_tls_with_port() {
    assert_eq!(extract_host("wss://echo.example.com:443/ws").unwrap(), "echo.example.com:443");
}

#[test]
fn extract_host_no_path() {
    assert_eq!(extract_host("ws://localhost:8080").unwrap(), "localhost:8080");
}

#[test]
fn extract_host_edge_cases() {
    assert_eq!(extract_host("example.com?x=1").unwrap(), "example.com");
    assert_eq!(extract_host("wss://h#frag").unwrap(), "h");
    assert_eq!(extract_host("http://example.com").unwrap(), "http:");
    assert_eq!(extract_host("ws://").unwrap_err(), "Cannot extract host from URL: ws://");
    assert_eq!(extract_host("").unwrap_err(), "Cannot extract host from URL: ");
    assert_eq!(extract_host("wss:///path").unwrap_err(), "Cannot extract host from URL: wss:///path");
    assert_eq!(extract_host("ws://é.example/x").unwrap(), "é.example");
}

#[test]
fn history_never_holds_more_than_its_limit() {
    let mut history = RequestHistory::new(2);
    for i in 0..7 {
        history.add(make_input(&format!("http://url{i}.com")), make_output(200));
        assert!(history.list().len() <= 2);
    }
    assert_eq!(history.list()[0].input.url, "http://url5.com");
    assert_eq!(history.list()[1].input.url, "http://url6.com");
}
