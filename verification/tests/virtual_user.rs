use rmeter::assertions::AssertionRule;
use rmeter::engine::virtual_user::{
    body_preview, complete_request, default_content_type, next_request,
    resolve_request_variables, shape_body, shape_json_body, should_iterate, store_extractions,
    to_send_request_input, Payload, ResponseData,
};
use rmeter::extractors::{ExtractionResult, ExtractorRule};
use rmeter::json::JsonValue;
use rmeter::plan::model::{Assertion, Extractor, HttpMethod, HttpRequest, LoopCount, RequestBody};
use rmeter::string_map::StringMap;
use uuid::Uuid;

fn make_request(url: &str) -> HttpRequest {
    HttpRequest {
        id: Uuid::new_v4(),
        name: "Test".to_string(),
        method: HttpMethod::Get,
        url: url.to_string(),
        headers: StringMap::new(),
        body: None,
        assertions: Vec::new(),
        extractors: Vec::new(),
        enabled: true,
    }
}

fn make_vars(pairs: &[(&str, &str)]) -> StringMap {
    let mut vars = StringMap::new();
    for (k, v) in pairs {
        vars.insert(k.to_string(), v.to_string());
    }
    vars
}

fn value_of<'a>(map: &'a StringMap, name: &str) -> &'a str {
    map.get(name).unwrap().as_str()
}

#[test]
fn resolve_url_variables() {
    let req = make_request("http://${host}/api/${version}/users");
    let vars = make_vars(&[("host", "example.com"), ("version", "v2")]);
    let resolved = resolve_request_variables(&req, &vars);
    assert_eq!(resolved.url, "http://example.com/api/v2/users");
}

#[test]
fn resolve_no_variables_keeps_url_unchanged() {
    let req = make_request("http://example.com/api");
    let vars = StringMap::new();
    let resolved = resolve_request_variables(&req, &vars);
    assert_eq!(resolved.url, "http://example.com/api");
}

#[test]
fn resolve_header_variables() {
    let mut req = make_request("http://example.com");
    req.headers.insert("Authorization".to_string(), "Bearer ${token}".to_string());
    let vars = make_vars(&[("token", "abc-123")]);
    let resolved = resolve_request_variables(&req, &vars);
    assert_eq!(value_of(&resolved.headers, "Authorization"), "Bearer abc-123");
}

#[test]
fn resolve_json_body_variables() {
    let mut req = make_request("http://example.com");
    req.body = Some(RequestBody::Json("{\"name\": \"${user_name}\"}".to_string()));
    let vars = make_vars(&[("user_name", "Alice")]);
    let resolved = resolve_request_variables(&req, &vars);
    match &resolved.body {
        Some(RequestBody::Json(s)) => {
            assert_eq!(s, "{\"name\": \"Alice\"}");
        }
        _ => panic!("expected Json body"),
    }
}

#[test]
fn resolve_raw_body_variables() {
    let mut req = make_request("http://example.com");
    req.body = Some(RequestBody::Raw("Hello ${name}".to_string()));
    let vars = make_vars(&[("name", "World")]);
    let resolved = resolve_request_variables(&req, &vars);
    match &resolved.body {
        Some(RequestBody::Raw(s)) => assert_eq!(s, "Hello World"),
        _ => panic!("expected Raw body"),
    }
}

#[test]
fn resolve_xml_body_variables() {
    let mut req = make_request("http://example.com");
    req.body = Some(RequestBody::Xml("<user>${user}</user>".to_string()));
    let vars = make_vars(&[("user", "Bob")]);
    let resolved = resolve_request_variables(&req, &vars);
    match &resolved.body {
        Some(RequestBody::Xml(s)) => assert_eq!(s, "<user>Bob</user>"),
        _ => panic!("expected Xml body"),
    }
}

#[test]
fn resolve_form_data_variables() {
    let mut req = make_request("http://example.com");
    req.body =
        Some(RequestBody::FormData(vec![("${key_var}".to_string(), "${val_var}".to_string())]));
    let vars = make_vars(&[("key_var", "email"), ("val_var", "test@test.com")]);
    let resolved = resolve_request_variables(&req, &vars);
    match &resolved.body {
        Some(RequestBody::FormData(pairs)) => {
            assert_eq!(pairs[0].0, "email");
            assert_eq!(pairs[0].1, "test@test.com");
        }
        _ => panic!("expected FormData body"),
    }
}

#[test]
fn resolve_preserves_id_and_name() {
    let req = make_request("http://example.com/${path}");
    let vars = make_vars(&[("path", "api")]);
    let resolved = resolve_request_variables(&req, &vars);
    assert_eq!(resolved.id, req.id);
    assert_eq!(resolved.name, req.name);
    assert_eq!(resolved.method, req.method);
    assert_eq!(resolved.enabled, req.enabled);
}

#[test]
fn resolve_none_body_stays_none() {
    let req = make_request("http://example.com");
    let vars = StringMap::new();
    let resolved = resolve_request_variables(&req, &vars);
    assert!(resolved.body.is_none());
}

#[test]
fn resolve_missing_variable_stays_as_placeholder() {
    let req = make_request("http://${missing_host}/api");
    let vars = StringMap::new();
    let resolved = resolve_request_variables(&req, &vars);
    assert!(!resolved.url.is_empty());
    assert_eq!(resolved.url, "http://${missing_host}/api");
}

#[test]
fn to_send_request_input_maps_fields() {
    let mut req = make_request("http://example.com/api");
    req.method = HttpMethod::Post;
    req.headers.insert("Content-Type".to_string(), "application/json".to_string());
    req.body = Some(RequestBody::Json("{}".to_string()));

    let input = to_send_request_input(&req);
    assert_eq!(input.url, "http://example.com/api");
    assert_eq!(value_of(&input.headers, "Content-Type"), "application/json");
    assert!(input.body.is_some());
    assert!(input.auth.is_none());
}

#[test]
fn to_send_request_input_no_body() {
    let req = make_request("http://example.com");
    let input = to_send_request_input(&req);
    assert!(input.body.is_none());
}

#[test]
fn resolve_header_names_too_and_later_names_win() {
    let mut req = make_request("http://example.com");
    req.headers.insert("X-${a}".to_string(), "first".to_string());
    req.headers.insert("X-${b}".to_string(), "second".to_string());
    let vars = make_vars(&[("a", "Same"), ("b", "Same")]);
    let resolved = resolve_request_variables(&req, &vars);
    assert_eq!(resolved.headers.len(), 1);
    assert_eq!(value_of(&resolved.headers, "X-Same"), "second");
}

#[test]
fn finite_policy_runs_count_times() {
    let policy = LoopCount::Finite { count: 2 };
    assert!(should_iterate(&policy, 0, 1_000_000, false));
    assert!(should_iterate(&policy, 1, 0, false));
    assert!(!should_iterate(&policy, 2, 0, false));
    assert!(!should_iterate(&policy, 0, 0, true));
    assert!(!should_iterate(&LoopCount::Finite { count: 0 }, 0, 0, false));
}

#[test]
fn duration_policy_is_strict() {
    let policy = LoopCount::Duration { seconds: 2 };
    assert!(should_iterate(&policy, u64::MAX, 0, false));
    assert!(should_iterate(&policy, 7, 1, false));
    assert!(!should_iterate(&policy, 7, 2, false));
    assert!(!should_iterate(&policy, 7, 3, false));
    assert!(!should_iterate(&policy, 7, 1, true));
    assert!(!should_iterate(&LoopCount::Duration { seconds: 0 }, 0, 0, false));
}

#[test]
fn infinite_policy_stops_only_on_cancellation() {
    assert!(should_iterate(&LoopCount::Infinite, u64::MAX, u64::MAX, false));
    assert!(!should_iterate(&LoopCount::Infinite, 0, 0, true));
}

#[test]
fn next_request_skips_disabled_and_stops_when_cancelled() {
    let mut requests =
        vec![make_request("a"), make_request("b"), make_request("c"), make_request("d")];
    requests[0].enabled = false;
    requests[2].enabled = false;
    assert_eq!(next_request(&requests, 0, false), Some(1));
    assert_eq!(next_request(&requests, 1, false), Some(1));
    assert_eq!(next_request(&requests, 2, false), Some(3));
    assert_eq!(next_request(&requests, 4, false), None);
    assert_eq!(next_request(&requests, 9, false), None);
    assert_eq!(next_request(&requests, 0, true), None);
    requests[3].enabled = false;
    assert_eq!(next_request(&requests, 2, false), None);
    assert_eq!(next_request(&Vec::new(), 0, false), None);
}

#[test]
fn json_body_is_sent_compact_and_bad_json_is_an_error() {
    let shaped = shape_body(&Some(RequestBody::Json("{ \"user\" : \"alice\" }".to_string())));
    match shaped {
        Ok(Payload::Json(text)) => assert_eq!(text, "{\"user\":\"alice\"}"),
        other => panic!("expected a JSON payload, got {other:?}"),
    }
    let shaped = shape_body(&Some(RequestBody::Json("{oops".to_string())));
    match shaped {
        Err(reason) => assert!(reason.starts_with("Invalid JSON body: ")),
        other => panic!("expected an error, got {other:?}"),
    }
    let failed: Result<JsonValue, String> = Err("why".to_string());
    assert_eq!(shape_json_body(&failed).unwrap_err(), "Invalid JSON body: why");
    let parsed = Ok(JsonValue::Array(vec![JsonValue::Null, JsonValue::Bool(false)]));
    match shape_json_body(&parsed) {
        Ok(Payload::Json(text)) => assert_eq!(text, "[null,false]"),
        other => panic!("expected a JSON payload, got {other:?}"),
    }
}

#[test]
fn other_bodies_are_sent_as_they_are() {
    assert!(matches!(shape_body(&None), Ok(Payload::Empty)));
    match shape_body(&Some(RequestBody::Raw("r${x}".to_string()))) {
        Ok(Payload::Raw(text)) => assert_eq!(text, "r${x}"),
        other => panic!("expected raw text, got {other:?}"),
    }
    match shape_body(&Some(RequestBody::Xml("<a/>".to_string()))) {
        Ok(Payload::Xml(text)) => assert_eq!(text, "<a/>"),
        other => panic!("expected XML, got {other:?}"),
    }
    let pairs = vec![("a".to_string(), "1".to_string()), ("b".to_string(), "2".to_string())];
    match shape_body(&Some(RequestBody::FormData(pairs.clone()))) {
        Ok(Payload::Form(fields)) => assert_eq!(fields, pairs),
        other => panic!("expected form fields, got {other:?}"),
    }
}

#[test]
fn content_type_is_added_unless_the_request_names_one() {
    let none = StringMap::new();
    let own = make_vars(&[("Accept", "*/*"), ("CONTENT-type", "text/plain")]);
    let json = Payload::Json("{}".to_string());
    let xml = Payload::Xml("<a/>".to_string());
    let form = Payload::Form(Vec::new());
    let raw = Payload::Raw("x".to_string());
    assert_eq!(default_content_type(&json, &none).as_deref(), Some("application/json"));
    assert_eq!(default_content_type(&xml, &none).as_deref(), Some("application/xml"));
    assert_eq!(
        default_content_type(&form, &none).as_deref(),
        Some("application/x-www-form-urlencoded")
    );
    assert_eq!(default_content_type(&raw, &none), None);
    assert_eq!(default_content_type(&Payload::Empty, &none), None);
    assert_eq!(default_content_type(&json, &own), None);
    assert_eq!(default_content_type(&xml, &own), None);
    assert_eq!(default_content_type(&form, &own), None);
}

#[test]
fn preview_keeps_short_bodies_and_cuts_long_ones() {
    assert_eq!(body_preview(""), None);
    assert_eq!(body_preview("x").as_deref(), Some("x"));
    let exact = "a".repeat(4096);
    assert_eq!(body_preview(&exact).as_deref(), Some(exact.as_str()));
    let long = "a".repeat(4097);
    let expected = format!("{}…[truncated]", "a".repeat(4096));
    assert_eq!(body_preview(&long).as_deref(), Some(expected.as_str()));
}

#[test]
fn preview_never_splits_a_character() {
    let body = format!("{}é{}", "a".repeat(4095), "b".repeat(10));
    let expected = format!("{}…[truncated]", "a".repeat(4095));
    assert_eq!(body_preview(&body).as_deref(), Some(expected.as_str()));
    let body = format!("{}€€", "a".repeat(4093));
    let expected = format!("{}€…[truncated]", "a".repeat(4093));
    assert_eq!(body_preview(&body).as_deref(), Some(expected.as_str()));
    let body = "😀".repeat(1025);
    let expected = format!("{}…[truncated]", "😀".repeat(1024));
    assert_eq!(body_preview(&body).as_deref(), Some(expected.as_str()));
}

fn extraction(variable: &str, value: Option<&str>, success: bool) -> ExtractionResult {
    ExtractionResult {
        extractor_id: Uuid::new_v4(),
        extractor_name: "e".to_string(),
        variable_name: variable.to_string(),
        success,
        extracted_value: value.map(|v| v.to_string()),
        message: String::new(),
    }
}

#[test]
fn extractions_overwrite_and_failures_keep_prior_values() {
    let mut vars = make_vars(&[("token", "old"), ("keep", "kept")]);
    let results = vec![
        extraction("token", Some("new"), true),
        extraction("keep", None, false),
        extraction("fresh", Some("1"), true),
        extraction("fresh", Some("2"), true),
        extraction("ignored", Some("x"), false),
    ];
    store_extractions(&mut vars, &results);
    assert_eq!(value_of(&vars, "token"), "new");
    assert_eq!(value_of(&vars, "keep"), "kept");
    assert_eq!(value_of(&vars, "fresh"), "2");
    assert!(vars.get("ignored").is_none());
    assert_eq!(vars.len(), 3);
}

#[test]
fn event_of_a_response_holds_verdicts_and_extractions() {
    let mut req = make_request("http://stub/${path}");
    req.name = "login".to_string();
    req.method = HttpMethod::Post;
    req.assertions = vec![
        Assertion {
            id: Uuid::new_v4(),
            name: "status".to_string(),
            rule: Ok(AssertionRule::StatusCodeEquals { expected: 200 }),
        },
        Assertion {
            id: Uuid::new_v4(),
            name: "body".to_string(),
            rule: Ok(AssertionRule::BodyContains { substring: "ok".to_string() }),
        },
    ];
    req.extractors = vec![Extractor {
        id: Uuid::new_v4(),
        name: "token".to_string(),
        variable: "token".to_string(),
        expression: Ok(ExtractorRule::Regex { pattern: "o(k)".to_string(), group: 1 }),
    }];
    let mut vars = make_vars(&[("path", "ok")]);
    let resolved = resolve_request_variables(&req, &vars);
    let data = ResponseData {
        status_code: 404,
        size_bytes: 2,
        headers: make_vars(&[("content-type", "text/plain")]),
        body_text: "ok".to_string(),
    };
    let plan_id = Uuid::new_v4();
    let event = complete_request(&req, &resolved, Ok(data), 17, 1_700_000_000_000, plan_id, "group", &mut vars);
    assert_eq!(event.plan_id, plan_id);
    assert_eq!(event.thread_group_name, "group");
    assert_eq!(event.request_name, "login");
    assert_eq!(event.timestamp_ms, 1_700_000_000_000);
    assert_eq!(event.status_code, 404);
    assert_eq!(event.elapsed_ms, 17);
    assert_eq!(event.size_bytes, 2);
    assert!(!event.assertions_passed);
    assert!(event.error.is_none());
    assert_eq!(event.assertion_results.len(), 2);
    assert!(!event.assertion_results[0].passed);
    assert!(event.assertion_results[1].passed);
    assert_eq!(event.extraction_results.len(), 1);
    assert!(event.extraction_results[0].success);
    assert_eq!(event.method, "POST");
    assert_eq!(event.url, "http://stub/ok");
    assert_eq!(value_of(&event.response_headers, "content-type"), "text/plain");
    assert_eq!(event.response_body.as_deref(), Some("ok"));
    assert_eq!(value_of(&vars, "token"), "k");
}

#[test]
fn event_without_rules_passes_vacuously() {
    let req = make_request("http://stub/ok");
    let mut vars = StringMap::new();
    let resolved = resolve_request_variables(&req, &vars);
    let data = ResponseData {
        status_code: 200,
        size_bytes: 0,
        headers: StringMap::new(),
        body_text: String::new(),
    };
    let event = complete_request(&req, &resolved, Ok(data), 1, 0, Uuid::new_v4(), "g", &mut vars);
    assert!(event.assertions_passed);
    assert!(event.assertion_results.is_empty());
    assert!(event.extraction_results.is_empty());
    assert!(event.response_body.is_none());
    assert!(vars.is_empty());
}

#[test]
fn event_of_a_failure_holds_the_reason_and_nothing_else() {
    let mut req = make_request("http://${host}/x");
    req.assertions = vec![Assertion {
        id: Uuid::new_v4(),
        name: "status".to_string(),
        rule: Ok(AssertionRule::StatusCodeEquals { expected: 200 }),
    }];
    let mut vars = make_vars(&[("host", "down")]);
    let resolved = resolve_request_variables(&req, &vars);
    let event = complete_request(
        &req,
        &resolved,
        Err("Network error: refused".to_string()),
        30_000,
        5,
        Uuid::new_v4(),
        "g",
        &mut vars,
    );
    assert_eq!(event.status_code, 0);
    assert_eq!(event.size_bytes, 0);
    assert_eq!(event.elapsed_ms, 30_000);
    assert!(!event.assertions_passed);
    assert_eq!(event.error.as_deref(), Some("Network error: refused"));
    assert!(event.assertion_results.is_empty());
    assert!(event.extraction_results.is_empty());
    assert!(event.response_headers.is_empty());
    assert!(event.response_body.is_none());
    assert_eq!(event.method, "GET");
    assert_eq!(event.url, "http://down/x");
    assert_eq!(vars.len(), 1);
}

#[test]
fn response_headers_are_kept_in_lower_case_and_the_last_value_stays() {
    let arrived = vec![
        ("Content-Type".to_string(), "text/html".to_string()),
        ("X-Trace".to_string(), "1".to_string()),
        ("content-type".to_string(), "application/json".to_string()),
    ];
    let headers = rmeter::engine::virtual_user::collect_headers(&arrived);
    assert_eq!(headers.len(), 2);
    assert_eq!(value_of(&headers, "content-type"), "application/json");
    assert_eq!(value_of(&headers, "x-trace"), "1");
    assert!(headers.get("Content-Type").is_none());
}
