use rmeter::plan::model::{HttpMethod, HttpRequest, LoopCount, TestPlan, ThreadGroup};
use rmeter::plan::validation::validate_plan;
use rmeter::string_map::StringMap;
use uuid::Uuid;

fn make_valid_request(url: &str) -> HttpRequest {
    HttpRequest {
        id: Uuid::new_v4(),
        name: "Valid Request".to_string(),
        method: HttpMethod::Get,
        url: url.to_string(),
        headers: StringMap::new(),
        body: None,
        assertions: Vec::new(),
        extractors: Vec::new(),
        enabled: true,
    }
}

fn make_valid_thread_group(requests: Vec<HttpRequest>) -> ThreadGroup {
    ThreadGroup {
        id: Uuid::new_v4(),
        name: "Thread Group".to_string(),
        num_threads: 5,
        ramp_up_seconds: 2,
        loop_count: LoopCount::Finite { count: 10 },
        requests,
        enabled: true,
    }
}

fn make_valid_plan(name: &str, thread_groups: Vec<ThreadGroup>) -> TestPlan {
    TestPlan {
        id: Uuid::new_v4(),
        name: name.to_string(),
        description: String::new(),
        thread_groups,
        variables: Vec::new(),
        csv_data_sources: Vec::new(),
        format_version: 1,
    }
}

fn messages(plan: &TestPlan) -> Vec<String> {
    validate_plan(plan).iter().map(|e| e.to_string()).collect()
}

#[test]
fn valid_plan_produces_no_errors() {
    let req = make_valid_request("https://example.com/api");
    let tg = make_valid_thread_group(vec![req]);
    let plan = make_valid_plan("My Plan", vec![tg]);
    let errors = validate_plan(&plan);
    assert!(errors.is_empty(), "Expected no errors, got: {:?}", errors);
}

#[test]
fn empty_plan_name_produces_error() {
    let plan = make_valid_plan("", vec![]);
    let errors = validate_plan(&plan);
    assert!(!errors.is_empty());
    assert!(errors.iter().any(|e| e.to_string().contains("name must not be empty")));
}

#[test]
fn whitespace_only_plan_name_produces_error() {
    let plan = make_valid_plan("   ", vec![]);
    let errors = validate_plan(&plan);
    assert!(!errors.is_empty());
}

#[test]
fn plan_with_no_thread_groups_is_valid() {
    let plan = make_valid_plan("Empty Plan", vec![]);
    let errors = validate_plan(&plan);
    assert!(errors.is_empty());
}

#[test]
fn thread_group_with_zero_threads_produces_error() {
    let mut tg = make_valid_thread_group(vec![]);
    tg.num_threads = 0;
    let plan = make_valid_plan("Plan", vec![tg]);
    let errors = validate_plan(&plan);
    assert!(!errors.is_empty());
    assert!(errors.iter().any(|e| e.to_string().contains("num_threads must be at least 1")));
}

#[test]
fn thread_group_with_empty_name_produces_error() {
    let mut tg = make_valid_thread_group(vec![]);
    tg.name = "   ".to_string();
    let plan = make_valid_plan("Plan", vec![tg]);
    let errors = validate_plan(&plan);
    assert!(!errors.is_empty());
}

#[test]
fn multiple_thread_groups_all_validated() {
    let mut tg1 = make_valid_thread_group(vec![]);
    tg1.num_threads = 0;
    let mut tg2 = make_valid_thread_group(vec![]);
    tg2.num_threads = 0;
    let plan = make_valid_plan("Plan", vec![tg1, tg2]);
    let errors = validate_plan(&plan);
    assert!(errors.len() >= 2);
}

#[test]
fn request_with_empty_url_produces_error() {
    let req = make_valid_request("");
    let tg = make_valid_thread_group(vec![req]);
    let plan = make_valid_plan("Plan", vec![tg]);
    let errors = validate_plan(&plan);
    assert!(!errors.is_empty());
    assert!(errors.iter().any(|e| e.to_string().contains("URL must not be empty")));
}

#[test]
fn request_with_http_url_is_valid() {
    let req = make_valid_request("http://example.com/api");
    let tg = make_valid_thread_group(vec![req]);
    let plan = make_valid_plan("Plan", vec![tg]);
    let errors = validate_plan(&plan);
    assert!(errors.is_empty());
}

#[test]
fn request_with_https_url_is_valid() {
    let req = make_valid_request("https://api.example.com/v2/users");
    let tg = make_valid_thread_group(vec![req]);
    let plan = make_valid_plan("Plan", vec![tg]);
    let errors = validate_plan(&plan);
    assert!(errors.is_empty());
}

#[test]
fn request_without_http_scheme_produces_error() {
    let req = make_valid_request("ftp://example.com/file");
    let tg = make_valid_thread_group(vec![req]);
    let plan = make_valid_plan("Plan", vec![tg]);
    let errors = validate_plan(&plan);
    assert!(!errors.is_empty());
    assert!(errors.iter().any(|e| e.to_string().contains("URL must start with http://")));
}

#[test]
fn request_with_variable_placeholder_url_is_valid() {
    let req = make_valid_request("{{base_url}}/api/users");
    let tg = make_valid_thread_group(vec![req]);
    let plan = make_valid_plan("Plan", vec![tg]);

    let req_full = make_valid_request("{{https://example.com}}/api");
    let tg_full = make_valid_thread_group(vec![req_full]);
    let plan_full = make_valid_plan("Plan Full", vec![tg_full]);
    let errors = validate_plan(&plan_full);
    assert!(errors.is_empty(), "Expected no errors for placeholder URL, got: {:?}", errors);

    let errors_bare = validate_plan(&plan);
    assert!(!errors_bare.is_empty());
}

#[test]
fn multiple_errors_accumulate_across_levels() {
    let bad_req = make_valid_request("");
    let mut bad_tg = make_valid_thread_group(vec![bad_req]);
    bad_tg.num_threads = 0;
    let plan = make_valid_plan("  ", vec![bad_tg]);
    let errors = validate_plan(&plan);
    assert!(errors.len() >= 3, "Expected >= 3 errors, got: {:?}", errors);
}

#[test]
fn errors_come_in_order_with_exact_messages() {
    let mut first = make_valid_thread_group(vec![
        make_valid_request("  \t"),
        make_valid_request(" \u{a0}https://ok.example \n"),
        make_valid_request("{{{http://odd}"),
    ]);
    first.name = "\u{2003}".to_string();
    first.num_threads = 0;
    let id = first.id;
    let second = make_valid_thread_group(vec![make_valid_request("{h}ttp://x")]);
    let plan = make_valid_plan("\n", vec![first, second]);
    assert_eq!(
        messages(&plan),
        vec![
            "Validation error: Test plan name must not be empty".to_string(),
            format!("Validation error: Thread group '{id}' name must not be empty"),
            "Validation error: Thread group '\u{2003}': num_threads must be at least 1".to_string(),
            "Validation error: Request 'Valid Request': URL must not be empty".to_string(),
            "Validation error: Request 'Valid Request': URL must start with http:// or https:// (got:   \t)"
                .to_string(),
            "Validation error: Request 'Valid Request': URL must start with http:// or https:// (got: {{{http://odd})"
                .to_string(),
            "Validation error: Request 'Valid Request': URL must start with http:// or https:// (got: {h}ttp://x)"
                .to_string(),
        ]
    );
}

#[test]
fn braces_are_dropped_in_pairs_from_the_left() {
    for (url, valid) in [
        ("{{}}http://x", true),
        ("h{{t}}tp://x", true),
        ("{{{{https://x", true),
        ("}}{{http{{}}s://x", true),
        ("{http://x", false),
        ("{{{http://x", false),
        ("http:/{{/}}x", true),
        ("HTTP://x", false),
        ("http:/", false),
    ] {
        let plan = make_valid_plan(
            "Plan",
            vec![make_valid_thread_group(vec![make_valid_request(url)])],
        );
        assert_eq!(validate_plan(&plan).is_empty(), valid, "{url}");
    }
}
