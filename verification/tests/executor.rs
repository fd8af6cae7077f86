use rmeter::engine::executor::{
    check_runnable, enabled_requests, enabled_thread_groups, plan_user, ramp_delay_ms,
    CsvDataSet, Engine, EngineEvent, EngineInput, UserSlot,
};
use rmeter::engine::EngineStatus;
use rmeter::error::RmeterError;
use rmeter::plan::model::{
    CsvDataSource, CsvSharingMode, HttpMethod, HttpRequest, LoopCount, TestPlan, ThreadGroup,
};
use rmeter::results::RequestResultEvent;
use rmeter::string_map::StringMap;
use uuid::Uuid;

fn source(columns: &[&str], rows: &[&[&str]], recycle: bool) -> CsvDataSource {
    CsvDataSource {
        id: Uuid::new_v4(),
        name: "data".to_string(),
        columns: columns.iter().map(|c| c.to_string()).collect(),
        rows: rows.iter().map(|r| r.iter().map(|v| v.to_string()).collect()).collect(),
        sharing_mode: CsvSharingMode::AllThreads,
        recycle,
    }
}

fn value_of<'a>(map: &'a StringMap, name: &str) -> Option<&'a str> {
    map.get(name).map(|v| v.as_str())
}

fn request(enabled: bool) -> HttpRequest {
    HttpRequest {
        id: Uuid::new_v4(),
        name: "r".to_string(),
        method: HttpMethod::Get,
        url: "http://stub/ok".to_string(),
        headers: StringMap::new(),
        body: None,
        assertions: Vec::new(),
        extractors: Vec::new(),
        enabled,
    }
}

fn group(enabled: bool) -> ThreadGroup {
    ThreadGroup {
        id: Uuid::new_v4(),
        name: "g".to_string(),
        num_threads: 1,
        ramp_up_seconds: 0,
        loop_count: LoopCount::default(),
        requests: vec![request(true)],
        enabled,
    }
}

fn result(elapsed_ms: u64, error: Option<&str>, size_bytes: u64) -> RequestResultEvent {
    RequestResultEvent {
        id: Uuid::new_v4(),
        plan_id: Uuid::new_v4(),
        thread_group_name: "g".to_string(),
        request_name: "r".to_string(),
        timestamp_ms: 0,
        status_code: if error.is_some() { 0 } else { 200 },
        elapsed_ms,
        size_bytes,
        assertions_passed: error.is_none(),
        error: error.map(|e| e.to_string()),
        assertion_results: Vec::new(),
        extraction_results: Vec::new(),
        method: "GET".to_string(),
        url: "http://stub/ok".to_string(),
        response_headers: StringMap::new(),
        response_body: None,
    }
}

#[test]
fn recycling_source_wraps_around() {
    let rows: [&[&str]; 3] = [&["a", "1"], &["b", "2"], &["c", "3"]];
    let mut set = CsvDataSet::from_sources(&vec![source(&["u", "p"], &rows, true)]);
    assert!(!set.is_empty());
    let mut seen = Vec::new();
    for _ in 0..4 {
        let row = set.next_row();
        seen.push((
            value_of(&row, "u").unwrap().to_string(),
            value_of(&row, "p").unwrap().to_string(),
        ));
    }
    let expected: Vec<(String, String)> = [("a", "1"), ("b", "2"), ("c", "3"), ("a", "1")]
        .iter()
        .map(|(u, p)| (u.to_string(), p.to_string()))
        .collect();
    assert_eq!(seen, expected);
}

#[test]
fn exhausted_source_gives_nothing() {
    let rows: [&[&str]; 2] = [&["a"], &["b"]];
    let mut set = CsvDataSet::from_sources(&vec![source(&["u"], &rows, false)]);
    assert_eq!(value_of(&set.next_row(), "u"), Some("a"));
    assert_eq!(value_of(&set.next_row(), "u"), Some("b"));
    assert!(set.next_row().is_empty());
    assert!(set.next_row().is_empty());
}

#[test]
fn sources_merge_and_later_ones_override() {
    let first: [&[&str]; 1] = [&["1", "x"]];
    let second: [&[&str]; 2] = [&["2"], &["3", "ignored"]];
    let empty: [&[&str]; 0] = [];
    let mut set = CsvDataSet::from_sources(&vec![
        source(&["id", "only_first"], &first, true),
        source(&["none"], &empty, true),
        source(&["id"], &second, true),
    ]);
    let row = set.next_row();
    assert_eq!(value_of(&row, "id"), Some("2"));
    assert_eq!(value_of(&row, "only_first"), Some("x"));
    assert_eq!(value_of(&row, "none"), None);
    assert_eq!(row.len(), 2);
    let row = set.next_row();
    assert_eq!(value_of(&row, "id"), Some("3"));
}

#[test]
fn short_rows_fill_only_their_columns() {
    let rows: [&[&str]; 1] = [&["only"]];
    let mut set = CsvDataSet::from_sources(&vec![source(&["a", "b"], &rows, true)]);
    let row = set.next_row();
    assert_eq!(value_of(&row, "a"), Some("only"));
    assert_eq!(value_of(&row, "b"), None);
}

#[test]
fn no_sources_is_empty() {
    let mut set = CsvDataSet::from_sources(&Vec::new());
    assert!(set.is_empty());
    assert!(set.next_row().is_empty());
}

#[test]
fn ramp_delay_spreads_the_ramp_over_the_gaps() {
    assert_eq!(ramp_delay_ms(5, 4), 1000);
    assert_eq!(ramp_delay_ms(3, 10), 5000);
    assert_eq!(ramp_delay_ms(4, 10), 3333);
    assert_eq!(ramp_delay_ms(2, 1), 1000);
    assert_eq!(ramp_delay_ms(1, 10), 0);
    assert_eq!(ramp_delay_ms(0, 10), 0);
    assert_eq!(ramp_delay_ms(5, 0), 0);
    assert_eq!(ramp_delay_ms(u32::MAX, u32::MAX), 1000);
    assert_eq!(ramp_delay_ms(2, u32::MAX), u32::MAX as u64 * 1000);
}

#[test]
fn no_threads_means_no_users() {
    for user_id in [0, 1, 7, u32::MAX] {
        assert_eq!(plan_user(user_id, 0, 10, 3, false), None);
    }
}

#[test]
fn first_user_starts_at_once_and_the_others_wait() {
    assert_eq!(plan_user(0, 5, 4, 1, false), Some(UserSlot { wait_ms: 0, start: true }));
    assert_eq!(plan_user(1, 5, 4, 1, false), Some(UserSlot { wait_ms: 1000, start: true }));
    assert_eq!(plan_user(4, 5, 4, 1, false), Some(UserSlot { wait_ms: 1000, start: true }));
    assert_eq!(plan_user(5, 5, 4, 1, false), None);
    assert_eq!(plan_user(1, 5, 4, 1, true), None);
    assert_eq!(plan_user(1, 5, 4, 0, false), Some(UserSlot { wait_ms: 1000, start: false }));
    assert_eq!(plan_user(2, 3, 0, 2, false), Some(UserSlot { wait_ms: 0, start: true }));
}

#[test]
fn enabled_parts_are_listed_in_order() {
    let requests = vec![request(false), request(true), request(true), request(false)];
    assert_eq!(enabled_requests(&requests), vec![1, 2]);
    assert!(enabled_requests(&Vec::new()).is_empty());
    let groups = vec![group(true), group(false), group(true)];
    assert_eq!(enabled_thread_groups(&groups), vec![0, 2]);
}

#[test]
fn plan_without_enabled_group_is_rejected() {
    let mut plan = TestPlan::new("p".to_string());
    match check_runnable(&plan) {
        Err(RmeterError::Validation(message)) => {
            assert_eq!(message, "Test plan has no enabled thread groups")
        }
        other => panic!("expected a validation error, got {other:?}"),
    }
    plan.thread_groups.push(group(false));
    assert!(check_runnable(&plan).is_err());
    plan.thread_groups.push(group(true));
    assert!(check_runnable(&plan).is_ok());
}

fn kinds(events: &[EngineEvent]) -> Vec<&'static str> {
    events
        .iter()
        .map(|e| match e {
            EngineEvent::RequestResult(_) => "result",
            EngineEvent::Progress { .. } => "progress",
            EngineEvent::StatusChange { status: EngineStatus::Running } => "running",
            EngineEvent::StatusChange { status: EngineStatus::Completed } => "completed",
            EngineEvent::StatusChange { status: EngineStatus::Error } => "error",
            EngineEvent::StatusChange { .. } => "other",
            EngineEvent::Complete { .. } => "complete",
        })
        .collect()
}

#[test]
fn a_run_ends_with_completed_then_the_summary() {
    let plan_id = Uuid::new_v4();
    let mut engine = Engine::new(plan_id, "Plan".to_string());
    assert_eq!(engine.status(), EngineStatus::Idle);
    let mut all = Vec::new();
    all.extend(engine.handle(EngineInput::Tick { active_threads: 1 }));
    all.extend(engine.handle(EngineInput::Drained));
    assert!(all.is_empty());
    all.extend(engine.handle(EngineInput::Start));
    assert_eq!(engine.status(), EngineStatus::Running);
    all.extend(engine.handle(EngineInput::Start));
    all.extend(engine.handle(EngineInput::Tick { active_threads: 3 }));
    all.extend(engine.handle(EngineInput::Result(result(10, None, 100))));
    all.extend(engine.handle(EngineInput::Result(result(30, Some("Network error"), 0))));
    all.extend(engine.handle(EngineInput::Result(result(20, None, 50))));
    all.extend(engine.handle(EngineInput::Tick { active_threads: 0 }));
    all.extend(engine.handle(EngineInput::Drained));
    assert_eq!(engine.status(), EngineStatus::Completed);
    all.extend(engine.handle(EngineInput::Drained));
    all.extend(engine.handle(EngineInput::Result(result(1, None, 1))));
    all.extend(engine.handle(EngineInput::ClientFailed));
    all.extend(engine.handle(EngineInput::Start));
    assert_eq!(engine.status(), EngineStatus::Completed);
    assert_eq!(
        kinds(&all),
        vec![
            "running", "progress", "result", "result", "result", "progress", "completed",
            "complete"
        ]
    );
    match &all[1] {
        EngineEvent::Progress { completed_requests, active_threads, .. } => {
            assert_eq!(*completed_requests, 0);
            assert_eq!(*active_threads, 3);
        }
        other => panic!("expected progress, got {other:?}"),
    }
    match &all[5] {
        EngineEvent::Progress {
            completed_requests,
            total_errors,
            active_threads,
            sum_ms,
            p95_ms,
            min_ms,
            max_ms,
            ..
        } => {
            assert_eq!(
                (*completed_requests, *total_errors, *active_threads, *sum_ms, *p95_ms, *min_ms, *max_ms),
                (3, 1, 0, 60, 30, 10, 30)
            );
        }
        other => panic!("expected progress, got {other:?}"),
    }
    match &all[7] {
        EngineEvent::Complete { summary } => {
            assert_eq!(summary.plan_id, plan_id);
            assert_eq!(summary.plan_name, "Plan");
            assert_eq!(summary.total_requests, 3);
            assert_eq!(summary.successful_requests, 2);
            assert_eq!(summary.failed_requests, 1);
            assert_eq!(summary.min_response_ms, 10);
            assert_eq!(summary.p50_response_ms, 20);
            assert_eq!(summary.p95_response_ms, 30);
            assert_eq!(summary.p99_response_ms, 30);
            assert_eq!(summary.max_response_ms, 30);
            assert_eq!(summary.sum_response_ms, 60);
            assert_eq!(summary.total_bytes_received, 150);
            assert!(summary.started_at_ms <= summary.finished_at_ms);
        }
        other => panic!("expected the summary, got {other:?}"),
    }
    assert_eq!(engine.aggregator().total_requests(), 3);
}

#[test]
fn a_failed_start_ends_in_error_without_summary() {
    let mut engine = Engine::new(Uuid::new_v4(), "Plan".to_string());
    let mut all = Vec::new();
    all.extend(engine.handle(EngineInput::ClientFailed));
    all.extend(engine.handle(EngineInput::Start));
    all.extend(engine.handle(EngineInput::ClientFailed));
    all.extend(engine.handle(EngineInput::Drained));
    all.extend(engine.handle(EngineInput::Result(result(1, None, 1))));
    all.extend(engine.handle(EngineInput::Tick { active_threads: 0 }));
    assert_eq!(kinds(&all), vec!["running", "error"]);
    assert_eq!(engine.status(), EngineStatus::Error);
    assert_eq!(engine.aggregator().total_requests(), 0);
}

#[test]
fn a_result_is_forwarded_as_it_came() {
    let mut engine = Engine::new(Uuid::new_v4(), "Plan".to_string());
    engine.handle(EngineInput::Start);
    let incoming = result(12, Some("boom"), 7);
    let id = incoming.id;
    let events = engine.handle(EngineInput::Result(incoming));
    assert_eq!(events.len(), 1);
    match &events[0] {
        EngineEvent::RequestResult(forwarded) => {
            assert_eq!(forwarded.id, id);
            assert_eq!(forwarded.elapsed_ms, 12);
            assert_eq!(forwarded.error.as_deref(), Some("boom"));
        }
        other => panic!("expected the result, got {other:?}"),
    }
    assert_eq!(engine.aggregator().total_requests(), 1);
    assert_eq!(engine.aggregator().total_errors(), 1);
    assert_eq!(engine.aggregator().total_bytes(), 7);
}

#[test]
fn run_settings_are_those_of_a_load_test() {
    let settings = rmeter::engine::executor::run_client_settings();
    assert_eq!(settings.timeout_ms(), 30_000);
    assert_eq!(settings.max_idle_per_host(), 100);
    assert_eq!(settings.pool_idle_timeout_ms(), 90_000);
    assert_eq!(settings.agent(), "rmeter/0.1.0");
    assert!(!settings.accepts_invalid_certs());
    assert_eq!(rmeter::engine::executor::RESULT_CHANNEL_CAPACITY, 4096);
    assert_eq!(rmeter::engine::executor::PROGRESS_INTERVAL_MS, 500);
}

#[test]
fn variables_are_seeded_from_the_plan() {
    let variable = |name: &str, value: &str| rmeter::plan::model::Variable {
        id: Uuid::new_v4(),
        name: name.to_string(),
        value: value.to_string(),
        scope: rmeter::plan::model::VariableScope::Plan,
    };
    let store = rmeter::engine::executor::seed_variables(&vec![
        variable("name", "alice"),
        variable("host", "stub"),
        variable("name", "bob"),
    ]);
    assert_eq!(store.len(), 2);
    assert_eq!(value_of(&store, "name"), Some("bob"));
    assert_eq!(value_of(&store, "host"), Some("stub"));
}

#[test]
fn rows_are_merged_into_the_variables_in_counter_order() {
    let rows: [&[&str]; 3] = [&["a", "1"], &["b", "2"], &["c", "3"]];
    let mut set = CsvDataSet::from_sources(&vec![source(&["u", "p"], &rows, true)]);
    let mut variables = StringMap::new();
    variables.insert("u".to_string(), "plan".to_string());
    variables.insert("other".to_string(), "kept".to_string());
    let mut seen = Vec::new();
    for _ in 0..4 {
        rmeter::engine::executor::merge_next_row(&mut set, &mut variables);
        seen.push(value_of(&variables, "u").unwrap().to_string());
        assert_eq!(value_of(&variables, "other"), Some("kept"));
    }
    assert_eq!(seen, vec!["a", "b", "c", "a"]);

    let mut none = CsvDataSet::from_sources(&Vec::new());
    rmeter::engine::executor::merge_next_row(&mut none, &mut variables);
    assert_eq!(value_of(&variables, "u"), Some("a"));
    assert_eq!(variables.len(), 3);
}
