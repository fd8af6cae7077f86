use rmeter::plan::model::{
    default_format_version, default_true, CsvDataSource, CsvRead, CsvSharingMode, HttpMethod,
    LoopCount, RequestBody, TestPlan, VariableScope,
};

#[test]
fn http_method_display() {
    assert_eq!(HttpMethod::Get.to_string(), "GET");
    assert_eq!(HttpMethod::Post.to_string(), "POST");
    assert_eq!(HttpMethod::Put.to_string(), "PUT");
    assert_eq!(HttpMethod::Delete.to_string(), "DELETE");
    assert_eq!(HttpMethod::Patch.to_string(), "PATCH");
    assert_eq!(HttpMethod::Head.to_string(), "HEAD");
    assert_eq!(HttpMethod::Options.to_string(), "OPTIONS");
}

#[test]
fn http_method_equality() {
    assert_eq!(HttpMethod::Get, HttpMethod::Get);
    assert_ne!(HttpMethod::Get, HttpMethod::Post);
}

#[test]
fn request_body_json_construction_and_match() {
    let body = RequestBody::Json("{\"key\": \"value\"}".to_string());
    match body {
        RequestBody::Json(s) => assert_eq!(s, "{\"key\": \"value\"}"),
        _ => panic!("expected Json variant"),
    }
}

#[test]
fn request_body_form_data_construction_and_match() {
    let body = RequestBody::FormData(vec![
        ("key1".to_string(), "val1".to_string()),
        ("key2".to_string(), "val2".to_string()),
    ]);
    match body {
        RequestBody::FormData(pairs) => {
            assert_eq!(pairs.len(), 2);
            assert_eq!(pairs[0], ("key1".to_string(), "val1".to_string()));
        }
        _ => panic!("expected FormData variant"),
    }
}

#[test]
fn request_body_raw_construction_and_match() {
    let body = RequestBody::Raw("raw text body".to_string());
    match body {
        RequestBody::Raw(s) => assert_eq!(s, "raw text body"),
        _ => panic!("expected Raw variant"),
    }
}

#[test]
fn request_body_xml_construction_and_match() {
    let body = RequestBody::Xml("<root/>".to_string());
    match body {
        RequestBody::Xml(s) => assert_eq!(s, "<root/>"),
        _ => panic!("expected Xml variant"),
    }
}

#[test]
fn loop_count_default_is_finite_one() {
    let lc = LoopCount::default();
    match lc {
        LoopCount::Finite { count } => assert_eq!(count, 1),
        _ => panic!("expected Finite"),
    }
}

#[test]
fn variable_scope_default_is_plan() {
    let scope = VariableScope::default();
    assert!(matches!(scope, VariableScope::Plan));
}

#[test]
fn csv_sharing_mode_default_is_all_threads() {
    assert!(matches!(CsvSharingMode::default(), CsvSharingMode::AllThreads));
}

#[test]
fn defaults_of_a_plan() {
    assert!(default_true());
    assert_eq!(default_format_version(), 1);
    let plan = TestPlan::new("My Plan".to_string());
    assert_eq!(plan.name, "My Plan");
    assert!(plan.description.is_empty());
    assert!(plan.thread_groups.is_empty());
    assert!(plan.variables.is_empty());
    assert!(plan.csv_data_sources.is_empty());
    assert_eq!(plan.format_version, 1);
    let other = TestPlan::new("My Plan".to_string());
    assert_ne!(plan.id, other.id);
}

#[test]
fn http_method_as_str_agrees_with_to_string() {
    for method in [
        HttpMethod::Get,
        HttpMethod::Post,
        HttpMethod::Put,
        HttpMethod::Delete,
        HttpMethod::Patch,
        HttpMethod::Head,
        HttpMethod::Options,
    ] {
        assert_eq!(method.as_str(), method.to_string());
    }
}

#[test]
fn test_plan_new_has_defaults() {
    let plan = TestPlan::new("My Plan".to_string());
    assert_eq!(plan.name, "My Plan");
    assert_eq!(plan.description, "");
    assert!(plan.thread_groups.is_empty());
    assert!(plan.variables.is_empty());
    assert_eq!(plan.format_version, 1);
}

#[test]
fn test_plan_new_generates_unique_ids() {
    let plan1 = TestPlan::new("Plan 1".to_string());
    let plan2 = TestPlan::new("Plan 2".to_string());
    assert_ne!(plan1.id, plan2.id);
}

#[test]
fn csv_content_becomes_a_data_source() {
    let source = CsvDataSource::from_csv_content(
        "users".to_string(),
        " u , p\na,1\n\"b,1\",2\nc\n",
        b',',
    )
    .unwrap();
    assert_eq!(source.name, "users");
    assert_eq!(source.columns, vec!["u", "p"]);
    assert_eq!(
        source.rows,
        vec![
            vec!["a".to_string(), "1".to_string()],
            vec!["b,1".to_string(), "2".to_string()],
            vec!["c".to_string()],
        ]
    );
    assert!(source.recycle);
    assert!(matches!(source.sharing_mode, CsvSharingMode::AllThreads));
}

#[test]
fn csv_content_with_another_delimiter() {
    let source = CsvDataSource::from_csv_content(
        "d".to_string(),
        "a;b\n1;2\n",
        b';',
    )
    .unwrap();
    assert_eq!(source.columns, vec!["a", "b"]);
    assert_eq!(source.rows, vec![vec!["1".to_string(), "2".to_string()]]);
}

#[test]
fn csv_content_without_columns_or_rows_is_refused() {
    let made = CsvDataSource::from_csv_content("d".to_string(), "", b',');
    assert_eq!(made.unwrap_err(), "CSV has no columns");
    let made =
        CsvDataSource::from_csv_content("d".to_string(), "a,b\n", b',');
    assert_eq!(made.unwrap_err(), "CSV has no data rows");
}

#[test]
fn csv_read_outcomes_are_told_apart() {
    let made = CsvDataSource::from_csv_read("d".to_string(), CsvRead::HeaderError("x".to_string()));
    assert_eq!(made.unwrap_err(), "Failed to read CSV headers: x");
    let made = CsvDataSource::from_csv_read(
        "d".to_string(),
        CsvRead::RowError { headers: vec!["a".to_string()], message: "y".to_string() },
    );
    assert_eq!(made.unwrap_err(), "Failed to read CSV row: y");
    let made = CsvDataSource::from_csv_read(
        "d".to_string(),
        CsvRead::RowError { headers: Vec::new(), message: "y".to_string() },
    );
    assert_eq!(made.unwrap_err(), "CSV has no columns");
    let made = CsvDataSource::from_csv_read(
        "d".to_string(),
        CsvRead::Table {
            headers: vec!["\t a b \u{a0}".to_string(), "".to_string()],
            rows: vec![Vec::new()],
        },
    )
    .unwrap();
    assert_eq!(made.columns, vec!["a b", ""]);
    assert_eq!(made.rows, vec![Vec::<String>::new()]);
}
