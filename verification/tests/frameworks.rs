//! The frameworks: arguments, listings and outcomes.

use quokka::json::{
    read_flag, read_optional_count, read_optional_text, read_required_text, JsonField,
};
use quokka::listing::{
    IgnoredPolicy, TestCase, TestCaseKind, TestCaseLocation, TestCaseMetadata,
};
use quokka::result::TestVerdict;
use quokka::translator::{
    custom_binary_decode, custom_binary_execution_args, doctest_execution_args,
    libtest_decode, libtest_execution_args, libtest_help_output, libtest_list_output,
    libtest_listing_args, libtest_user_ignored_policies, libtest_user_requests_help,
    libtest_user_requests_listing_only, libtest_user_usage_error, parse_listing,
    read_listed_case, read_reported_outcome, ListFormat, PerTestObservation, RunFormat,
};

fn object(fields: Vec<(&str, serde_json::Value)>) -> serde_json::Value {
    serde_json::Value::Object(fields.into_iter().map(|(k, v)| (k.to_owned(), v)).collect())
}

#[test]
fn libtest_list_output_uses_stable_text_by_default() {
    let tests = vec![
        TestCase::new("alpha_one".to_owned(), TestCaseKind::Test, false),
        TestCase::new("bench_five".to_owned(), TestCaseKind::Benchmark, false),
    ];

    assert_eq!(
        libtest_list_output(&["--list".to_owned()], &tests),
        "alpha_one: test\nbench_five: benchmark\n\n1 test, 1 benchmark\n"
    );
}

#[test]
fn libtest_list_output_can_emit_json() {
    let tests = vec![TestCase {
        name: "alpha_one".to_owned(),
        kind: TestCaseKind::Test,
        ignored: true,
        metadata: TestCaseMetadata {
            ignore_message: Some("slow".to_owned()),
            location: Some(TestCaseLocation {
                source_path: "src/lib.rs".to_owned(),
                start_line: 10,
                start_col: 8,
                end_line: 10,
                end_col: 17,
            }),
        },
    }];

    let output = libtest_list_output(
        &[
            "--list".to_owned(),
            "--format=json".to_owned(),
            "-Z".to_owned(),
            "unstable-options".to_owned(),
        ],
        &tests,
    );
    let lines = output.lines().collect::<Vec<_>>();
    assert_eq!(lines.len(), 3);
    assert_eq!(
        serde_json::from_str::<serde_json::Value>(lines[0]).unwrap(),
        object(vec![("type", serde_json::Value::from("suite")), ("event", serde_json::Value::from("discovery"))])
    );
    assert_eq!(
        serde_json::from_str::<serde_json::Value>(lines[1]).unwrap(),
        object(vec![("type", serde_json::Value::from("test")), ("event", serde_json::Value::from("discovered")), ("name", serde_json::Value::from("alpha_one")), ("ignore", serde_json::Value::from(true)), ("ignore_message", serde_json::Value::from("slow")), ("source_path", serde_json::Value::from("src/lib.rs")), ("start_line", serde_json::Value::from(10)), ("start_col", serde_json::Value::from(8)), ("end_line", serde_json::Value::from(10)), ("end_col", serde_json::Value::from(17))])
    );
    assert_eq!(
        serde_json::from_str::<serde_json::Value>(lines[2]).unwrap(),
        object(vec![("type", serde_json::Value::from("suite")), ("event", serde_json::Value::from("completed")), ("tests", serde_json::Value::from(1)), ("benchmarks", serde_json::Value::from(0)), ("total", serde_json::Value::from(1)), ("ignored", serde_json::Value::from(1))])
    );
}

#[test]
fn libtest_list_output_terse_omits_summary() {
    let tests = vec![TestCase::new(
        "alpha_one".to_owned(),
        TestCaseKind::Test,
        false,
    )];

    assert_eq!(
        libtest_list_output(&["--list".to_owned(), "--format=terse".to_owned()], &tests,),
        "alpha_one: test\n"
    );
}

#[test]
fn libtest_list_output_quiet_omits_summary() {
    let tests = vec![TestCase::new(
        "alpha_one".to_owned(),
        TestCaseKind::Test,
        false,
    )];

    assert_eq!(
        libtest_list_output(&["--list".to_owned(), "--quiet".to_owned()], &tests),
        "alpha_one: test\n"
    );
}

#[test]
fn libtest_list_output_junit_uses_text_list_with_summary() {
    let tests = vec![TestCase::new(
        "alpha_one".to_owned(),
        TestCaseKind::Test,
        false,
    )];

    assert_eq!(
        libtest_list_output(
            &[
                "--list".to_owned(),
                "--format=junit".to_owned(),
                "-Z".to_owned(),
                "unstable-options".to_owned(),
            ],
            &tests,
        ),
        "alpha_one: test\n\n1 test, 0 benchmarks\n"
    );
}

#[test]
fn libtest_filter_flag_selects_listing_without_reaching_execution() {
    let user_args = vec![
        "--filter".to_owned(),
        "alpha::one".to_owned(),
        "--exact".to_owned(),
        "--nocapture".to_owned(),
    ];

    assert_eq!(
        libtest_listing_args(IgnoredPolicy::ExcludeIgnored, ListFormat::Json, &user_args),
        vec![
            "-Z".to_owned(),
            "unstable-options".to_owned(),
            "--list".to_owned(),
            "--format".to_owned(),
            "json".to_owned(),
            "alpha::one".to_owned(),
            "--exact".to_owned(),
        ]
    );
    assert_eq!(
        libtest_execution_args(
            &["alpha::one"],
            IgnoredPolicy::ExcludeIgnored,
            RunFormat::Json,
            &user_args,
        ),
        vec![
            "alpha::one".to_owned(),
            "--exact".to_owned(),
            "--test-threads=1".to_owned(),
            "--color=never".to_owned(),
            "-Z".to_owned(),
            "unstable-options".to_owned(),
            "--format".to_owned(),
            "json".to_owned(),
            "--nocapture".to_owned(),
        ]
    );
}

#[test]
fn libtest_filter_equals_shape_selects_listing() {
    assert_eq!(
        libtest_listing_args(
            IgnoredPolicy::ExcludeIgnored,
            ListFormat::Text,
            &["--filter=alpha".to_owned()],
        ),
        vec!["--list".to_owned(), "alpha".to_owned()]
    );
}

#[test]
fn listing_parse_preserves_test_case_kind() {
    let text_cases = parse_listing(
        ListFormat::Text,
        b"alpha_one: test\nbench_five: benchmark\n",
        IgnoredPolicy::ExcludeIgnored,
    )
    .unwrap();
    assert_eq!(
        text_cases,
        vec![
            TestCase::new("alpha_one".to_owned(), TestCaseKind::Test, false),
            TestCase::new("bench_five".to_owned(), TestCaseKind::Benchmark, false),
        ]
    );

    let json_cases = parse_listing(
        ListFormat::Json,
        br#"{ "type": "benchmark", "event": "discovered", "name": "bench_five", "ignore": false }"#,
        IgnoredPolicy::ExcludeIgnored,
    )
    .unwrap();
    assert_eq!(
        json_cases,
        vec![TestCase::new(
            "bench_five".to_owned(),
            TestCaseKind::Benchmark,
            false,
        )]
    );
}

#[test]
fn json_benchmark_event_is_a_passing_observation() {
    let output = r#"{ "type": "suite", "event": "started", "test_count": 1 }
{ "type": "test", "event": "started", "name": "bench_five" }
{ "type": "bench", "name": "bench_five", "median": 1.0, "deviation": 0.0 }
{ "type": "suite", "event": "ok", "passed": 0, "failed": 0, "ignored": 0, "measured": 1, "filtered_out": 0 }
"#;
    let observations = libtest_decode(RunFormat::Json, output.as_bytes(), b"");
    assert_eq!(
        observations.get("bench_five"),
        Some(&PerTestObservation {
            status: TestVerdict::Pass,
            details: String::new()
        })
    );
}

#[test]
fn text_benchmark_and_report_time_lines_are_passing_observations() {
    let output = "\
running 2 tests
test alpha_one ... ok <0.001s>
test bench_five ... bench:           1.78 ns/iter (+/- 0.83)

test result: ok. 1 passed; 0 failed; 0 ignored; 1 measured; 0 filtered out; finished in 0.00s
";
    let observations = libtest_decode(RunFormat::Text, output.as_bytes(), b"");
    assert_eq!(
        observations.get("alpha_one"),
        Some(&PerTestObservation {
            status: TestVerdict::Pass,
            details: String::new()
        })
    );
    assert_eq!(
        observations.get("bench_five"),
        Some(&PerTestObservation {
            status: TestVerdict::Pass,
            details: String::new()
        })
    );
}

fn args(texts: &[&str]) -> Vec<String> {
    texts.iter().map(|t| t.to_string()).collect()
}

#[test]
fn users_can_ask_for_help_and_listings() {
    assert!(libtest_user_requests_help(&args(&["-h"])));
    assert!(!libtest_user_requests_help(&args(&["--", "-h"])));
    assert!(libtest_user_requests_listing_only(&args(&["--list"])));
    assert_eq!(
        libtest_user_ignored_policies(&args(&["--ignored", "--include-ignored"])),
        vec![IgnoredPolicy::IgnoredOnly, IgnoredPolicy::IncludeIgnored]
    );
    assert!(libtest_help_output("me").starts_with("Usage: me "));
}

#[test]
fn unknown_formats_are_usage_errors() {
    assert_eq!(
        libtest_user_usage_error(&args(&["--format", "xml"])).as_deref(),
        Some("argument for --format must be pretty, terse, json or junit (was xml)")
    );
    assert_eq!(libtest_user_usage_error(&args(&["--format=terse"])), None);
}

#[test]
fn whole_targets_keep_the_filters() {
    let user = args(&["alpha", "--exact"]);
    let run = doctest_execution_args(IgnoredPolicy::ExcludeIgnored, RunFormat::Text, &user);
    assert!(run.contains(&"alpha".to_owned()));
    assert!(custom_binary_execution_args().is_empty());
    assert!(custom_binary_decode().is_empty());
}

#[test]
fn shown_tests_read_back() {
    let tests = vec![
        TestCase::new("a::b".to_owned(), TestCaseKind::Test, false),
        TestCase::new("c".to_owned(), TestCaseKind::Benchmark, false),
    ];
    let shown = libtest_list_output(&args(&["--list"]), &tests);
    let read = parse_listing(ListFormat::Text, shown.as_bytes(), IgnoredPolicy::ExcludeIgnored);
    assert_eq!(read.unwrap(), tests);
}

#[test]
fn listings_that_are_no_text_are_refused() {
    assert!(parse_listing(ListFormat::Text, &[0xff], IgnoredPolicy::ExcludeIgnored).is_err());
}

#[test]
fn ignored_tests_are_listed_by_policy() {
    let line =
        br#"{ "type": "test", "event": "discovered", "name": "slow", "ignore": true, "ignore_message": "why" }"#;
    let of = |policy| parse_listing(ListFormat::Json, line, policy).unwrap().len();
    assert_eq!(of(IgnoredPolicy::ExcludeIgnored), 0);
    assert_eq!(of(IgnoredPolicy::IncludeIgnored), 1);
    assert_eq!(of(IgnoredPolicy::IgnoredOnly), 1);
}

#[test]
fn failures_carry_their_output() {
    let json = br#"{ "type": "test", "event": "failed", "name": "t", "stdout": "boom\n" }
{ "type": "test", "event": "ignored", "name": "i" }
{ "type": "test", "event": "timeout", "name": "late" }
not json
"#;
    let seen = libtest_decode(RunFormat::Json, json, b"");
    assert_eq!(seen.get("t").unwrap().status, TestVerdict::Fail);
    assert!(seen.get("t").unwrap().details.contains("boom"));
    assert_eq!(seen.get("i").unwrap().status, TestVerdict::Skip);
    let text = b"test t ... FAILED\n\nfailures:\n\n---- t stdout ----\npanicked\n\n\nfailures:\n    t\n";
    let seen = libtest_decode(RunFormat::Text, text, b"");
    assert_eq!(seen.get("t").unwrap().status, TestVerdict::Fail);
    assert!(seen.get("t").unwrap().details.contains("panicked"));
}

fn fields(list: Vec<(&str, JsonField)>) -> Vec<(String, JsonField)> {
    list.into_iter().map(|(k, v)| (k.to_owned(), v)).collect()
}

#[test]
fn members_of_objects_are_read_by_type() {
    let object = fields(vec![
        ("text", JsonField::Text("x".to_owned())),
        ("count", JsonField::Count(4)),
        ("flag", JsonField::Bool(true)),
        ("nothing", JsonField::Null),
    ]);
    assert_eq!(read_required_text(&object, "text"), Some("x".to_owned()));
    assert_eq!(read_required_text(&object, "count"), None);
    assert_eq!(read_optional_text(&object, "absent"), Some(None));
    assert_eq!(read_optional_text(&object, "nothing"), Some(None));
    assert_eq!(read_optional_text(&object, "flag"), None);
    assert_eq!(read_optional_count(&object, "count"), Some(Some(4)));
    assert_eq!(read_flag(&object, "flag"), Some(true));
}

#[test]
fn listed_and_reported_events_are_read_from_their_members() {
    let listed = read_listed_case(&fields(vec![
        ("type", JsonField::Text("test".to_owned())),
        ("event", JsonField::Text("discovered".to_owned())),
        ("name", JsonField::Text("n".to_owned())),
        ("ignore", JsonField::Bool(false)),
    ]));
    assert_eq!(listed, Some(TestCase::new("n".to_owned(), TestCaseKind::Test, false)));
    let reported = read_reported_outcome(&fields(vec![
        ("type", JsonField::Text("test".to_owned())),
        ("event", JsonField::Text("ok".to_owned())),
        ("name", JsonField::Text("n".to_owned())),
    ]));
    let (name, seen) = reported.unwrap();
    assert_eq!(name, "n");
    assert_eq!(seen.status, TestVerdict::Pass);
}

#[test]
fn shown_objects_read_back() {
    let tests = vec![
        TestCase::new("m::quoted \"name\"\n\u{1}".to_owned(), TestCaseKind::Test, false),
        TestCase {
            name: "slow".to_owned(),
            kind: TestCaseKind::Benchmark,
            ignored: true,
            metadata: TestCaseMetadata {
                ignore_message: Some("a\\b".to_owned()),
                location: Some(TestCaseLocation {
                    source_path: "src/lib.rs".to_owned(),
                    start_line: 1,
                    start_col: 0,
                    end_line: u64::MAX,
                    end_col: 9,
                }),
            },
        },
    ];
    let shown = libtest_list_output(&args(&["--list", "--format=json"]), &tests);
    let read = |policy| parse_listing(ListFormat::Json, shown.as_bytes(), policy).expect("UTF-8");
    assert_eq!(read(IgnoredPolicy::IncludeIgnored), tests);
    assert_eq!(read(IgnoredPolicy::ExcludeIgnored), tests[..1]);
    assert_eq!(read(IgnoredPolicy::IgnoredOnly), tests[1..]);
}

#[test]
fn unknown_members_are_passed_over() {
    let line = "{\"type\":\"test\",\"name\":\"n\",\"event\":\"discovered\",\"a\":1e999,\"b\":\"\\ud800\",\"c\":[{}]}";
    let read = parse_listing(ListFormat::Json, line.as_bytes(), IgnoredPolicy::ExcludeIgnored);
    assert_eq!(
        read.expect("UTF-8"),
        vec![TestCase::new("n".to_owned(), TestCaseKind::Test, false)]
    );
    for line in [
        "{\"type\":\"test\",\"name\":7}",
        "{\"type\":\"test\",\"name\":\"\\ud800\"}",
        "{\"type\":\"test\",\"name\":\"n\",\"ignore\":null}",
        "{\"type\":\"test\",\"name\":\"n\",\"start_line\":-1}",
        "{\"type\":\"test\",\"name\":\"n\"} {}",
        "[\"test\"]",
    ] {
        let read = parse_listing(ListFormat::Json, line.as_bytes(), IgnoredPolicy::ExcludeIgnored);
        assert_eq!(read.expect("UTF-8"), Vec::new(), "{line}");
    }
}
