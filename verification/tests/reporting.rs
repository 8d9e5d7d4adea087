use junit_notify::digits::u32_to_string;
use junit_notify::formatter::icon;
use junit_notify::formatter::test_report_message;
use junit_notify::formatter::test_report_message_extended;
use junit_notify::formatter::total_tests;
use junit_notify::router::route_event;
use junit_notify::router::update_path_and_notify;
use junit_notify::router::WatchEvent;
use junit_notify::store::AggregateStore;
use junit_notify::suite::SuiteResult;

fn suite(name: &str, tests: u32, failures: u32, errors: u32) -> SuiteResult {
    SuiteResult { name: name.to_string(), tests, failures, errors }
}

#[test]
fn decimal_rendering() {
    assert_eq!(u32_to_string(0), "0");
    assert_eq!(u32_to_string(42), "42");
    assert_eq!(u32_to_string(u32::MAX), "4294967295");
}

#[test]
fn indicator_precedence() {
    assert_eq!(icon(1, 5), "\u{274c}");
    assert_eq!(icon(0, 5), "\u{26a0}\u{fe0f}");
    assert_eq!(icon(0, 0), "\u{2705}");
    let suites = vec![suite("A", 9, 1, 0), suite("B", 1, 0, 5)];
    let message = test_report_message(&suites);
    assert!(message.starts_with("\u{274c}"));
}

#[test]
fn message_layout() {
    let suites = vec![suite("Foo", 3, 1, 0)];
    assert_eq!(test_report_message(&suites), "\u{274c} 3 tests, 1 failures, 0 errors");
    let none: Vec<SuiteResult> = vec![];
    assert_eq!(test_report_message(&none), "\u{2705} 0 tests, 0 failures, 0 errors");
    let warn = vec![suite("W", 4, 0, 2)];
    assert_eq!(test_report_message(&warn), "\u{26a0}\u{fe0f} 4 tests, 0 failures, 2 errors");
}

#[test]
fn totals_saturate() {
    let suites = vec![suite("A", u32::MAX, 0, 0), suite("B", 10, 0, 0)];
    assert_eq!(total_tests(&suites), u32::MAX);
}

#[test]
fn extended_message_lists_failing_suites() {
    let suites = vec![suite("A", 3, 1, 0), suite("B", 2, 0, 0), suite("C", 1, 2, 0)];
    assert_eq!(
        test_report_message_extended(&suites),
        "\u{274c} 6 tests, 3 failures, 0 errors\nFailed Suites:\n - A\n - C"
    );
    let calm = vec![suite("B", 2, 0, 0)];
    assert_eq!(
        test_report_message_extended(&calm),
        "\u{2705} 2 tests, 0 failures, 0 errors\nFailed Suites:"
    );
}

fn created(path: &str, bytes: &[u8]) -> WatchEvent {
    WatchEvent::Created { path: path.to_string(), content: Some(bytes.to_vec()) }
}

#[test]
fn end_to_end_scenario() {
    let mut store = AggregateStore::new();
    let a = b"<testsuite name=\"Foo\" tests=\"3\" failures=\"1\" errors=\"0\"></testsuite>";
    let m1 = route_event(&mut store, created("a.xml", a));
    assert_eq!(m1.unwrap(), "\u{274c} 3 tests, 1 failures, 0 errors");

    let b = b"<testsuite name=\"Bar\" tests=\"2\" failures=\"0\" errors=\"0\"></testsuite>";
    let m2 = route_event(&mut store, created("b.xml", b));
    assert_eq!(m2.unwrap(), "\u{274c} 5 tests, 1 failures, 0 errors");

    let m3 = route_event(&mut store, WatchEvent::Removed { path: "a.xml".to_string() });
    assert_eq!(m3.unwrap(), "\u{2705} 2 tests, 0 failures, 0 errors");
}

#[test]
fn empty_aggregate_suppression() {
    let mut store = AggregateStore::new();
    let a = b"<testsuite name=\"Foo\" tests=\"3\"></testsuite>";
    assert!(route_event(&mut store, created("a.xml", a)).is_some());
    let gone = route_event(&mut store, WatchEvent::Removed { path: "a.xml".to_string() });
    assert!(gone.is_none());
    assert!(store.is_empty());
}

#[test]
fn remove_event_on_absent_path_still_summarises() {
    let mut store = AggregateStore::new();
    let a = b"<testsuite name=\"Foo\" tests=\"3\"></testsuite>";
    route_event(&mut store, created("a.xml", a));
    let m = route_event(&mut store, WatchEvent::Removed { path: "zzz.xml".to_string() });
    assert_eq!(m.unwrap(), "\u{2705} 3 tests, 0 failures, 0 errors");
}

#[test]
fn rename_rekeys_the_entry() {
    let mut store = AggregateStore::new();
    let a = b"<testsuite name=\"Foo\" tests=\"3\"></testsuite>";
    route_event(&mut store, created("a.xml", a));
    let m = route_event(
        &mut store,
        WatchEvent::Renamed {
            old_path: "a.xml".to_string(),
            new_path: "b.xml".to_string(),
            content: Some(a.to_vec()),
        },
    );
    assert_eq!(m.unwrap(), "\u{2705} 3 tests, 0 failures, 0 errors");
    route_event(&mut store, WatchEvent::Removed { path: "b.xml".to_string() });
    assert!(store.is_empty());
}

#[test]
fn unreadable_file_changes_nothing() {
    let mut store = AggregateStore::new();
    let a = b"<testsuite name=\"Foo\" tests=\"3\"></testsuite>";
    route_event(&mut store, created("a.xml", a));
    let m = update_path_and_notify(&mut store, "a.xml".to_string(), None);
    assert!(m.is_none());
    let after = route_event(&mut store, WatchEvent::Other);
    assert!(after.is_none());
    assert_eq!(
        test_report_message(&store.all_suites()),
        "\u{2705} 3 tests, 0 failures, 0 errors"
    );
}

#[test]
fn garbage_file_upserts_empty_entry() {
    let mut store = AggregateStore::new();
    let m = update_path_and_notify(&mut store, "a.xml".to_string(), Some(b"<".to_vec()));
    assert_eq!(m.unwrap(), "\u{2705} 0 tests, 0 failures, 0 errors");
    assert!(!store.is_empty());
}
