use junit_notify::store::AggregateStore;
use junit_notify::suite::SuiteResult;

fn suite(name: &str, tests: u32, failures: u32, errors: u32) -> SuiteResult {
    SuiteResult { name: name.to_string(), tests, failures, errors }
}

fn names(store: &AggregateStore) -> Vec<String> {
    let mut ns: Vec<String> =
        store.all_suites().iter().map(|s| s.name.clone()).collect();
    ns.sort();
    ns
}

#[test]
fn starts_empty() {
    let store = AggregateStore::new();
    assert!(store.is_empty());
    assert_eq!(store.all_suites().len(), 0);
}

#[test]
fn upsert_then_read_back() {
    let mut store = AggregateStore::new();
    store.upsert("a.xml".to_string(), vec![suite("A", 3, 1, 0)]);
    assert!(!store.is_empty());
    let all = store.all_suites();
    assert_eq!(all.len(), 1);
    assert_eq!(all[0].name, "A");
    assert_eq!(all[0].tests, 3);
}

#[test]
fn idempotent_replace() {
    let mut store = AggregateStore::new();
    store.upsert("a.xml".to_string(), vec![suite("A1", 3, 1, 0), suite("A2", 2, 0, 0)]);
    store.upsert("a.xml".to_string(), vec![suite("B", 7, 0, 1)]);
    let all = store.all_suites();
    assert_eq!(all.len(), 1);
    assert_eq!(all[0].name, "B");
    assert_eq!(all[0].tests, 7);
    assert_eq!(all[0].errors, 1);
}

#[test]
fn replace_affects_only_its_path() {
    let mut store = AggregateStore::new();
    store.upsert("a.xml".to_string(), vec![suite("A", 1, 0, 0)]);
    store.upsert("b.xml".to_string(), vec![suite("B", 2, 0, 0)]);
    store.upsert("a.xml".to_string(), vec![suite("C", 3, 0, 0)]);
    assert_eq!(names(&store), vec!["B".to_string(), "C".to_string()]);
}

#[test]
fn remove_is_safe_on_absent_key() {
    let mut store = AggregateStore::new();
    store.remove("never-seen-path");
    assert!(store.is_empty());
    store.upsert("a.xml".to_string(), vec![suite("A", 1, 0, 0)]);
    store.remove("never-seen-path");
    assert_eq!(names(&store), vec!["A".to_string()]);
}

#[test]
fn remove_deletes_the_entry() {
    let mut store = AggregateStore::new();
    store.upsert("a.xml".to_string(), vec![suite("A", 1, 0, 0)]);
    store.upsert("b.xml".to_string(), vec![suite("B", 2, 0, 0)]);
    store.remove("a.xml");
    assert_eq!(names(&store), vec!["B".to_string()]);
    store.remove("b.xml");
    assert!(store.is_empty());
}

#[test]
fn flattening_is_stable_across_calls() {
    let mut store = AggregateStore::new();
    store.upsert("a.xml".to_string(), vec![suite("A1", 1, 0, 0), suite("A2", 2, 0, 0)]);
    store.upsert("b.xml".to_string(), vec![suite("B", 3, 0, 0)]);
    let first: Vec<String> = store.all_suites().iter().map(|s| s.name.clone()).collect();
    let second: Vec<String> = store.all_suites().iter().map(|s| s.name.clone()).collect();
    assert_eq!(first, second);
    assert_eq!(first.len(), 3);
}
