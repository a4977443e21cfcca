use metric_snapshot::{Database, Lifetime, Metric, StorageManager};
use serde_json::Value;

fn metric(category: &str, value: i64) -> Metric {
    Metric::new(category.to_string(), Value::from(value))
}

fn object(members: Vec<(&str, Value)>) -> Value {
    let mut map = serde_json::Map::new();
    for (key, value) in members {
        map.insert(key.to_string(), value);
    }
    Value::Object(map)
}

fn scenario() -> Database {
    let mut database = Database::new();
    database.record(Lifetime::User, "metrics", b"bytes_sent", metric("net", 10));
    database.record(Lifetime::Ping, "metrics", b"bytes_sent", metric("net", 5));
    database.record(Lifetime::Application, "metrics", b"clicks", metric("ui", 3));
    database
}

fn scenario_snapshot() -> Value {
    object(vec![
        ("net", object(vec![("bytes_sent", Value::from(10))])),
        ("ui", object(vec![("clicks", Value::from(3))])),
    ])
}

#[test]
fn empty_store_has_no_snapshot() {
    let mut database = Database::new();
    let manager = StorageManager;
    assert_eq!(manager.snapshot_as_json(&mut database, "metrics", false), None);
    assert_eq!(manager.snapshot_as_json(&mut database, "metrics", true), None);
    assert_eq!(manager.snapshot(&mut database, "metrics", false), None);
    assert_eq!(manager.snapshot_metric(&database, "metrics", "bytes_sent"), None);
}

#[test]
fn store_without_records_is_absent_beside_other_stores() {
    let mut database = scenario();
    let manager = StorageManager;
    assert_eq!(manager.snapshot_as_json(&mut database, "events", false), None);
    assert_eq!(manager.snapshot(&mut database, "events", true), None);
    assert_eq!(manager.snapshot_metric(&database, "events", "clicks"), None);
    assert_eq!(
        manager.snapshot_as_json(&mut database, "metrics", false),
        Some(scenario_snapshot())
    );
}

#[test]
fn later_lifetime_overwrites_earlier() {
    let mut database = scenario();
    let manager = StorageManager;
    assert_eq!(
        manager.snapshot_as_json(&mut database, "metrics", false),
        Some(scenario_snapshot())
    );
}

#[test]
fn application_overwrites_ping_and_user_overwrites_application() {
    let mut database = Database::new();
    let manager = StorageManager;
    database.record(Lifetime::Ping, "s", b"a", metric("c", 1));
    database.record(Lifetime::Application, "s", b"a", metric("c", 2));
    assert_eq!(
        manager.snapshot_as_json(&mut database, "s", false),
        Some(object(vec![("c", object(vec![("a", Value::from(2))]))]))
    );
    database.record(Lifetime::User, "s", b"a", metric("c", 3));
    assert_eq!(
        manager.snapshot_as_json(&mut database, "s", false),
        Some(object(vec![("c", object(vec![("a", Value::from(3))]))]))
    );
}

#[test]
fn same_name_in_two_categories_is_listed_in_both() {
    let mut database = Database::new();
    let manager = StorageManager;
    database.record(Lifetime::Ping, "s", b"x", metric("net", 1));
    database.record(Lifetime::User, "s", b"x", metric("ui", 2));
    assert_eq!(
        manager.snapshot_as_json(&mut database, "s", false),
        Some(object(vec![
            ("net", object(vec![("x", Value::from(1))])),
            ("ui", object(vec![("x", Value::from(2))])),
        ]))
    );
    assert_eq!(manager.snapshot_metric(&database, "s", "x"), Some(metric("ui", 2)));
}

#[test]
fn snapshot_is_idempotent_without_clear() {
    let mut database = scenario();
    let manager = StorageManager;
    let first = manager.snapshot_as_json(&mut database, "metrics", false);
    let second = manager.snapshot_as_json(&mut database, "metrics", false);
    assert_eq!(first, second);
    assert_eq!(first, Some(scenario_snapshot()));
    let text = manager.snapshot(&mut database, "metrics", false);
    assert_eq!(text, manager.snapshot(&mut database, "metrics", false));
}

#[test]
fn clear_removes_ping_records_only() {
    let mut database = scenario();
    database.record(Lifetime::Ping, "metrics", b"latency", metric("net", 7));
    let manager = StorageManager;
    let before = manager.snapshot_as_json(&mut database, "metrics", true);
    assert_eq!(
        before,
        Some(object(vec![
            ("net", object(vec![("bytes_sent", Value::from(10)), ("latency", Value::from(7))])),
            ("ui", object(vec![("clicks", Value::from(3))])),
        ]))
    );
    assert!(database.iter_store_from(Lifetime::Ping, "metrics").is_empty());
    assert_eq!(database.iter_store_from(Lifetime::Application, "metrics").len(), 1);
    assert_eq!(database.iter_store_from(Lifetime::User, "metrics").len(), 1);
    assert_eq!(
        manager.snapshot_as_json(&mut database, "metrics", false),
        Some(scenario_snapshot())
    );
    assert_eq!(manager.snapshot_metric(&database, "metrics", "latency"), None);
    assert_eq!(manager.snapshot_metric(&database, "metrics", "bytes_sent"), Some(metric("net", 10)));
}

#[test]
fn clear_uncovers_nothing_older() {
    let mut database = Database::new();
    let manager = StorageManager;
    database.record(Lifetime::Ping, "s", b"only", metric("c", 1));
    assert_eq!(
        manager.snapshot_as_json(&mut database, "s", true),
        Some(object(vec![("c", object(vec![("only", Value::from(1))]))]))
    );
    assert_eq!(manager.snapshot_as_json(&mut database, "s", false), None);
}

#[test]
fn clear_leaves_other_stores() {
    let mut database = scenario();
    database.record(Lifetime::Ping, "events", b"opened", metric("ui", 1));
    let manager = StorageManager;
    manager.snapshot_as_json(&mut database, "metrics", true);
    assert_eq!(
        manager.snapshot_as_json(&mut database, "events", false),
        Some(object(vec![("ui", object(vec![("opened", Value::from(1))]))]))
    );
}

#[test]
fn clear_happens_for_an_empty_snapshot_too() {
    let mut database = Database::new();
    database.record(Lifetime::Ping, "events", b"opened", metric("ui", 1));
    let manager = StorageManager;
    assert_eq!(manager.snapshot_as_json(&mut database, "metrics", true), None);
    assert_eq!(database.iter_store_from(Lifetime::Ping, "events").len(), 1);
    assert_eq!(manager.snapshot(&mut database, "events", true).is_some(), true);
    assert!(database.iter_store_from(Lifetime::Ping, "events").is_empty());
}

#[test]
fn snapshot_metric_returns_latest_lifetime() {
    let database = scenario();
    let manager = StorageManager;
    assert_eq!(
        manager.snapshot_metric(&database, "metrics", "bytes_sent"),
        Some(metric("net", 10))
    );
    assert_eq!(manager.snapshot_metric(&database, "metrics", "clicks"), Some(metric("ui", 3)));
    assert_eq!(manager.snapshot_metric(&database, "metrics", "unknown"), None);
}

#[test]
fn snapshot_metric_does_not_clear() {
    let database = scenario();
    let manager = StorageManager;
    manager.snapshot_metric(&database, "metrics", "bytes_sent");
    assert_eq!(database.iter_store_from(Lifetime::Ping, "metrics").len(), 1);
}

#[test]
fn lookup_agrees_with_snapshot() {
    let mut database = scenario();
    database.record(Lifetime::Ping, "metrics", b"clicks", metric("net", 9));
    let manager = StorageManager;
    let snapshot = manager.snapshot_as_json(&mut database, "metrics", false).unwrap();
    for name in ["bytes_sent", "clicks"] {
        let found = manager.snapshot_metric(&database, "metrics", name).unwrap();
        assert_eq!(snapshot[found.category()][name], found.as_json());
    }
}

#[test]
fn snapshot_text_is_pretty_printed() {
    let mut database = scenario();
    let manager = StorageManager;
    let expected = "{\n  \"net\": {\n    \"bytes_sent\": 10\n  },\n  \"ui\": {\n    \"clicks\": 3\n  }\n}";
    assert_eq!(
        manager.snapshot(&mut database, "metrics", false),
        Some(expected.to_string())
    );
}

#[test]
fn snapshot_text_clears_like_the_structured_snapshot() {
    let mut database = Database::new();
    database.record(Lifetime::Ping, "s", b"a", metric("c", 1));
    let manager = StorageManager;
    assert_eq!(
        manager.snapshot(&mut database, "s", true),
        Some("{\n  \"c\": {\n    \"a\": 1\n  }\n}".to_string())
    );
    assert_eq!(manager.snapshot(&mut database, "s", false), None);
}

#[test]
fn malformed_name_is_decoded_lossily() {
    let mut database = Database::new();
    database.record(Lifetime::User, "s", &[b'a', 0xff, b'b'], metric("c", 1));
    let manager = StorageManager;
    assert_eq!(
        manager.snapshot_as_json(&mut database, "s", false),
        Some(object(vec![("c", object(vec![("a\u{fffd}b", Value::from(1))]))]))
    );
    assert_eq!(manager.snapshot_metric(&database, "s", "a\u{fffd}b"), Some(metric("c", 1)));
}

#[test]
fn keys_with_one_lossy_name_merge_last_wins() {
    let mut database = Database::new();
    database.record(Lifetime::Ping, "s", &[0xff], metric("c", 1));
    database.record(Lifetime::Ping, "s", &[0xfe], metric("c", 2));
    let manager = StorageManager;
    assert_eq!(database.iter_store_from(Lifetime::Ping, "s").len(), 2);
    assert_eq!(
        manager.snapshot_as_json(&mut database, "s", false),
        Some(object(vec![("c", object(vec![("\u{fffd}", Value::from(2))]))]))
    );
    assert_eq!(manager.snapshot_metric(&database, "s", "\u{fffd}"), Some(metric("c", 2)));
}

#[test]
fn nested_values_are_carried_through() {
    let mut database = Database::new();
    let list = Value::Array(vec![Value::from("a"), Value::Bool(true), Value::Null]);
    database.record(Lifetime::User, "s", b"list", Metric::new("labels".to_string(), list.clone()));
    let manager = StorageManager;
    assert_eq!(
        manager.snapshot_as_json(&mut database, "s", false),
        Some(object(vec![("labels", object(vec![("list", list)]))]))
    );
}
