use metric_snapshot::{decode_name, Database, Lifetime, Lookup, Metric, Snapshot};
use serde_json::Value;

fn metric(category: &str, value: i64) -> Metric {
    Metric::new(category.to_string(), Value::from(value))
}

#[test]
fn decode_name_keeps_valid_text() {
    assert_eq!(decode_name(b"bytes_sent"), "bytes_sent");
    assert_eq!(decode_name("gr\u{fc}n".as_bytes()), "gr\u{fc}n");
    assert_eq!(decode_name(b""), "");
}

#[test]
fn decode_name_replaces_invalid_bytes() {
    assert_eq!(decode_name(&[0xff]), "\u{fffd}");
    assert_eq!(decode_name(&[b'o', b'k', 0xc3]), "ok\u{fffd}");
    assert_eq!(decode_name(&[0xf0, 0x9f, b'x']), "\u{fffd}x");
}

#[test]
fn metric_gives_back_what_it_was_made_of() {
    let m = metric("net", 10);
    assert_eq!(m.category(), "net");
    assert_eq!(m.as_json(), Value::from(10));
    assert_eq!(m.clone(), m);
    assert_ne!(m, metric("net", 11));
    assert_ne!(m, metric("ui", 10));
}

#[test]
fn record_replaces_under_the_same_key() {
    let mut database = Database::new();
    database.record(Lifetime::Ping, "s", b"a", metric("c", 1));
    database.record(Lifetime::Ping, "s", b"b", metric("c", 2));
    database.record(Lifetime::Ping, "s", b"a", metric("c", 3));
    let found = database.iter_store_from(Lifetime::Ping, "s");
    assert_eq!(found.len(), 2);
    assert_eq!(found[0].key(), b"a");
    assert_eq!(found[0].metric(), &metric("c", 3));
    assert_eq!(found[0].store_name(), "s");
    assert_eq!(found[1].key(), b"b");
    assert_eq!(found[1].metric(), &metric("c", 2));
}

#[test]
fn record_keeps_lifetimes_and_stores_apart() {
    let mut database = Database::new();
    database.record(Lifetime::Ping, "s", b"a", metric("c", 1));
    database.record(Lifetime::User, "s", b"a", metric("c", 2));
    database.record(Lifetime::Ping, "t", b"a", metric("c", 3));
    assert_eq!(database.iter_store_from(Lifetime::Ping, "s").len(), 1);
    assert_eq!(database.iter_store_from(Lifetime::Ping, "s")[0].metric(), &metric("c", 1));
    assert_eq!(database.iter_store_from(Lifetime::User, "s")[0].metric(), &metric("c", 2));
    assert_eq!(database.iter_store_from(Lifetime::Ping, "t")[0].metric(), &metric("c", 3));
    assert!(database.iter_store_from(Lifetime::Application, "s").is_empty());
    assert!(database.iter_store_from(Lifetime::User, "t").is_empty());
}

#[test]
fn clear_ping_lifetime_storage_keeps_order_of_the_rest() {
    let mut database = Database::new();
    database.record(Lifetime::Ping, "t", b"1", metric("c", 1));
    database.record(Lifetime::Ping, "s", b"2", metric("c", 2));
    database.record(Lifetime::Ping, "t", b"3", metric("c", 3));
    database.record(Lifetime::Ping, "s", b"4", metric("c", 4));
    database.record(Lifetime::User, "s", b"5", metric("c", 5));
    database.clear_ping_lifetime_storage("s");
    assert!(database.iter_store_from(Lifetime::Ping, "s").is_empty());
    let kept = database.iter_store_from(Lifetime::Ping, "t");
    assert_eq!(kept.len(), 2);
    assert_eq!(kept[0].key(), b"1");
    assert_eq!(kept[1].key(), b"3");
    assert_eq!(database.iter_store_from(Lifetime::User, "s").len(), 1);
    database.clear_ping_lifetime_storage("s");
    assert_eq!(database.iter_store_from(Lifetime::Ping, "t").len(), 2);
}

#[test]
fn snapshot_insert_overwrites() {
    let mut snapshot = Snapshot::new();
    assert!(snapshot.is_empty());
    assert_eq!(snapshot.to_json(), Value::Object(serde_json::Map::new()));
    snapshot.insert("net", "a".to_string(), Value::from(1));
    snapshot.insert("ui", "a".to_string(), Value::from(2));
    snapshot.insert("net", "b".to_string(), Value::from(3));
    snapshot.insert("net", "a".to_string(), Value::from(4));
    assert!(!snapshot.is_empty());
    let mut net = serde_json::Map::new();
    net.insert("a".to_string(), Value::from(4));
    net.insert("b".to_string(), Value::from(3));
    let mut ui = serde_json::Map::new();
    ui.insert("a".to_string(), Value::from(2));
    let mut expected = serde_json::Map::new();
    expected.insert("net".to_string(), Value::Object(net));
    expected.insert("ui".to_string(), Value::Object(ui));
    assert_eq!(snapshot.to_json(), Value::Object(expected));
}

#[test]
fn lookup_keeps_the_last_match() {
    let mut lookup = Lookup::new("a");
    lookup.visit("b".to_string(), &metric("c", 1));
    lookup.visit("a".to_string(), &metric("c", 2));
    lookup.visit("a".to_string(), &metric("d", 3));
    lookup.visit("b".to_string(), &metric("c", 4));
    assert_eq!(lookup.finish(), Some(metric("d", 3)));
    assert_eq!(Lookup::new("a").finish(), None);
    let mut other = Lookup::new("z");
    other.visit("a".to_string(), &metric("c", 1));
    assert_eq!(other.finish(), None);
}
