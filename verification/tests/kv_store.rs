use network::kv_store::{KvCommand, KvReply, KvStore};

fn get(store: &mut KvStore, key: &str) -> KvReply {
    store.apply(KvCommand::Get { key: key.to_string() })
}

fn put(store: &mut KvStore, key: &str, value: &[u8]) -> KvReply {
    store.apply(KvCommand::Put { key: key.to_string(), value: value.to_vec() })
}

#[test]
fn get_on_empty_store_is_null() {
    let mut s = KvStore::new();
    assert!(matches!(get(&mut s, "hello"), KvReply::Null));
}

#[test]
fn put_is_acknowledged_with_ok() {
    let mut s = KvStore::new();
    match put(&mut s, "hello", b"world") {
        KvReply::Simple(text) => assert_eq!(text, "OK"),
        _ => panic!("expected a simple reply"),
    }
}

#[test]
fn get_returns_what_was_put() {
    let mut s = KvStore::new();
    put(&mut s, "hello", b"6380");
    match get(&mut s, "hello") {
        KvReply::Bulk(v) => assert_eq!(v, b"6380".to_vec()),
        _ => panic!("expected a value"),
    }
}

#[test]
fn last_put_wins_and_other_keys_stay() {
    let mut s = KvStore::new();
    put(&mut s, "a", b"1");
    put(&mut s, "b", b"2");
    put(&mut s, "a", b"3");
    match get(&mut s, "a") {
        KvReply::Bulk(v) => assert_eq!(v, b"3".to_vec()),
        _ => panic!("expected a value"),
    }
    match get(&mut s, "b") {
        KvReply::Bulk(v) => assert_eq!(v, b"2".to_vec()),
        _ => panic!("expected a value"),
    }
    assert!(matches!(get(&mut s, "c"), KvReply::Null));
}

#[test]
fn empty_value_is_stored() {
    let mut s = KvStore::new();
    put(&mut s, "", b"");
    match get(&mut s, "") {
        KvReply::Bulk(v) => assert!(v.is_empty()),
        _ => panic!("expected a value"),
    }
}

#[test]
fn replies_over_a_run_of_commands() {
    let mut s = KvStore::new();
    let replies: Vec<KvReply> = vec![
        KvCommand::Get { key: "k".to_string() },
        KvCommand::Put { key: "k".to_string(), value: b"1".to_vec() },
        KvCommand::Put { key: "j".to_string(), value: b"2".to_vec() },
        KvCommand::Get { key: "k".to_string() },
        KvCommand::Put { key: "k".to_string(), value: b"3".to_vec() },
        KvCommand::Get { key: "k".to_string() },
        KvCommand::Get { key: "j".to_string() },
    ]
    .into_iter()
    .map(|c| s.apply(c))
    .collect();
    assert!(matches!(&replies[0], KvReply::Null));
    assert!(matches!(&replies[1], KvReply::Simple(t) if t == "OK"));
    assert!(matches!(&replies[2], KvReply::Simple(t) if t == "OK"));
    assert!(matches!(&replies[3], KvReply::Bulk(v) if v == b"1"));
    assert!(matches!(&replies[5], KvReply::Bulk(v) if v == b"3"));
    assert!(matches!(&replies[6], KvReply::Bulk(v) if v == b"2"));
}
