use rocs::command::{Command, Response};
use rocs::store::StoreState;

fn unit_ok(r: &Response) -> bool {
    matches!(r, Response::Unit(Ok(())))
}

#[test]
fn scenario_set_then_get() {
    let mut s = StoreState::new();
    let mut log: Vec<u8> = Vec::new();
    let r = s.handle_command(
        Command::Store { user_id: "u1".to_string(), key: "x".to_string(), value: 5 },
        &mut log,
    );
    assert!(unit_ok(&r));
    let r = s.handle_command(
        Command::Get { user_id: "u1".to_string(), key: "x".to_string() },
        &mut log,
    );
    assert_eq!(r, Response::OptValue(Ok(Some(5))));
}

#[test]
fn scenario_get_missing_is_not_an_error() {
    let mut s = StoreState::new();
    let mut log: Vec<u8> = Vec::new();
    let r = s.handle_command(
        Command::Get { user_id: "u1".to_string(), key: "missing".to_string() },
        &mut log,
    );
    assert_eq!(r, Response::OptValue(Ok(None)));
}

#[test]
fn scenario_range_is_inclusive_and_ordered() {
    let mut s = StoreState::new();
    let mut log: Vec<u8> = Vec::new();
    for (k, v) in [("a", 1u64), ("b", 2), ("c", 3)] {
        let r = s.handle_command(
            Command::Store { user_id: "u1".to_string(), key: k.to_string(), value: v },
            &mut log,
        );
        assert!(unit_ok(&r));
    }
    let r = s.handle_command(
        Command::Range {
            user_id: "u1".to_string(),
            start: "a".to_string(),
            end: "b".to_string(),
        },
        &mut log,
    );
    let expected = vec![
        (("u1".to_string(), "a".to_string()), 1u64),
        (("u1".to_string(), "b".to_string()), 2u64),
    ];
    assert_eq!(r, Response::KvList(Ok(expected)));
}

#[test]
fn scenario_hi_mints_then_echoes() {
    let mut s = StoreState::new();
    let mut log: Vec<u8> = Vec::new();
    let r = s.handle_command(Command::Hi { user_id: None }, &mut log);
    let fresh = match r {
        Response::UserId(id) => id,
        _ => panic!("hi must answer with a user id"),
    };
    assert_eq!(fresh.chars().count(), 36);
    let r = s.handle_command(Command::Hi { user_id: Some(fresh.clone()) }, &mut log);
    assert_eq!(r, Response::UserId(fresh));
}

#[test]
fn hi_with_unknown_id_mints_a_new_one() {
    let mut s = StoreState::new();
    let mut log: Vec<u8> = Vec::new();
    let r = s.handle_command(Command::Hi { user_id: Some("made-up".to_string()) }, &mut log);
    match r {
        Response::UserId(id) => assert_ne!(id, "made-up".to_string()),
        _ => panic!("hi must answer with a user id"),
    }
}

#[test]
fn namespace_isolation_between_users() {
    let mut s = StoreState::new();
    let mut log: Vec<u8> = Vec::new();
    s.handle_command(
        Command::Store { user_id: "alice".to_string(), key: "k".to_string(), value: 1 },
        &mut log,
    );
    s.handle_command(
        Command::Store { user_id: "bob".to_string(), key: "k".to_string(), value: 2 },
        &mut log,
    );
    let r = s.handle_command(Command::List { user_id: "alice".to_string() }, &mut log);
    let expected = vec![(("alice".to_string(), "k".to_string()), 1u64)];
    assert_eq!(r, Response::KvList(Ok(expected)));
    let r = s.handle_command(
        Command::Range {
            user_id: "bob".to_string(),
            start: "a".to_string(),
            end: "z".to_string(),
        },
        &mut log,
    );
    let expected = vec![(("bob".to_string(), "k".to_string()), 2u64)];
    assert_eq!(r, Response::KvList(Ok(expected)));
}

#[test]
fn delete_and_update_behave_as_upsert_store() {
    let mut s = StoreState::new();
    assert_eq!(s.store_values("u".to_string(), "k".to_string(), 1), Ok(()));
    assert_eq!(s.fetch_values("u", "k"), Some(1));
    // Update needs no prior entry and overwrites an existing one.
    assert_eq!(s.update_val("u".to_string(), "k".to_string(), 7), Ok(()));
    assert_eq!(s.fetch_values("u", "k"), Some(7));
    assert_eq!(s.update_val("u".to_string(), "fresh".to_string(), 9), Ok(()));
    assert_eq!(s.fetch_values("u", "fresh"), Some(9));
    // Delete returns the removed value; deleting again is not an error.
    assert_eq!(s.delete_val("u", "k"), Some(7));
    assert_eq!(s.delete_val("u", "k"), None);
    assert_eq!(s.fetch_values("u", "k"), None);
}

#[test]
fn list_all_orders_keys_ascending() {
    let mut s = StoreState::new();
    s.store_values("u".to_string(), "b".to_string(), 2).unwrap();
    s.store_values("u".to_string(), "a".to_string(), 1).unwrap();
    s.store_values("u".to_string(), "c".to_string(), 3).unwrap();
    let listed = s.list_all("u");
    let keys: Vec<String> = listed.iter().map(|e| (e.0).1.clone()).collect();
    assert_eq!(keys, vec!["a".to_string(), "b".to_string(), "c".to_string()]);
}

#[test]
fn snapshot_round_trip_preserves_contents() {
    let mut s = StoreState::new();
    s.store_values("u1".to_string(), "héllo".to_string(), 42).unwrap();
    s.store_values("u2".to_string(), "k".to_string(), 7).unwrap();
    let bytes = s.snapshot_bytes().expect("snapshot must encode");
    let d = StoreState::decode_snapshot(bytes.as_slice()).expect("snapshot must decode");
    assert_eq!(d.fetch_values("u1", "héllo"), Some(42));
    assert_eq!(d.fetch_values("u2", "k"), Some(7));
    assert_eq!(d.list_all("u1"), s.list_all("u1"));
    assert_eq!(d.list_all("u2"), s.list_all("u2"));
    assert!(d.user_known("u1") && d.user_known("u2"));
}

#[test]
fn snapshot_rejects_corrupt_image() {
    let garbage: Vec<u8> = vec![9, 9, 9];
    assert!(StoreState::decode_snapshot(garbage.as_slice()).is_none());
}
