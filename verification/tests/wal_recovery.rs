use rocs::command::{Command, Response};
use rocs::recovery::CheckpointFlag;
use rocs::store::StoreState;
use rocs::wal::{append_record, read_wal, LogRecord};

fn set_rec(user: &str, key: &str, value: u64) -> LogRecord {
    LogRecord::Store { user: user.to_string(), key: key.to_string(), value }
}

#[test]
fn wal_round_trip_in_order() {
    let mut log: Vec<u8> = Vec::new();
    append_record(&mut log, &set_rec("u1", "a", 1));
    append_record(&mut log, &LogRecord::Del { user: "u1".to_string(), key: "a".to_string() });
    append_record(&mut log, &LogRecord::Update {
        user: "u1".to_string(),
        key: "b".to_string(),
        value: 2,
    });
    let recs = read_wal(log.as_slice());
    assert_eq!(recs.len(), 3);
    assert!(matches!(&recs[0], LogRecord::Store { user, key, value: 1 }
        if user == "u1" && key == "a"));
    assert!(matches!(&recs[1], LogRecord::Del { user, key } if user == "u1" && key == "a"));
    assert!(matches!(&recs[2], LogRecord::Update { user, key, value: 2 }
        if user == "u1" && key == "b"));
}

#[test]
fn wal_keeps_multibyte_strings_intact() {
    let mut log: Vec<u8> = Vec::new();
    append_record(&mut log, &set_rec("üser", "clé", 9));
    let recs = read_wal(log.as_slice());
    assert_eq!(recs.len(), 1);
    assert!(matches!(&recs[0], LogRecord::Store { user, key, value: 9 }
        if user == "üser" && key == "clé"));
}

#[test]
fn torn_trailing_record_is_discarded() {
    let mut log: Vec<u8> = Vec::new();
    append_record(&mut log, &set_rec("u1", "a", 1));
    let good_len = log.len();
    // A second record, cut off mid-way: a torn final write.
    append_record(&mut log, &set_rec("u1", "b", 2));
    log.truncate(good_len + 7);
    let recs = read_wal(log.as_slice());
    assert_eq!(recs.len(), 1);
    assert!(matches!(&recs[0], LogRecord::Store { user, key, value: 1 }
        if user == "u1" && key == "a"));
}

#[test]
fn corrupt_trailing_body_is_discarded() {
    let mut log: Vec<u8> = Vec::new();
    append_record(&mut log, &set_rec("u1", "a", 1));
    // A complete frame whose body has an unknown tag.
    log.extend_from_slice(&[1, 0, 0, 0, 255]);
    let recs = read_wal(log.as_slice());
    assert_eq!(recs.len(), 1);
}

#[test]
fn empty_log_reads_back_empty() {
    let log: Vec<u8> = Vec::new();
    assert!(read_wal(log.as_slice()).is_empty());
}

#[test]
fn checkpoint_flag_round_trip() {
    assert_eq!(CheckpointFlag::Clean.byte(), 0);
    assert_eq!(CheckpointFlag::Dirty.byte(), 1);
    assert_eq!(CheckpointFlag::from_byte(0), Some(CheckpointFlag::Clean));
    assert_eq!(CheckpointFlag::from_byte(1), Some(CheckpointFlag::Dirty));
    assert_eq!(CheckpointFlag::from_byte(7), None);
}

#[test]
fn recovery_replays_logged_set_after_crash() {
    // The engine logs the mutation before applying it.
    let mut s = StoreState::new();
    let mut log: Vec<u8> = Vec::new();
    let r = s.handle_command(
        Command::Store { user_id: "u1".to_string(), key: "k".to_string(), value: 9 },
        &mut log,
    );
    assert_eq!(r, Response::Unit(Ok(())));
    // The process crashes before any snapshot: restart from an empty base
    // with a dirty flag and the surviving log bytes.
    let flag = vec![CheckpointFlag::Dirty.byte()];
    let (recovered, replayed) =
        rocs::recovery::recover(StoreState::new(), Some(&flag), &log).expect("recovery");
    assert!(replayed);
    let mut log2: Vec<u8> = Vec::new();
    let mut recovered = recovered;
    let r = recovered.handle_command(
        Command::Get { user_id: "u1".to_string(), key: "k".to_string() },
        &mut log2,
    );
    assert_eq!(r, Response::OptValue(Ok(Some(9))));
}

#[test]
fn clean_flag_skips_replay() {
    let mut base = StoreState::new();
    base.store_values("u".to_string(), "k".to_string(), 3).unwrap();
    // A log holding a later delete that must NOT be replayed when clean.
    let mut log: Vec<u8> = Vec::new();
    append_record(&mut log, &LogRecord::Del { user: "u".to_string(), key: "k".to_string() });
    let flag = vec![CheckpointFlag::Clean.byte()];
    let (s, replayed) = rocs::recovery::recover(base, Some(&flag), &log).expect("recovery");
    assert!(!replayed);
    assert_eq!(s.fetch_values("u", "k"), Some(3));
}

#[test]
fn absent_flag_file_means_no_replay() {
    let mut base = StoreState::new();
    base.store_values("u".to_string(), "k".to_string(), 3).unwrap();
    let log: Vec<u8> = Vec::new();
    let (s, replayed) = rocs::recovery::recover(base, None, &log).expect("recovery");
    assert!(!replayed);
    assert_eq!(s.fetch_values("u", "k"), Some(3));
}

#[test]
fn unreadable_flag_is_an_error() {
    let log: Vec<u8> = Vec::new();
    let empty_flag: Vec<u8> = Vec::new();
    assert!(rocs::recovery::recover(StoreState::new(), Some(&empty_flag), &log).is_err());
    let bad_flag = vec![42u8];
    assert!(rocs::recovery::recover(StoreState::new(), Some(&bad_flag), &log).is_err());
}

#[test]
fn replaying_whole_log_equals_snapshot_plus_suffix() {
    // Records before the snapshot, then records after it.
    let mut pre: Vec<u8> = Vec::new();
    append_record(&mut pre, &set_rec("u", "a", 1));
    append_record(&mut pre, &set_rec("u", "b", 2));
    let mut whole = pre.clone();
    append_record(&mut whole, &set_rec("u", "a", 9));
    append_record(&mut whole, &LogRecord::Del { user: "u".to_string(), key: "b".to_string() });
    let mut post: Vec<u8> = Vec::new();
    append_record(&mut post, &set_rec("u", "a", 9));
    append_record(&mut post, &LogRecord::Del { user: "u".to_string(), key: "b".to_string() });

    let flag = vec![CheckpointFlag::Dirty.byte()];
    // One pass over the whole log from empty.
    let (from_empty, _) =
        rocs::recovery::recover(StoreState::new(), Some(&flag), &whole).expect("recovery");
    // The snapshot state, then only the post-snapshot records.
    let (snapshot, _) =
        rocs::recovery::recover(StoreState::new(), Some(&flag), &pre).expect("recovery");
    let snap_bytes = snapshot.snapshot_bytes().expect("snapshot must encode");
    let base = StoreState::decode_snapshot(snap_bytes.as_slice()).expect("snapshot must decode");
    let (from_snapshot, _) =
        rocs::recovery::recover(base, Some(&flag), &post).expect("recovery");

    assert_eq!(from_empty.list_all("u"), from_snapshot.list_all("u"));
    assert_eq!(from_empty.fetch_values("u", "a"), Some(9));
    assert_eq!(from_snapshot.fetch_values("u", "a"), Some(9));
    assert_eq!(from_empty.fetch_values("u", "b"), None);
    assert_eq!(from_snapshot.fetch_values("u", "b"), None);
}

#[test]
fn replay_applies_oldest_first() {
    let mut log: Vec<u8> = Vec::new();
    append_record(&mut log, &set_rec("u", "k", 1));
    append_record(&mut log, &set_rec("u", "k", 2));
    append_record(&mut log, &LogRecord::Del { user: "u".to_string(), key: "x".to_string() });
    let flag = vec![CheckpointFlag::Dirty.byte()];
    let (s, _) = rocs::recovery::recover(StoreState::new(), Some(&flag), &log).expect("recovery");
    // The later write wins: the read observes the most recent store.
    assert_eq!(s.fetch_values("u", "k"), Some(2));
}
