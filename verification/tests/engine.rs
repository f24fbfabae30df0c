use typed_kvs::codec::encode;
use typed_kvs::defaults::{is_default, load, resolve, KvsDefaults};
use typed_kvs::engine::{InstanceId, Kvs, KvsLoad};
use typed_kvs::error::ErrorCode;
use typed_kvs::mapping::KvsMap;
use typed_kvs::snapshot::{check_history, find_snapshot, Snapshot, SnapshotId, SNAPSHOT_MAX_COUNT};
use typed_kvs::value::Value;

fn key(s: &str) -> String {
    s.to_string()
}

fn text(s: &str) -> Value {
    Value::String(s.to_string())
}

fn fresh() -> Kvs {
    Kvs::build(InstanceId(1), true, KvsLoad::Optional, None, KvsDefaults::Optional, None, vec![])
        .unwrap()
}

fn defaults_source() -> Vec<u8> {
    let mut d = KvsMap::new();
    d.insert(key("theme"), text("dark"));
    d.insert(key("language"), text("en"));
    d.insert(key("timeout"), Value::I32(30));
    d.insert(key("auto_save"), Value::Boolean(true));
    d.insert(key("max_connections"), Value::I32(100));
    encode(&d)
}

fn with_defaults() -> Kvs {
    Kvs::build(
        InstanceId(5),
        true,
        KvsLoad::Ignored,
        None,
        KvsDefaults::Required,
        Some(defaults_source()),
        vec![],
    )
    .unwrap()
}

#[test]
fn override_precedence() {
    let mut kvs = with_defaults();
    kvs.set_value(key("theme"), text("light"));
    assert_eq!(kvs.get_value(&key("theme")), Ok(&text("light")));
    kvs.set_value(key("other"), Value::I32(1));
    assert_eq!(kvs.get_value(&key("other")), Ok(&Value::I32(1)));
    kvs.reset_key(&key("theme"));
    assert_eq!(kvs.get_value(&key("theme")), Ok(&text("dark")));
    kvs.reset_key(&key("other"));
    assert_eq!(kvs.get_value(&key("other")), Err(ErrorCode::KeyNotFound));
    kvs.reset_key(&key("never_set"));
    assert_eq!(kvs.get_value(&key("never_set")), Err(ErrorCode::KeyNotFound));
}

#[test]
fn snapshot_bound() {
    let mut kvs = fresh();
    let c = Kvs::snapshot_max_count();
    assert_eq!(c, SNAPSHOT_MAX_COUNT);
    assert_eq!(c, 3);
    for i in 0..(c + 1) {
        kvs.set_value(key("version"), Value::U64(i as u64));
        assert!(kvs.can_flush());
        let id = kvs.flush();
        assert_eq!(id, SnapshotId(i as u64 + 1));
        assert_eq!(kvs.snapshot_count(), std::cmp::min(i + 1, c));
    }
    assert_eq!(kvs.snapshot_count(), c);
    assert_eq!(kvs.snapshot_restore(SnapshotId(1)), Err(ErrorCode::SnapshotNotFound));
    assert_eq!(kvs.snapshot_restore(SnapshotId(2)), Ok(()));
    assert_eq!(kvs.snapshot_restore(SnapshotId(c as u64 + 2)), Err(ErrorCode::SnapshotNotFound));
    assert_eq!(kvs.snapshot_restore(SnapshotId(0)), Err(ErrorCode::SnapshotNotFound));
}

#[test]
fn restore_idempotence() {
    let mut kvs = fresh();
    kvs.set_value(key("a"), Value::I32(1));
    kvs.flush();
    kvs.set_value(key("a"), Value::I32(2));
    kvs.set_value(key("b"), text("x"));
    kvs.flush();
    assert_eq!(kvs.snapshot_restore(SnapshotId(2)), Ok(()));
    let first: Vec<(String, Value)> = kvs
        .get_all_keys()
        .into_iter()
        .map(|k| {
            let v = kvs.get_value(&k).unwrap().duplicate();
            (k, v)
        })
        .collect();
    assert_eq!(kvs.snapshot_restore(SnapshotId(2)), Ok(()));
    let second: Vec<(String, Value)> = kvs
        .get_all_keys()
        .into_iter()
        .map(|k| {
            let v = kvs.get_value(&k).unwrap().duplicate();
            (k, v)
        })
        .collect();
    assert_eq!(first, second);
    assert_eq!(first, vec![(key("a"), Value::I32(1))]);
    assert_eq!(kvs.snapshot_count(), 2);
}

#[test]
fn reset_completeness() {
    let mut kvs = with_defaults();
    kvs.set_value(key("theme"), text("light"));
    kvs.set_value(key("test2"), Value::I32(42));
    kvs.set_value(key("test3"), Value::Boolean(true));
    assert_eq!(kvs.get_all_keys().len(), 3);
    kvs.flush();
    kvs.reset();
    assert!(kvs.get_all_keys().is_empty());
    assert_eq!(kvs.get_value(&key("theme")), Ok(&text("dark")));
    assert_eq!(kvs.get_value(&key("test2")), Err(ErrorCode::KeyNotFound));
    assert_eq!(kvs.get_value(&key("test3")), Err(ErrorCode::KeyNotFound));
    assert_eq!(kvs.snapshot_count(), 1);
    assert_eq!(kvs.get_default_value(&key("timeout")), Ok(&Value::I32(30)));
}

#[test]
fn versions_and_snapshots_scenario() {
    let mut kvs = fresh();
    kvs.set_value(key("version"), Value::I32(1));
    assert_eq!(kvs.flush(), SnapshotId(1));
    kvs.set_value(key("version"), Value::I32(2));
    assert_eq!(kvs.flush(), SnapshotId(2));
    kvs.set_value(key("version"), Value::I32(3));
    assert_eq!(kvs.flush(), SnapshotId(3));
    assert_eq!(kvs.get_value(&key("version")), Ok(&Value::I32(3)));
    assert_eq!(kvs.snapshot_restore(SnapshotId(1)), Ok(()));
    assert_eq!(kvs.get_value(&key("version")), Err(ErrorCode::KeyNotFound));
    assert!(!kvs.key_exists(&key("version")));
    assert_eq!(kvs.snapshot_restore(SnapshotId(2)), Ok(()));
    assert_eq!(kvs.get_value(&key("version")), Ok(&Value::I32(1)));
    assert_eq!(kvs.snapshot_restore(SnapshotId(3)), Ok(()));
    assert_eq!(kvs.get_value(&key("version")), Ok(&Value::I32(2)));
    assert_eq!(kvs.snapshot_count(), 3);
}

#[test]
fn required_defaults_scenario() {
    let missing = Kvs::build(
        InstanceId(5),
        true,
        KvsLoad::Optional,
        None,
        KvsDefaults::Required,
        None,
        vec![],
    );
    assert_eq!(missing.err(), Some(ErrorCode::DefaultsMissing));
    let kvs = with_defaults();
    assert_eq!(kvs.get_default_value(&key("theme")), Ok(&text("dark")));
    assert_eq!(kvs.get_value(&key("theme")), Ok(&text("dark")));
    assert!(!kvs.key_exists(&key("theme")));
    assert!(kvs.get_all_keys().is_empty());
    assert_eq!(kvs.get_default_value(&key("absent")), Err(ErrorCode::KeyNotFound));
}

#[test]
fn default_value_ignores_overrides() {
    let mut kvs = with_defaults();
    kvs.set_value(key("timeout"), Value::I32(60));
    kvs.set_value(key("extra"), Value::Null);
    assert_eq!(kvs.get_default_value(&key("timeout")), Ok(&Value::I32(30)));
    assert_eq!(kvs.get_value(&key("timeout")), Ok(&Value::I32(60)));
    assert_eq!(kvs.get_default_value(&key("extra")), Err(ErrorCode::KeyNotFound));
    assert!(kvs.key_exists(&key("timeout")));
    assert!(kvs.remove_key(&key("timeout")));
    assert!(!kvs.remove_key(&key("timeout")));
    assert_eq!(kvs.get_value(&key("timeout")), Ok(&Value::I32(30)));
}

#[test]
fn build_fails_without_directory() {
    let r = Kvs::build(
        InstanceId(1),
        false,
        KvsLoad::Optional,
        Some(vec![1, 2, 3]),
        KvsDefaults::Required,
        None,
        vec![],
    );
    assert_eq!(r.err(), Some(ErrorCode::DirectoryUnavailable));
}

#[test]
fn build_fails_on_corrupt_state() {
    let r = Kvs::build(
        InstanceId(1),
        true,
        KvsLoad::Optional,
        Some(vec![1, 2, 3]),
        KvsDefaults::Optional,
        None,
        vec![],
    );
    assert_eq!(r.err(), Some(ErrorCode::CorruptData));
    let ignored = Kvs::build(
        InstanceId(1),
        true,
        KvsLoad::Ignored,
        Some(vec![1, 2, 3]),
        KvsDefaults::Optional,
        None,
        vec![],
    )
    .unwrap();
    assert!(ignored.get_all_keys().is_empty());
    assert_eq!(ignored.current_state(), &vec![1u8, 2, 3]);
}

#[test]
fn build_fails_on_corrupt_defaults_under_either_policy() {
    for policy in [KvsDefaults::Optional, KvsDefaults::Required] {
        let r = Kvs::build(
            InstanceId(1),
            true,
            KvsLoad::Optional,
            None,
            policy,
            Some(vec![9, 9]),
            vec![],
        );
        assert_eq!(r.err(), Some(ErrorCode::CorruptData));
    }
}

#[test]
fn build_fails_on_invalid_history() {
    let snap = |id: u64| Snapshot { id: SnapshotId(id), bytes: vec![0u8; 8] };
    let bad: Vec<Vec<Snapshot>> = vec![
        vec![snap(0)],
        vec![snap(2), snap(1)],
        vec![snap(1), snap(1)],
        vec![snap(1), snap(2), snap(3), snap(4)],
        vec![snap(u64::MAX)],
    ];
    for history in bad {
        assert!(!check_history(&history));
        let r = Kvs::build(
            InstanceId(1),
            true,
            KvsLoad::Optional,
            None,
            KvsDefaults::Optional,
            None,
            history,
        );
        assert_eq!(r.err(), Some(ErrorCode::CorruptData));
    }
    assert!(check_history(&vec![snap(3), snap(7), snap(8)]));
    assert!(check_history(&vec![]));
}

#[test]
fn state_and_history_survive_a_rebuild() {
    let mut kvs = fresh();
    kvs.set_value(key("a"), Value::I32(1));
    kvs.flush();
    kvs.set_value(key("a"), Value::I32(2));
    kvs.flush();
    let state = kvs.current_state().clone();
    let history = kvs.snapshots().clone();
    assert_eq!(history.len(), 2);
    assert_eq!(history[0].id, SnapshotId(1));
    assert_eq!(history[0].bytes, vec![0u8; 8]);
    assert_eq!(find_snapshot(&history, SnapshotId(2)), Some(1));
    assert_eq!(find_snapshot(&history, SnapshotId(3)), None);
    let mut again = Kvs::build(
        InstanceId(1),
        true,
        KvsLoad::Optional,
        Some(state),
        KvsDefaults::Optional,
        None,
        history,
    )
    .unwrap();
    assert_eq!(again.instance_id(), InstanceId(1));
    assert_eq!(again.get_value(&key("a")), Ok(&Value::I32(2)));
    assert_eq!(again.snapshot_count(), 2);
    assert_eq!(again.flush(), SnapshotId(3));
    assert_eq!(again.flush(), SnapshotId(4));
    assert_eq!(again.snapshot_count(), 3);
    assert_eq!(again.snapshot_restore(SnapshotId(1)), Err(ErrorCode::SnapshotNotFound));
    assert_eq!(again.snapshot_restore(SnapshotId(2)), Ok(()));
    assert_eq!(again.get_value(&key("a")), Ok(&Value::I32(1)));
}

#[test]
fn restore_reports_corrupt_snapshot() {
    let history = vec![Snapshot { id: SnapshotId(4), bytes: vec![1, 2, 3] }];
    let mut kvs = Kvs::build(
        InstanceId(1),
        true,
        KvsLoad::Optional,
        None,
        KvsDefaults::Optional,
        None,
        history,
    )
    .unwrap();
    kvs.set_value(key("a"), Value::Null);
    assert_eq!(kvs.snapshot_restore(SnapshotId(4)), Err(ErrorCode::CorruptData));
    assert!(kvs.key_exists(&key("a")));
    assert_eq!(kvs.flush(), SnapshotId(5));
}

#[test]
fn flush_is_what_makes_changes_durable() {
    let mut kvs = fresh();
    kvs.set_value(key("a"), Value::I32(1));
    assert_eq!(kvs.current_state(), &vec![0u8; 8]);
    kvs.flush();
    let mut expected = KvsMap::new();
    expected.insert(key("a"), Value::I32(1));
    assert_eq!(kvs.current_state(), &encode(&expected));
}

#[test]
fn defaults_layer_load_and_resolve() {
    assert_eq!(load(None, KvsDefaults::Required).err(), Some(ErrorCode::DefaultsMissing));
    assert_eq!(load(None, KvsDefaults::Optional).unwrap().len(), 0);
    assert_eq!(load(Some(&[1u8][..]), KvsDefaults::Optional).err(), Some(ErrorCode::CorruptData));
    let source = defaults_source();
    let defaults = load(Some(&source[..]), KvsDefaults::Required).unwrap();
    assert_eq!(defaults.len(), 5);
    let mut overrides = KvsMap::new();
    overrides.insert(key("theme"), text("light"));
    assert_eq!(resolve(&key("theme"), &overrides, &defaults), Ok(&text("light")));
    assert_eq!(resolve(&key("language"), &overrides, &defaults), Ok(&text("en")));
    assert_eq!(resolve(&key("nothing"), &overrides, &defaults), Err(ErrorCode::KeyNotFound));
    assert!(!is_default(&key("theme"), &overrides));
    assert!(is_default(&key("language"), &overrides));
    assert!(is_default(&key("nothing"), &overrides));
}

#[test]
fn flush_stops_when_identifiers_are_used_up() {
    let history = vec![Snapshot { id: SnapshotId(u64::MAX - 1), bytes: vec![0u8; 8] }];
    let mut kvs = Kvs::build(
        InstanceId(1),
        true,
        KvsLoad::Optional,
        None,
        KvsDefaults::Optional,
        None,
        history,
    )
    .unwrap();
    kvs.set_value(key("a"), Value::Null);
    assert!(!kvs.can_flush());
    assert_eq!(kvs.try_flush(), None);
    assert_eq!(kvs.snapshot_count(), 1);
    assert_eq!(kvs.current_state(), &vec![0u8; 8]);
    assert!(kvs.key_exists(&key("a")));
    let mut fresh = fresh();
    assert_eq!(fresh.try_flush(), Some(SnapshotId(1)));
    assert_eq!(fresh.try_flush(), Some(SnapshotId(2)));
}

#[test]
fn snapshot_bound_with_earlier_history() {
    let snap = |id: u64| Snapshot { id: SnapshotId(id), bytes: vec![0u8; 8] };
    let mut kvs = Kvs::build(
        InstanceId(1),
        true,
        KvsLoad::Optional,
        None,
        KvsDefaults::Optional,
        None,
        vec![snap(3), snap(7)],
    )
    .unwrap();
    for expected in 8..12u64 {
        assert_eq!(kvs.flush(), SnapshotId(expected));
    }
    assert_eq!(kvs.snapshot_count(), 3);
    for gone in [3u64, 7, 8] {
        assert_eq!(kvs.snapshot_restore(SnapshotId(gone)), Err(ErrorCode::SnapshotNotFound));
    }
    for kept in [9u64, 10, 11] {
        assert_eq!(kvs.snapshot_restore(SnapshotId(kept)), Ok(()));
    }
}
