use std::ops::Bound;
use tinykv::kv::config::{Config, DiskSize};
use tinykv::kv::storage::mutation::Mutation;
use tinykv::kv::ColumnFamily;
use tinykv::proto::kvpb::{Action, Op};
use tinykv::proto::metapb::StoreState;
use tinykv::raft::error::RaftError;

#[test]
fn a_key_gets_the_name_of_its_column_family_in_front() {
    assert_eq!(ColumnFamily::Default.add_prefix(b"a"), b"default_a".to_vec());
    assert_eq!(ColumnFamily::Write.add_prefix(b"a"), b"write_a".to_vec());
    assert_eq!(ColumnFamily::Lock.add_prefix(b"a"), b"lock_a".to_vec());
    assert_eq!(ColumnFamily::Default.add_prefix(b""), b"default_".to_vec());
    assert_eq!(ColumnFamily::Lock.add_prefix(&[0, 255]), vec![108, 111, 99, 107, 95, 0, 255]);
}

#[test]
fn strip_prefix_undoes_add_prefix() {
    for cf in [ColumnFamily::Default, ColumnFamily::Write, ColumnFamily::Lock] {
        for key in [&b""[..], b"a", b"default_", b"\x00\xff"] {
            assert!(cf.has_prefix(&cf.add_prefix(key)));
            assert_eq!(cf.strip_prefix(&cf.add_prefix(key)), key.to_vec());
        }
    }
    assert_eq!(ColumnFamily::Write.strip_prefix(b"write_key"), b"key".to_vec());
}

#[test]
fn has_prefix_tells_the_column_families_apart() {
    assert!(ColumnFamily::Default.has_prefix(b"default_"));
    assert!(ColumnFamily::Default.has_prefix(b"default_x"));
    assert!(!ColumnFamily::Default.has_prefix(b"default"));
    assert!(!ColumnFamily::Default.has_prefix(b"write_x"));
    assert!(!ColumnFamily::Write.has_prefix(b"lock_x"));
    assert!(!ColumnFamily::Lock.has_prefix(b""));
    assert!(!ColumnFamily::Lock.has_prefix(&ColumnFamily::Write.add_prefix(b"lock_")));
}

#[test]
fn a_bound_gets_the_prefix_where_it_has_a_key() {
    let cf = ColumnFamily::Default;
    assert_eq!(
        cf.add_bound_prefix(Bound::Included(b"b".to_vec())),
        Bound::Included(b"default_b".to_vec())
    );
    assert_eq!(
        cf.add_bound_prefix(Bound::Excluded(b"bz".to_vec())),
        Bound::Excluded(b"default_bz".to_vec())
    );
    assert_eq!(cf.add_bound_prefix(Bound::Unbounded), Bound::Unbounded);
}

#[test]
fn a_column_family_is_named_in_lower_case() {
    assert_eq!(ColumnFamily::parse("default"), Some(ColumnFamily::Default));
    assert_eq!(ColumnFamily::parse("write"), Some(ColumnFamily::Write));
    assert_eq!(ColumnFamily::parse("lock"), Some(ColumnFamily::Lock));
    assert_eq!(ColumnFamily::parse("Default"), None);
    assert_eq!(ColumnFamily::parse("default_"), None);
    assert_eq!(ColumnFamily::parse(""), None);
}

#[test]
fn disk_sizes_in_bytes() {
    assert_eq!(DiskSize::KiB(1).num_bytes(), 1024);
    assert_eq!(DiskSize::KiB(3).num_bytes(), 3072);
    assert_eq!(DiskSize::MiB(1).num_bytes(), 1_048_576);
    assert_eq!(DiskSize::MiB(144).num_bytes(), 150_994_944);
    assert_eq!(DiskSize::KiB(0).num_bytes(), 0);
    assert_eq!(DiskSize::MiB(96).checked_num_bytes(), Some(100_663_296));
    assert_eq!(DiskSize::KiB(u64::MAX / 1024).checked_num_bytes(), Some(u64::MAX - 1023));
    assert_eq!(DiskSize::KiB(u64::MAX / 1024 + 1).checked_num_bytes(), None);
    assert_eq!(DiskSize::MiB(u64::MAX).checked_num_bytes(), None);
}

#[test]
fn the_default_configuration_is_refused_for_its_election_timeout() {
    let config = Config::default();
    assert_eq!(config.store_addr, "127.0.0.1:20160");
    assert_eq!(config.scheduler_addr, "127.0.0.1:2379");
    assert_eq!(config.db_path, "/tmp/data");
    assert!(config.is_raft);
    assert_eq!(config.raft_base_tick_interval, 1_000);
    assert_eq!(config.raft_heart_beat_ticks, 2_000);
    assert_eq!(config.raft_election_timeout_ticks, 10);
    assert_eq!(config.raft_log_gc_count_limit, 128_000);
    assert_eq!(config.region_max_size.num_bytes(), 144 * 1024 * 1024);
    assert_eq!(config.region_split_size.num_bytes(), 96 * 1024 * 1024);
    assert_eq!(
        config.validate(),
        Err("Election timeout ticks needs to be same across all the cluster, otherwise it may lead to inconsistency.".to_string())
    );
}

#[test]
fn the_test_configuration_is_accepted() {
    let config = Config::for_test();
    assert_eq!(config.raft_base_tick_interval, 50);
    assert_eq!(config.raft_election_timeout_ticks, 10_000);
    assert_eq!(config.scheduler_store_heartbeat_tick_interval, 500);
    assert_eq!(config.validate(), Ok(()));
    assert_eq!(config.find_fault(), None);
}

#[test]
fn each_fault_of_a_configuration_has_its_words() {
    let mut config = Config::for_test();
    config.raft_heart_beat_ticks = 0;
    assert_eq!(config.validate(), Err("heartbeat tick must be greater that 0.".to_string()));

    // the heartbeat is looked at before the election timeout
    config.raft_election_timeout_ticks = 5;
    assert_eq!(config.validate(), Err("heartbeat tick must be greater that 0.".to_string()));

    let mut config = Config::for_test();
    config.raft_heart_beat_ticks = 10_000;
    assert_eq!(
        config.validate(),
        Err("election tick must be greater than heartbeat tick.".to_string())
    );
    config.raft_heart_beat_ticks = 9_999;
    assert_eq!(config.validate(), Ok(()));
}

#[test]
fn a_mutation_tells_its_key_value_and_column_family() {
    let put = Mutation::Put { key: vec![1], value: vec![2, 3], cf: ColumnFamily::Write };
    assert_eq!(put.key(), vec![1]);
    assert_eq!(put.value(), Some(vec![2, 3]));
    assert_eq!(put.column_family(), ColumnFamily::Write);
    let delete = Mutation::Delete { key: vec![4], cf: ColumnFamily::Lock };
    assert_eq!(delete.key(), vec![4]);
    assert_eq!(delete.value(), None);
    assert_eq!(delete.column_family(), ColumnFamily::Lock);
}

#[test]
fn the_names_of_operations() {
    assert_eq!(Op::Put.as_str_name(), "Put");
    assert_eq!(Op::Del.as_str_name(), "Del");
    assert_eq!(Op::Rollback.as_str_name(), "Rollback");
    assert_eq!(Op::Lock.as_str_name(), "Lock");
    for op in [Op::Put, Op::Del, Op::Rollback, Op::Lock] {
        assert_eq!(Op::from_str_name(op.as_str_name()), Some(op));
    }
    assert_eq!(Op::from_str_name("put"), None);
    assert_eq!(Op::from_str_name(""), None);
}

#[test]
fn the_names_of_actions() {
    assert_eq!(Action::NoAction.as_str_name(), "NoAction");
    assert_eq!(Action::TtlExpireRollback.as_str_name(), "TTLExpireRollback");
    assert_eq!(Action::LockNotExistRollback.as_str_name(), "LockNotExistRollback");
    for action in [Action::NoAction, Action::TtlExpireRollback, Action::LockNotExistRollback] {
        assert_eq!(Action::from_str_name(action.as_str_name()), Some(action));
    }
    assert_eq!(Action::from_str_name("TtlExpireRollback"), None);
}

#[test]
fn the_names_of_store_states() {
    assert_eq!(StoreState::Up.as_str_name(), "Up");
    assert_eq!(StoreState::Offline.as_str_name(), "Offline");
    assert_eq!(StoreState::Tomstone.as_str_name(), "Tomstone");
    for state in [StoreState::Up, StoreState::Offline, StoreState::Tomstone] {
        assert_eq!(StoreState::from_str_name(state.as_str_name()), Some(state));
    }
    assert_eq!(StoreState::from_str_name("Tombstone"), None);
}

#[test]
fn a_raft_error_holds_its_words() {
    let error = RaftError::new("channel closed".to_string());
    assert_eq!(error.0, "channel closed");
}

#[test]
fn a_column_family_can_be_parsed_from_its_name() {
    assert_eq!("write".parse::<ColumnFamily>().unwrap(), ColumnFamily::Write);
    assert_eq!("default".parse::<ColumnFamily>().unwrap(), ColumnFamily::Default);
    assert_eq!("lock".parse::<ColumnFamily>().unwrap(), ColumnFamily::Lock);
    assert_eq!("Lock".parse::<ColumnFamily>().unwrap_err().0, "unknown column family");
}
