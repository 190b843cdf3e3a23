use vstd::prelude::*;

verus! {

#[derive(Debug, Clone, Copy)]
pub enum DiskSize {
    KiB(u64),
    MiB(u64),
}

impl DiskSize {
    /// The size in bytes, as a number without bound.
    pub open spec fn bytes(self) -> int {
        match self {
            DiskSize::KiB(n) => n * 1024,
            DiskSize::MiB(n) => n * 1024 * 1024,
        }
    }

    /// The size in bytes. The size must be one that a `u64` can tell.
    pub fn num_bytes(&self) -> (bytes: u64)
        requires
            self.bytes() <= u64::MAX,
        ensures
            bytes == self.bytes(),
    {
        match self {
            DiskSize::KiB(n) => *n * 1024,
            DiskSize::MiB(n) => *n * 1024 * 1024,
        }
    }

    /// The size in bytes, or nothing where a `u64` cannot tell it.
    pub fn checked_num_bytes(&self) -> (bytes: Option<u64>)
        ensures
            match bytes {
                Some(bytes) => bytes == self.bytes(),
                None => self.bytes() > u64::MAX,
            },
    {
        let (n, unit): (u64, u64) = match self {
            DiskSize::KiB(n) => (*n, 1024),
            DiskSize::MiB(n) => (*n, 1024 * 1024),
        };
        if n > u64::MAX / unit {
            assert(n * unit > u64::MAX) by (nonlinear_arith)
                requires
                    n > u64::MAX / unit,
                    unit == 1024 || unit == 1024 * 1024,
            ;
            None
        } else {
            assert(n * unit <= u64::MAX) by (nonlinear_arith)
                requires
                    n <= u64::MAX / unit,
                    unit == 1024 || unit == 1024 * 1024,
            ;
            Some(n * unit)
        }
    }
}

/// The election timeout that every node of a cluster has to be set to, in
/// milliseconds.
pub const CLUSTER_ELECTION_TIMEOUT: u64 = 10_000;

/// The settings of a store. All durations are in milliseconds.
pub struct Config {
    pub store_addr: String,
    pub is_raft: bool,
    pub scheduler_addr: String,
    // directory to store the data in.
    // should exist and be writable.
    pub db_path: String,
    // raft_base_tick_interval is a base tick interval (ms).
    pub raft_base_tick_interval: u64,
    pub raft_heart_beat_ticks: u64,
    pub raft_election_timeout_ticks: u64,
    // interval to garbage collect unnecessary raft log (ms).
    pub raft_log_gc_tick_interval: u64,
    // when entry count exceed this value, gc will be forced trigger.
    pub raft_log_gc_count_limit: u64,
    // interval (ms) to check wether a region need to be split of not.
    pub split_region_check_tick_interval: u64,
    // delay time before deleting a stale peer
    pub scheduler_heartbeat_tick_interval: u64,
    pub scheduler_store_heartbeat_tick_interval: u64,
    // when region [a, e) size reaches region_max_size, it will be split into
    // several regions [a, b), [b,c), [c, d), [d, e), and the size [a, b), [b,c),
    // [c, d) will be region_split_size (maybe a little larger).
    pub region_max_size: DiskSize,
    pub region_split_size: DiskSize,
}

/// What is wrong with a configuration, in the order in which it is looked
/// for.
#[derive(Debug, Clone, Copy, PartialEq, Eq, Structural)]
pub enum ConfigFault {
    /// The heartbeat interval is zero.
    NoHeartbeat,
    /// The election timeout is not the one that the whole cluster uses.
    OddElectionTimeout,
    /// The election timeout is not greater than the heartbeat interval.
    ElectionBeforeHeartbeat,
}

impl ConfigFault {
    /// The words for the fault.
    pub open spec fn text(self) -> Seq<char> {
        match self {
            ConfigFault::NoHeartbeat => "heartbeat tick must be greater that 0."@,
            ConfigFault::OddElectionTimeout =>
                "Election timeout ticks needs to be same across all the cluster, otherwise it may lead to inconsistency."@,
            ConfigFault::ElectionBeforeHeartbeat =>
                "election tick must be greater than heartbeat tick."@,
        }
    }
}

impl Default for Config {
    fn default() -> (config: Self)
        ensures
            config.store_addr@ == "127.0.0.1:20160"@,
            config.is_raft,
            config.scheduler_addr@ == "127.0.0.1:2379"@,
            config.db_path@ == "/tmp/data"@,
            config.raft_base_tick_interval == 1_000,
            config.raft_heart_beat_ticks == 2_000,
            config.raft_election_timeout_ticks == 10,
            config.raft_log_gc_tick_interval == 10_000,
            config.raft_log_gc_count_limit == 128_000,
            config.split_region_check_tick_interval == 10_000,
            config.scheduler_heartbeat_tick_interval == 10_000,
            config.scheduler_store_heartbeat_tick_interval == 10_000,
            config.region_max_size == DiskSize::MiB(144),
            config.region_split_size == DiskSize::MiB(96),
    {
        Self {
            store_addr: "127.0.0.1:20160".to_owned(),
            is_raft: true,
            scheduler_addr: "127.0.0.1:2379".to_owned(),
            db_path: "/tmp/data".to_owned(),
            raft_base_tick_interval: 1_000,
            raft_heart_beat_ticks: 2_000,
            raft_election_timeout_ticks: 10,
            raft_log_gc_tick_interval: 10_000,
            raft_log_gc_count_limit: 128_000,  // assume the average size of entries is 1k.
            split_region_check_tick_interval: 10_000,
            scheduler_heartbeat_tick_interval: 10_000,
            scheduler_store_heartbeat_tick_interval: 10_000,
            region_max_size: DiskSize::MiB(144),
            region_split_size: DiskSize::MiB(96),
        }
    }
}

impl Config {
    /// The first thing that is wrong with the configuration, if anything is.
    pub open spec fn fault(self) -> Option<ConfigFault> {
        if self.raft_heart_beat_ticks == 0 {
            Some(ConfigFault::NoHeartbeat)
        } else if self.raft_election_timeout_ticks != CLUSTER_ELECTION_TIMEOUT {
            Some(ConfigFault::OddElectionTimeout)
        } else if self.raft_election_timeout_ticks <= self.raft_heart_beat_ticks {
            Some(ConfigFault::ElectionBeforeHeartbeat)
        } else {
            None
        }
    }

    /// Looks for the first fault of the configuration.
    pub fn find_fault(&self) -> (fault: Option<ConfigFault>)
        ensures
            fault == self.fault(),
    {
        if self.raft_heart_beat_ticks == 0 {
            Some(ConfigFault::NoHeartbeat)
        } else if self.raft_election_timeout_ticks != CLUSTER_ELECTION_TIMEOUT {
            Some(ConfigFault::OddElectionTimeout)
        } else if self.raft_election_timeout_ticks <= self.raft_heart_beat_ticks {
            Some(ConfigFault::ElectionBeforeHeartbeat)
        } else {
            None
        }
    }

    /// Accepts the configuration, or says in words what is wrong with it.
    pub fn validate(&self) -> (result: Result<(), String>)
        ensures
            match result {
                Ok(_) => self.fault() is None,
                Err(words) => self.fault() matches Some(fault) && words@ == fault.text(),
            },
    {
        match self.find_fault() {
            None => Ok(()),
            Some(ConfigFault::NoHeartbeat) => Err(
                "heartbeat tick must be greater that 0.".to_owned(),
            ),
            Some(ConfigFault::OddElectionTimeout) => Err(
                "Election timeout ticks needs to be same across all the cluster, otherwise it may lead to inconsistency.".to_owned(),
            ),
            Some(ConfigFault::ElectionBeforeHeartbeat) => Err(
                "election tick must be greater than heartbeat tick.".to_owned(),
            ),
        }
    }

    /// A configuration with short intervals, which `validate` accepts.
    pub fn for_test() -> (config: Self)
        ensures
            config.store_addr@ == "127.0.0.1:20160"@,
            config.is_raft,
            config.scheduler_addr@ == "127.0.0.1:2379"@,
            config.db_path@ == "/tmp/data"@,
            config.raft_base_tick_interval == 50,
            config.raft_heart_beat_ticks == 2_000,
            config.raft_election_timeout_ticks == 10_000,
            config.raft_log_gc_tick_interval == 50,
            config.raft_log_gc_count_limit == 128_000,
            config.split_region_check_tick_interval == 100,
            config.scheduler_heartbeat_tick_interval == 100,
            config.scheduler_store_heartbeat_tick_interval == 500,
            config.region_max_size == DiskSize::MiB(144),
            config.region_split_size == DiskSize::MiB(96),
            config.fault() is None,
    {
        Self {
            store_addr: "127.0.0.1:20160".to_owned(),
            is_raft: true,
            scheduler_addr: "127.0.0.1:2379".to_owned(),
            db_path: "/tmp/data".to_owned(),
            raft_base_tick_interval: 50,
            raft_heart_beat_ticks: 2_000,
            raft_election_timeout_ticks: 10_000,
            raft_log_gc_tick_interval: 50,
            raft_log_gc_count_limit: 128_000,  // assume the average size of entries is 1k.
            split_region_check_tick_interval: 100,
            scheduler_heartbeat_tick_interval: 100,
            scheduler_store_heartbeat_tick_interval: 500,
            region_max_size: DiskSize::MiB(144),
            region_split_size: DiskSize::MiB(96),
        }
    }
}

} // verus!
