//! The consensus core: log store, timers, roles and the node that owns them.

pub mod candidate;
pub mod codec;
pub mod error;
pub mod follower;
pub mod leader;
pub mod log;
pub mod node;
pub mod role;
pub mod state;
pub mod timer;

use self::timer::TimerCommand;
use rand::Rng;
use vstd::prelude::*;

verus! {

/// A node ID.
pub type NodeId = u8;

/// A leader term.
pub type Term = u64;

/// A logical clock interval as number of ticks.
pub type Ticks = u8;

/// The interval between leader heartbeats, in milliseconds.
pub const HEARTBEAT_INTERVAL: u64 = 300;

/// The least election timeout, in milliseconds.
pub const ELECTION_TIMEOUT_MIN: u64 = 1000;

/// The bound that every election timeout stays under, in milliseconds.
pub const ELECTION_TIMEOUT_MAX: u64 = 2000;

/// The status of an answer to a leader whose message was taken.
pub const TAKEN: u16 = 1;

/// The status of an answer to a leader whose message was refused as stale.
pub const REFUSED: u16 = 0;

/// The role a node plays.
#[derive(Clone, Copy, Debug, PartialEq, Eq, Structural)]
pub enum RoleState {
    Follower,
    Candidate,
    Leader,
}

/// Everything that travels through a mailbox: what timers deliver to their
/// own node, and what nodes send to one another.
#[derive(Clone, Copy, Debug, PartialEq, Eq, Structural)]
pub enum RaftMessage {
    /// The election timer of the node has fired.
    ElectionTimeOut,
    /// The heartbeat timer of the node has fired.
    HeartTimeOut,
    /// A leader asserts its authority for `term`.
    AppendEntries { term: Term, leader: NodeId },
    /// The answer to a leader, from a node whose term is `term`. `status`
    /// says whether the node has taken what the leader sent.
    AppendEntriesResponse { term: Term, status: u16 },
    /// A candidate asks for a vote in `term`. `last_log_term` is the term of
    /// the last entry of its log and `log_len` the number of its entries.
    RequestVote { term: Term, candidate: NodeId, last_log_term: Term, log_len: u64 },
    /// The answer of `voter`, whose term is `term`.
    RequestVoteResponse { term: Term, granted: bool, voter: NodeId },
}

/// What a node asks of the world around it after it has taken a message.
#[derive(Clone, Copy, Debug, PartialEq, Eq, Structural)]
pub enum Effect {
    /// Put `message` into the mailbox of the node `to`.
    Send { to: NodeId, message: RaftMessage },
    /// Carry out a command on the clock of the active role.
    Timer(TimerCommand),
}

/// The timing of a node: the heartbeat interval and the range that election
/// timeouts are drawn from, all in milliseconds.
#[derive(Clone, Copy, Debug, PartialEq, Eq, Structural)]
pub struct RaftConfig {
    pub heartbeat_interval: u64,
    pub election_timeout_min: u64,
    pub election_timeout_max: u64,
}

impl RaftConfig {
    /// A timeout is one that this configuration can yield: it lies in the
    /// range, from the least value up to but not including the bound, or is
    /// the least value where the range is empty.
    pub open spec fn yields(self, timeout: u64) -> bool {
        if self.election_timeout_min < self.election_timeout_max {
            self.election_timeout_min <= timeout < self.election_timeout_max
        } else {
            timeout == self.election_timeout_min
        }
    }

    /// Heartbeats every 300 ms, election timeouts from 1000 ms up to 2000 ms.
    pub fn standard() -> (config: RaftConfig)
        ensures
            config.heartbeat_interval == HEARTBEAT_INTERVAL,
            config.election_timeout_min == ELECTION_TIMEOUT_MIN,
            config.election_timeout_max == ELECTION_TIMEOUT_MAX,
    {
        RaftConfig {
            heartbeat_interval: HEARTBEAT_INTERVAL,
            election_timeout_min: ELECTION_TIMEOUT_MIN,
            election_timeout_max: ELECTION_TIMEOUT_MAX,
        }
    }

    /// A configuration whose election timeout is always `election_timeout`.
    pub fn fixed(heartbeat_interval: u64, election_timeout: u64) -> (config: RaftConfig)
        ensures
            config.heartbeat_interval == heartbeat_interval,
            forall|timeout: u64| config.yields(timeout) <==> timeout == election_timeout,
    {
        let bound: u64 = if election_timeout < u64::MAX {
            election_timeout + 1
        } else {
            election_timeout
        };
        RaftConfig {
            heartbeat_interval,
            election_timeout_min: election_timeout,
            election_timeout_max: bound,
        }
    }

    /// Draws an election timeout.
    pub fn election_timeout(&self) -> (timeout: u64)
        ensures
            self.yields(timeout),
    {
        if self.election_timeout_min < self.election_timeout_max {
            random_in(self.election_timeout_min, self.election_timeout_max)
        } else {
            self.election_timeout_min
        }
    }
}

/// A number drawn uniformly from `low` up to but not including `high`, by
/// rand's `Rng::gen_range` on the generator of the calling thread. The
/// number differs from call to call; `gen_range` panics on an empty range.
#[verifier::external_body]
fn random_in(low: u64, high: u64) -> (drawn: u64)
    requires
        low < high,
    ensures
        low <= drawn < high,
{
    rand::thread_rng().gen_range(low..high)
}

/// Generates a randomized election timeout, in milliseconds.
pub fn rand_election_timeout() -> (timeout: u64)
    ensures
        ELECTION_TIMEOUT_MIN <= timeout < ELECTION_TIMEOUT_MAX,
{
    random_in(ELECTION_TIMEOUT_MIN, ELECTION_TIMEOUT_MAX)
}

/// The interval between leader heartbeats, in milliseconds.
pub fn heartbeat_interval() -> (interval: u64)
    ensures
        interval == HEARTBEAT_INTERVAL,
{
    HEARTBEAT_INTERVAL
}

} // verus!
