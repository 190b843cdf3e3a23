use super::errorpb::Error;
use super::metapb::{Peer, RegionEpoch};
use vstd::prelude::*;

verus! {

/// Raw commands.
#[derive(Clone, Debug, PartialEq, Default)]
pub struct RawGetRequest {
    pub context: Option<Context>,
    pub key: Vec<u8>,
    pub cf: String,
}

#[derive(Clone, Debug, PartialEq, Default)]
pub struct RawGetResponse {
    pub region_error: Option<Error>,
    pub error: String,
    pub value: Vec<u8>,
    /// True if the requested key doesn't exist; another error will not be signalled.
    pub not_found: bool,
}

#[derive(Clone, Debug, PartialEq, Default)]
pub struct RawPutRequest {
    pub context: Option<Context>,
    pub key: Vec<u8>,
    pub value: Vec<u8>,
    pub cf: String,
}

#[derive(Clone, Debug, PartialEq, Default)]
pub struct RawPutResponse {
    pub region_error: Option<Error>,
    pub error: String,
}

#[derive(Clone, Debug, PartialEq, Default)]
pub struct RawDeleteRequest {
    pub context: Option<Context>,
    pub key: Vec<u8>,
    pub cf: String,
}

#[derive(Clone, Debug, PartialEq, Default)]
pub struct RawDeleteResponse {
    pub region_error: Option<Error>,
    pub error: String,
}

#[derive(Clone, Debug, PartialEq, Default)]
pub struct RawScanRequest {
    pub context: Option<Context>,
    pub start_key: Vec<u8>,
    /// The maximum number of values read.
    pub limit: u32,
    pub cf: String,
}

#[derive(Clone, Debug, PartialEq, Default)]
pub struct RawScanResponse {
    pub region_error: Option<Error>,
    /// An error which affects the whole scan. Per-key errors are included in kvs.
    pub error: String,
    pub kvs: Vec<KvPair>,
}

/// Either a key/value pair or an error for a particular key.
#[derive(Clone, Debug, PartialEq, Default)]
pub struct KvPair {
    pub error: Option<KeyError>,
    pub key: Vec<u8>,
    pub value: Vec<u8>,
}

#[derive(Clone, Debug, PartialEq, Default)]
pub struct Mutation {
    /// The number of an `Op`.
    pub op: i32,
    pub key: Vec<u8>,
    pub value: Vec<u8>,
}

/// Many responses can include a KeyError for some problem with one of the requested key.
/// Only one field is set and it indicates what the client should do in response.
#[derive(Clone, Debug, PartialEq, Default)]
pub struct KeyError {
    /// Client should backoff or cleanup the lock then retry.
    pub locked: Option<LockInfo>,
    /// Client may restart the txn. e.g write conflict.
    pub retryable: String,
    /// Client should abort the txn.
    pub abort: String,
    /// Another transaction is trying to write a key. The client can retry.
    pub conflict: Option<WriteConflict>,
}

#[derive(Clone, Debug, PartialEq, Default)]
pub struct LockInfo {
    pub primary_lock: Vec<u8>,
    pub lock_version: u64,
    pub key: Vec<u8>,
    pub lock_ttl: u64,
}

#[derive(Clone, Debug, PartialEq, Default)]
pub struct WriteConflict {
    pub start_ts: u64,
    pub conflict_ts: u64,
    pub key: Vec<u8>,
    pub primary: Vec<u8>,
}

/// Miscellaneous data present in each request.
#[derive(Clone, Debug, PartialEq, Default)]
pub struct Context {
    pub region_id: u64,
    pub region_epoch: Option<RegionEpoch>,
    pub peer: Option<Peer>,
    pub term: u64,
}

#[derive(Clone, Copy, Debug, PartialEq, Eq, Structural, Hash)]
pub enum Op {
    Put,
    Del,
    Rollback,
    /// Used by TinySQL but not TinyKV.
    Lock,
}

impl Op {
    /// The name of the operation in the definition of the messages.
    pub open spec fn name(self) -> Seq<char> {
        match self {
            Op::Put => "Put"@,
            Op::Del => "Del"@,
            Op::Rollback => "Rollback"@,
            Op::Lock => "Lock"@,
        }
    }

    /// String value of the enum field names used in the ProtoBuf definition.
    ///
    /// The values are not transformed in any way and thus are considered stable
    /// (if the ProtoBuf definition does not change) and safe for programmatic use.
    pub fn as_str_name(&self) -> (name: &'static str)
        ensures
            name@ == self.name(),
    {
        match self {
            Op::Put => "Put",
            Op::Del => "Del",
            Op::Rollback => "Rollback",
            Op::Lock => "Lock",
        }
    }

    /// Creates an enum from field names used in the ProtoBuf definition.
    pub fn from_str_name(value: &str) -> (op: Option<Self>)
        ensures
            match op {
                Some(op) => value@ == op.name(),
                None => forall|op: Op| value@ != op.name(),
            },
    {
        let value = value.to_owned();
        if value == "Put".to_owned() {
            Some(Self::Put)
        } else if value == "Del".to_owned() {
            Some(Self::Del)
        } else if value == "Rollback".to_owned() {
            Some(Self::Rollback)
        } else if value == "Lock".to_owned() {
            Some(Self::Lock)
        } else {
            None
        }
    }
}

#[derive(Clone, Copy, Debug, PartialEq, Eq, Structural, Hash)]
pub enum Action {
    NoAction,
    /// The lock is rolled back because it has expired.
    TtlExpireRollback,
    /// The lock does not exist, TinyKV left a record of the rollback, but did not
    /// have to delete a lock.
    LockNotExistRollback,
}

impl Action {
    /// The name of the action in the definition of the messages.
    pub open spec fn name(self) -> Seq<char> {
        match self {
            Action::NoAction => "NoAction"@,
            Action::TtlExpireRollback => "TTLExpireRollback"@,
            Action::LockNotExistRollback => "LockNotExistRollback"@,
        }
    }

    /// String value of the enum field names used in the ProtoBuf definition.
    ///
    /// The values are not transformed in any way and thus are considered stable
    /// (if the ProtoBuf definition does not change) and safe for programmatic use.
    pub fn as_str_name(&self) -> (name: &'static str)
        ensures
            name@ == self.name(),
    {
        match self {
            Action::NoAction => "NoAction",
            Action::TtlExpireRollback => "TTLExpireRollback",
            Action::LockNotExistRollback => "LockNotExistRollback",
        }
    }

    /// Creates an enum from field names used in the ProtoBuf definition.
    pub fn from_str_name(value: &str) -> (action: Option<Self>)
        ensures
            match action {
                Some(action) => value@ == action.name(),
                None => forall|action: Action| value@ != action.name(),
            },
    {
        let value = value.to_owned();
        if value == "NoAction".to_owned() {
            Some(Self::NoAction)
        } else if value == "TTLExpireRollback".to_owned() {
            Some(Self::TtlExpireRollback)
        } else if value == "LockNotExistRollback".to_owned() {
            Some(Self::LockNotExistRollback)
        } else {
            None
        }
    }
}

/// Each operation has a name of its own, so that a name gives its operation
/// back.
pub proof fn lemma_op_names_differ(one: Op, other: Op)
    requires
        one != other,
    ensures
        one.name() != other.name(),
{
    reveal_strlit("Put");
    reveal_strlit("Del");
    reveal_strlit("Rollback");
    reveal_strlit("Lock");
    if one.name() == other.name() {
        assert(one.name().len() == other.name().len());
        assert(one.name()[0] == other.name()[0]);
    }
}

/// Each action has a name of its own, so that a name gives its action back.
pub proof fn lemma_action_names_differ(one: Action, other: Action)
    requires
        one != other,
    ensures
        one.name() != other.name(),
{
    reveal_strlit("NoAction");
    reveal_strlit("TTLExpireRollback");
    reveal_strlit("LockNotExistRollback");
    if one.name() == other.name() {
        assert(one.name().len() == other.name().len());
    }
}

} // verus!
