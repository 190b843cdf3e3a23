use vstd::prelude::*;

verus! {

#[derive(Clone, Debug, PartialEq, Default)]
pub struct Cluster {
    pub id: u64,
    /// max peer count for a region.
    /// scheduler will do the auto-balance if region peer count mismatches.
    pub max_peer_count: u32,
}

#[derive(Clone, Debug, PartialEq, Default)]
pub struct Store {
    pub id: u64,
    /// address to handle client requests (kv, cop, etc.)
    pub address: String,
    /// The number of a `StoreState`.
    pub state: i32,
}

#[derive(Clone, Debug, PartialEq, Default)]
pub struct RegionEpoch {
    /// config change version, auto-incremented when peer is added or removed.
    pub config_version: u64,
    /// region version, auto-increnented when region is split or merged.
    pub version: u64,
}

#[derive(Clone, Debug, PartialEq, Default)]
pub struct Region {
    pub id: u64,
    /// Region key range [start_key, end_key).
    pub start_key: Vec<u8>,
    pub end_key: Vec<u8>,
    pub region_epoch: Option<RegionEpoch>,
    pub peers: Vec<Peer>,
}

#[derive(Clone, Debug, PartialEq, Default)]
pub struct Peer {
    pub id: u64,
    pub store_id: u64,
}

#[derive(Clone, Copy, Debug, PartialEq, Eq, Structural, Hash)]
pub enum StoreState {
    Up,
    Offline,
    Tomstone,
}

impl StoreState {
    /// The name of the state in the definition of the messages.
    pub open spec fn name(self) -> Seq<char> {
        match self {
            StoreState::Up => "Up"@,
            StoreState::Offline => "Offline"@,
            StoreState::Tomstone => "Tomstone"@,
        }
    }

    /// String value of the enum field names used in the ProtoBuf definition.
    ///
    /// The values are not transformed in any way and thus are considered stable
    /// (if the ProtoBuf definition does not change) and safe for programmatic use.
    pub fn as_str_name(&self) -> (name: &'static str)
        ensures
            name@ == self.name(),
    {
        match self {
            StoreState::Up => "Up",
            StoreState::Offline => "Offline",
            StoreState::Tomstone => "Tomstone",
        }
    }

    /// Creates an enum from field names used in the ProtoBuf definition.
    pub fn from_str_name(value: &str) -> (state: Option<Self>)
        ensures
            match state {
                Some(state) => value@ == state.name(),
                None => forall|state: StoreState| value@ != state.name(),
            },
    {
        let value = value.to_owned();
        if value == "Up".to_owned() {
            Some(Self::Up)
        } else if value == "Offline".to_owned() {
            Some(Self::Offline)
        } else if value == "Tomstone".to_owned() {
            Some(Self::Tomstone)
        } else {
            None
        }
    }
}

/// Each state has a name of its own, so that a name gives its state back.
pub proof fn lemma_store_state_names_differ(one: StoreState, other: StoreState)
    requires
        one != other,
    ensures
        one.name() != other.name(),
{
    reveal_strlit("Up");
    reveal_strlit("Offline");
    reveal_strlit("Tomstone");
    if one.name() == other.name() {
        assert(one.name().len() == other.name().len());
        assert(one.name()[0] == other.name()[0]);
    }
}

} // verus!
