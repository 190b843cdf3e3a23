use super::metapb::{Peer, Region};
use vstd::prelude::*;

verus! {

#[derive(Clone, Debug, PartialEq, Default)]
pub struct NotLeader {
    pub region_id: u64,
    pub leader: Option<Peer>,
}

#[derive(Clone, Debug, PartialEq, Default)]
pub struct StoreNotMatch {
    pub request_store_id: u64,
    pub actual_store_id: u64,
}

#[derive(Clone, Debug, PartialEq, Default)]
pub struct RegionNotFound {
    pub region_id: u64,
}

#[derive(Clone, Debug, PartialEq, Default)]
pub struct KeyNotInRegion {
    pub key: Vec<u8>,
    pub region_id: u64,
    pub start_key: Vec<u8>,
    pub end_key: Vec<u8>,
}

#[derive(Clone, Debug, PartialEq, Default)]
pub struct EpochNotMatch {
    pub current_regions: Vec<Region>,
}

#[derive(Clone, Debug, PartialEq, Default)]
pub struct StaleCommand {}

#[derive(Clone, Debug, PartialEq, Default)]
pub struct Error {
    pub message: String,
    pub not_leader: Option<NotLeader>,
    pub region_not_found: Option<RegionNotFound>,
    pub key_not_in_region: Option<KeyNotInRegion>,
    pub epoch_not_match: Option<EpochNotMatch>,
    pub stale_command: Option<StaleCommand>,
    pub store_not_match: Option<StoreNotMatch>,
}

} // verus!
