use crate::kv::ColumnFamily;
use vstd::prelude::*;

verus! {

#[derive(Debug)]
pub struct DbItem {
    pub cf: ColumnFamily,
    pub key: Vec<u8>,
    pub value: Vec<u8>,
}

} // verus!
