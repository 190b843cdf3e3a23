use crate::kv::ColumnFamily;
use vstd::prelude::*;

verus! {

// Mutation is a single modification to the TinyKV's
// underlying storage.
pub enum Mutation {
    Put { key: Vec<u8>, value: Vec<u8>, cf: ColumnFamily },
    Delete { key: Vec<u8>, cf: ColumnFamily },
}

impl Mutation {
    /// The key that the mutation is about.
    pub open spec fn spec_key(self) -> Seq<u8> {
        match self {
            Mutation::Put { key, .. } => key@,
            Mutation::Delete { key, .. } => key@,
        }
    }

    /// The value that the mutation stores, if it stores one.
    pub open spec fn spec_value(self) -> Option<Seq<u8>> {
        match self {
            Mutation::Put { value, .. } => Some(value@),
            Mutation::Delete { .. } => None,
        }
    }

    /// The column family that the mutation works in.
    pub open spec fn spec_column_family(self) -> ColumnFamily {
        match self {
            Mutation::Put { cf, .. } => cf,
            Mutation::Delete { cf, .. } => cf,
        }
    }

    pub fn key(&self) -> (key: Vec<u8>)
        ensures
            key@ == self.spec_key(),
    {
        match self {
            Mutation::Put { key, .. } => key.clone(),
            Mutation::Delete { key, .. } => key.clone(),
        }
    }

    pub fn value(&self) -> (value: Option<Vec<u8>>)
        ensures
            match value {
                Some(value) => self.spec_value() == Some(value@),
                None => self.spec_value() is None,
            },
    {
        match self {
            Mutation::Put { value, .. } => Some(value.clone()),
            _ => None,
        }
    }

    pub fn column_family(&self) -> (cf: ColumnFamily)
        ensures
            cf == self.spec_column_family(),
    {
        match self {
            Mutation::Put { cf, .. } => *cf,
            Mutation::Delete { cf, .. } => *cf,
        }
    }
}

} // verus!
