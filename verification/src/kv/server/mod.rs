use super::error::{TkvError, TkvResult};
use super::{
    is_scan_of, pair_view, pairs_view, ColumnFamily, KvIterator, Storage, StorageScanner,
};
use crate::proto::kvpb::{
    KvPair, RawDeleteRequest, RawDeleteResponse, RawGetRequest, RawGetResponse, RawPutRequest,
    RawPutResponse, RawScanRequest, RawScanResponse,
};
use std::ops::Bound;
use vstd::prelude::*;

verus! {

/// What the error says when a request names no column family.
pub open spec fn unknown_column_family_text() -> Seq<char> {
    "unknown column family"@
}

/// `name` is the name of a column family.
pub open spec fn names_column_family(name: Seq<char>) -> bool {
    exists|cf: ColumnFamily| #[trigger] cf.name() == name
}

/// `result` is the error that says that a request names no column family.
pub open spec fn refuses_the_name<T>(result: TkvResult<T>) -> bool {
    match result {
        Ok(_) => false,
        Err(error) => error.message() == unknown_column_family_text(),
    }
}

/// The column family that a request names, or the error that says that it
/// names none.
pub fn column_family_of(name: &str) -> (result: TkvResult<ColumnFamily>)
    ensures
        match result {
            Ok(cf) => name@ == cf.name(),
            Err(error) => {
                &&& forall|cf: ColumnFamily| name@ != cf.name()
                &&& error.message() == unknown_column_family_text()
            },
        },
{
    match ColumnFamily::parse(name) {
        Some(cf) => Ok(cf),
        None => Err(TkvError("unknown column family".to_owned())),
    }
}

/// The pairs of an answer to a scan as plain mathematics.
pub open spec fn kvs_view(kvs: Seq<KvPair>) -> Seq<(Seq<u8>, Seq<u8>)> {
    kvs.map_values(|pair: KvPair| (pair.key@, pair.value@))
}

/// The answer to a request for the value of a key that was found with
/// `found`: the value, or the word that there is none.
pub fn get_response(found: Option<Vec<u8>>) -> (response: RawGetResponse)
    ensures
        response.region_error is None,
        response.error@.len() == 0,
        response.not_found == (found is None),
        response.value@ == match found {
            Some(value) => value@,
            None => Seq::<u8>::empty(),
        },
{
    let (value, not_found) = if let Some(value) = found {
        (value, false)
    } else {
        (Vec::new(), true)
    };
    RawGetResponse { region_error: None, error: String::new(), value, not_found }
}

/// The answer to a request that stored a value.
pub fn put_response() -> (response: RawPutResponse)
    ensures
        response.region_error is None,
        response.error@.len() == 0,
{
    RawPutResponse { region_error: None, error: String::new() }
}

/// The answer to a request that dropped a key.
pub fn delete_response() -> (response: RawDeleteResponse)
    ensures
        response.region_error is None,
        response.error@.len() == 0,
{
    RawDeleteResponse { region_error: None, error: String::new() }
}

/// The answer to a scan that has found `pairs`: the pairs as they came, none
/// of them with an error.
pub fn scan_response(pairs: Vec<(Vec<u8>, Vec<u8>)>) -> (response: RawScanResponse)
    ensures
        response.region_error is None,
        response.error@.len() == 0,
        kvs_view(response.kvs@) == pairs_view(pairs@),
        forall|i: int| 0 <= i < response.kvs@.len() ==> (#[trigger] response.kvs@[i]).error is None,
{
    let ghost all = pairs_view(pairs@);
    let mut pairs = pairs;
    let mut turned: Vec<(Vec<u8>, Vec<u8>)> = Vec::new();
    while pairs.len() > 0
        invariant
            turned@.len() + pairs@.len() == all.len(),
            forall|i: int| 0 <= i < pairs@.len() ==> pair_view(pairs@[i]) == all[i],
            forall|i: int|
                0 <= i < turned@.len() ==> pair_view(turned@[i]) == all[all.len() - 1 - i],
        decreases pairs@.len(),
    {
        let pair = pairs.pop().unwrap();
        turned.push(pair);
    }
    let mut kvs: Vec<KvPair> = Vec::new();
    while turned.len() > 0
        invariant
            turned@.len() + kvs@.len() == all.len(),
            forall|i: int|
                0 <= i < turned@.len() ==> pair_view(turned@[i]) == all[all.len() - 1 - i],
            forall|i: int|
                0 <= i < kvs@.len() ==> (kvs@[i].key@, kvs@[i].value@) == all[i]
                    && (#[trigger] kvs@[i]).error is None,
        decreases turned@.len(),
    {
        let (key, value) = turned.pop().unwrap();
        kvs.push(KvPair { error: None, key, value });
    }
    proof {
        assert(kvs_view(kvs@) =~= all);
    }
    RawScanResponse { region_error: None, error: String::new(), kvs }
}

/// TinyKvService is a TinyKV server, it 'faces outwards', sending
/// and receiving messages from clients such as TinySQL.
pub struct TinyKvService<S: Storage> {
    storage: S,
}

impl<S: Storage> TinyKvService<S> {
    /// What the store of the service holds.
    pub closed spec fn content(&self) -> Map<Seq<u8>, Seq<u8>> {
        self.storage.content()
    }

    /// The store of the service never fails, so that the service owes an
    /// answer to every request that names a column family.
    pub closed spec fn never_fails(&self) -> bool {
        self.storage.never_fails()
    }

    pub fn new(storage: S) -> (service: Self)
        ensures
            service.content() == storage.content(),
            service.never_fails() == storage.never_fails(),
    {
        Self { storage }
    }

    /// The store of the service.
    pub fn storage(&self) -> (storage: &S)
        ensures
            storage.content() == self.content(),
            storage.never_fails() == self.never_fails(),
    {
        &self.storage
    }

    /// Answers a request for the value of a key. A key that is not there is
    /// no error: the answer says so and has no value. A request that names
    /// no column family is refused; any other request is answered unless the
    /// store fails.
    pub fn raw_get(&self, request: RawGetRequest) -> (result: TkvResult<RawGetResponse>)
        ensures
            !names_column_family(request.cf@) ==> refuses_the_name(result),
            names_column_family(request.cf@) && self.never_fails() ==> result is Ok,
            result matches Ok(response) ==> exists|cf: ColumnFamily|
                {
                    &&& #[trigger] cf.name() == request.cf@
                    &&& response.region_error is None
                    &&& response.error@.len() == 0
                    &&& response.not_found == !self.content().contains_key(
                        cf.prefix() + request.key@,
                    )
                    &&& response.value@ == if response.not_found {
                        Seq::<u8>::empty()
                    } else {
                        self.content()[cf.prefix() + request.key@]
                    }
                },
    {
        let cf = match column_family_of(request.cf.as_str()) {
            Ok(cf) => cf,
            Err(error) => {
                return Err(error);
            },
        };
        let value_opt = match self.storage.get(cf, request.key.as_slice()) {
            Ok(value_opt) => value_opt,
            Err(error) => {
                return Err(error);
            },
        };
        Ok(get_response(value_opt))
    }

    /// Stores the value of a request under its key. A request that names no
    /// column family is refused; any other request is carried out unless the
    /// store fails. Where the request is not carried out the store holds
    /// what it held.
    pub fn raw_put(&mut self, request: RawPutRequest) -> (result: TkvResult<RawPutResponse>)
        ensures
            final(self).never_fails() == old(self).never_fails(),
            !names_column_family(request.cf@) ==> refuses_the_name(result),
            names_column_family(request.cf@) && old(self).never_fails() ==> result is Ok,
            match result {
                Ok(response) => exists|cf: ColumnFamily|
                    {
                        &&& #[trigger] cf.name() == request.cf@
                        &&& response.region_error is None
                        &&& response.error@.len() == 0
                        &&& final(self).content() == old(self).content().insert(
                            cf.prefix() + request.key@,
                            request.value@,
                        )
                    },
                Err(_) => final(self).content() == old(self).content(),
            },
    {
        let cf = match column_family_of(request.cf.as_str()) {
            Ok(cf) => cf,
            Err(error) => {
                return Err(error);
            },
        };
        match self.storage.put(cf, request.key.as_slice(), request.value) {
            Ok(()) => Ok(put_response()),
            Err(error) => Err(error),
        }
    }

    /// Drops the key of a request, if it is there. A request that names no
    /// column family is refused; any other request is carried out unless the
    /// store fails. Where the request is not carried out the store holds
    /// what it held.
    pub fn raw_delete(&mut self, request: RawDeleteRequest) -> (result: TkvResult<
        RawDeleteResponse,
    >)
        ensures
            final(self).never_fails() == old(self).never_fails(),
            !names_column_family(request.cf@) ==> refuses_the_name(result),
            names_column_family(request.cf@) && old(self).never_fails() ==> result is Ok,
            match result {
                Ok(response) => exists|cf: ColumnFamily|
                    {
                        &&& #[trigger] cf.name() == request.cf@
                        &&& response.region_error is None
                        &&& response.error@.len() == 0
                        &&& final(self).content() == old(self).content().remove(
                            cf.prefix() + request.key@,
                        )
                    },
                Err(_) => final(self).content() == old(self).content(),
            },
    {
        let cf = match column_family_of(request.cf.as_str()) {
            Ok(cf) => cf,
            Err(error) => {
                return Err(error);
            },
        };
        match self.storage.delete(cf, request.key.as_slice()) {
            Ok(()) => Ok(delete_response()),
            Err(error) => Err(error),
        }
    }

    /// Answers a request for the pairs of a column family from a key on:
    /// all of them, in the order of their keys. A request that names no
    /// column family is refused; any other request is answered unless the
    /// store fails, be it in the scan or at one of the pairs.
    pub fn raw_scan(&self, request: RawScanRequest) -> (result: TkvResult<RawScanResponse>)
        ensures
            !names_column_family(request.cf@) ==> refuses_the_name(result),
            names_column_family(request.cf@) && self.never_fails() ==> result is Ok,
            result matches Ok(response) ==> exists|cf: ColumnFamily|
                {
                    &&& #[trigger] cf.name() == request.cf@
                    &&& response.region_error is None
                    &&& response.error@.len() == 0
                    &&& forall|i: int|
                        0 <= i < response.kvs@.len() ==> (#[trigger] response.kvs@[i]).error is None
                    &&& is_scan_of(
                        kvs_view(response.kvs@),
                        self.content(),
                        cf,
                        Bound::Included(cf.prefix() + request.start_key@),
                        Bound::Unbounded,
                    )
                },
    {
        let cf = match column_family_of(request.cf.as_str()) {
            Ok(cf) => cf,
            Err(error) => {
                return Err(error);
            },
        };
        let scanner = match self.storage.scan(
            cf,
            Bound::Included(request.start_key),
            Bound::Unbounded,
        ) {
            Ok(scanner) => scanner,
            Err(error) => {
                return Err(error);
            },
        };
        let mut pairs: Vec<(Vec<u8>, Vec<u8>)> = Vec::new();
        let mut iter = scanner.iter();
        loop
            invariant_except_break
                pairs_view(pairs@) + iter.remaining() == scanner.found(),
            invariant
                iter.never_fails() == self.storage.never_fails(),
                names_column_family(request.cf@),
            ensures
                pairs_view(pairs@) == scanner.found(),
            decreases iter.remaining().len(),
        {
            let ghost collected = pairs_view(pairs@);
            let ghost rest = iter.remaining();
            match iter.next() {
                Some(Ok(pair)) => {
                    pairs.push(pair);
                    proof {
                        assert(pairs_view(pairs@) =~= collected.push(rest[0]));
                        assert(collected.push(rest[0]) + rest.skip(1) =~= collected + rest);
                    }
                },
                Some(Err(error)) => {
                    return Err(error);
                },
                None => {
                    proof {
                        assert(collected + rest =~= collected);
                    }
                    break ;
                },
            }
        }
        Ok(scan_response(pairs))
    }
}

} // verus!
