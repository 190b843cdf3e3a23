//! How an item of the log becomes the payload of a record and back.
//!
//! An item is a blob of bytes. Its payload is what bincode makes of a byte
//! vector under its default options: the number of bytes as an eight-byte
//! little-endian integer, then the bytes.

use super::error::RaftError;
use vstd::bytes::{
    lemma_auto_spec_u64_to_from_le_bytes, spec_u64_from_le_bytes, spec_u64_to_le_bytes,
};
use vstd::prelude::*;

verus! {

/// bincode's `ErrorKind`, which its `serialize` and `deserialize` fail with.
/// It is only ever carried to where its text is taken.
#[verifier::external_type_specification]
#[verifier::external_body]
pub struct ExErrorKind(bincode::ErrorKind);

/// The payload that stands for `item`.
pub open spec fn encoded(item: Seq<u8>) -> Seq<u8> {
    spec_u64_to_le_bytes(item.len() as u64) + item
}

/// The number of item bytes that the first eight bytes of a payload announce.
pub open spec fn announced(payload: Seq<u8>) -> int {
    spec_u64_from_le_bytes(payload.subrange(0, 8)) as int
}

/// The item that `payload` stands for, if it stands for one: it must hold
/// the eight bytes of the length and at least as many bytes after them as
/// the length announces. Bytes beyond those are ignored.
pub open spec fn decoded(payload: Seq<u8>) -> Option<Seq<u8>> {
    if payload.len() >= 8 && announced(payload) <= payload.len() - 8 {
        Some(payload.subrange(8, 8 + announced(payload)))
    } else {
        None
    }
}

/// Whether an item of `len` bytes can be encoded on this machine.
pub open spec fn encodable(len: int) -> bool {
    len + 8 <= isize::MAX
}

/// Decoding the payload of an item gives the item back.
pub proof fn lemma_round_trip(item: Seq<u8>)
    requires
        item.len() <= u64::MAX,
    ensures
        decoded(encoded(item)) == Some(item),
{
    lemma_auto_spec_u64_to_from_le_bytes();
    let payload = encoded(item);
    assert(payload.subrange(0, 8) =~= spec_u64_to_le_bytes(item.len() as u64));
    assert(payload.subrange(8, 8 + item.len() as int) =~= item);
}

/// The payloads of a run of items, one for one.
pub open spec fn encoded_all(items: Seq<Seq<u8>>) -> Seq<Seq<u8>> {
    items.map_values(|item: Seq<u8>| encoded(item))
}

/// Items stored one after the other come back one for one: the payload at
/// each place decodes to the item that was stored at that place.
pub proof fn lemma_round_trip_all(items: Seq<Seq<u8>>, i: int)
    requires
        0 <= i < items.len(),
        items[i].len() <= u64::MAX,
    ensures
        encoded_all(items).len() == items.len(),
        decoded(encoded_all(items)[i]) == Some(items[i]),
{
    lemma_round_trip(items[i]);
}

/// bincode's `serialize` on a byte vector. With the default options the
/// length is written as a fixed eight-byte little-endian integer and each
/// byte follows as it is; there is no size limit and the output is a vector,
/// so nothing in the call fails. The call reserves the whole output at once,
/// which panics past `isize::MAX` bytes.
#[verifier::external_body]
pub(crate) fn serialize_blob(item: &Vec<u8>) -> (result: Result<Vec<u8>, Box<bincode::ErrorKind>>)
    requires
        encodable(item@.len() as int),
    ensures
        result is Ok,
        result matches Ok(payload) ==> payload@ == encoded(item@),
{
    bincode::serialize(item)
}

/// bincode's `deserialize` into a byte vector. It reads the eight-byte
/// length, then that many bytes one by one, and fails where the input ends
/// before that; bytes left over are allowed.
#[verifier::external_body]
pub(crate) fn deserialize_blob(payload: &[u8]) -> (result: Result<Vec<u8>, Box<bincode::ErrorKind>>)
    ensures
        match result {
            Ok(item) => decoded(payload@) == Some(item@),
            Err(_) => decoded(payload@) is None,
        },
{
    bincode::deserialize(payload)
}

/// The error of the log for an error of bincode: its text, wrapped.
#[verifier::external_body]
pub(crate) fn codec_error(source: Box<bincode::ErrorKind>) -> (error: RaftError) {
    RaftError(format!("RaftError({})", source))
}

/// The payload for `item`, or nothing where the item is too long to encode.
pub fn encode(item: &Vec<u8>) -> (result: Option<Vec<u8>>)
    ensures
        match result {
            Some(payload) => encodable(item@.len() as int) && payload@ == encoded(item@),
            None => !encodable(item@.len() as int),
        },
{
    if item.len() > (isize::MAX as usize) - 8 {
        return None;
    }
    match serialize_blob(item) {
        Ok(payload) => Some(payload),
        Err(_) => None,
    }
}

/// The item that `payload` stands for, or the error that says why it stands
/// for none.
pub fn decode(payload: &[u8]) -> (result: Result<Vec<u8>, RaftError>)
    ensures
        match result {
            Ok(item) => decoded(payload@) == Some(item@),
            Err(_) => decoded(payload@) is None,
        },
{
    match deserialize_blob(payload) {
        Ok(item) => Ok(item),
        Err(source) => Err(codec_error(source)),
    }
}

} // verus!
