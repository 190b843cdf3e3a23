//! The log store: an append-only sequence of byte records, kept as the exact
//! image of its file together with an index of where each record starts.
//!
//! The file is a run of records, each an eight-byte little-endian length
//! followed by that many payload bytes. A record that the file ends in the
//! middle of is a write that never completed, and is dropped on opening.

use super::codec::{decode, decoded, encodable, encode, encoded};
use super::error::{RaftError, RaftResult};
use byteorder::{ByteOrder, LittleEndian};
use vstd::bytes::{
    lemma_auto_spec_u64_to_from_le_bytes, spec_u64_from_le_bytes, spec_u64_to_le_bytes,
};
use vstd::prelude::*;
use vstd::slice::{slice_subrange, slice_to_vec};

verus! {

/// The number of bytes of the length that precedes every payload.
pub const PREFIX_LEN: usize = 8;

/// The payload length announced by the eight bytes at `pos`.
pub open spec fn payload_len(bytes: Seq<u8>, pos: int) -> int {
    spec_u64_from_le_bytes(bytes.subrange(pos, pos + 8)) as int
}

/// Where the record that starts at `pos` ends, going by its length prefix.
pub open spec fn record_end(bytes: Seq<u8>, pos: int) -> int {
    pos + 8 + payload_len(bytes, pos)
}

/// A complete record starts at `pos`: its prefix and its whole payload lie
/// inside `bytes`.
pub open spec fn record_at(bytes: Seq<u8>, pos: int) -> bool {
    &&& 0 <= pos
    &&& pos + 8 <= bytes.len()
    &&& record_end(bytes, pos) <= bytes.len()
}

/// The payload of the record that starts at `pos`.
pub open spec fn payload_at(bytes: Seq<u8>, pos: int) -> Seq<u8> {
    bytes.subrange(pos + 8, record_end(bytes, pos))
}

/// The starts of the complete records met by a scan of `bytes` from `pos`
/// that stops at the first place where no complete record starts.
pub open spec fn offsets_from(bytes: Seq<u8>, pos: int) -> Seq<int>
    decreases bytes.len() - pos,
{
    if record_at(bytes, pos) {
        seq![pos] + offsets_from(bytes, record_end(bytes, pos))
    } else {
        Seq::empty()
    }
}

/// Where that scan stops: the end of the last complete record.
pub open spec fn scan_end(bytes: Seq<u8>, pos: int) -> int
    decreases bytes.len() - pos,
{
    if record_at(bytes, pos) {
        scan_end(bytes, record_end(bytes, pos))
    } else {
        pos
    }
}

/// The payloads of the records of `bytes` that start at `offsets`.
pub open spec fn payloads(bytes: Seq<u8>, offsets: Seq<int>) -> Seq<Seq<u8>> {
    Seq::new(offsets.len(), |i: int| payload_at(bytes, offsets[i]))
}

/// The records that opening a file with content `bytes` finds.
pub open spec fn scan(bytes: Seq<u8>) -> Seq<Seq<u8>> {
    payloads(bytes, offsets_from(bytes, 0))
}

/// The length of the part of `bytes` that is made of complete records.
pub open spec fn valid_len(bytes: Seq<u8>) -> int {
    scan_end(bytes, 0)
}

/// A record as it lies in the file: the length of the payload, then the payload.
pub open spec fn frame(payload: Seq<u8>) -> Seq<u8> {
    spec_u64_to_le_bytes(payload.len() as u64) + payload
}

/// The file that holds `records` and nothing else: their frames, one after
/// the other.
pub open spec fn frames(records: Seq<Seq<u8>>) -> Seq<u8>
    decreases records.len(),
{
    if records.len() == 0 {
        Seq::empty()
    } else {
        frames(records.drop_last()) + frame(records.last())
    }
}

/// Exec offsets as mathematical integers.
pub open spec fn as_ints(offsets: Seq<usize>) -> Seq<int> {
    offsets.map_values(|o: usize| o as int)
}

/// `offsets` lists record starts that follow one another without a gap from
/// `start` to `end`: each record is complete and ends where the next begins.
pub open spec fn chained(bytes: Seq<u8>, offsets: Seq<int>, start: int, end: int) -> bool {
    &&& 0 <= start <= end <= bytes.len()
    &&& offsets.len() == 0 ==> start == end
    &&& offsets.len() > 0 ==> offsets[0] == start
    &&& forall|i: int| 0 <= i < offsets.len() ==> #[trigger] linked(bytes, offsets, end, i)
}

/// Where the record after the one at index `i` starts, or `end` for the last.
pub open spec fn next_start(offsets: Seq<int>, end: int, i: int) -> int {
    if i + 1 < offsets.len() {
        offsets[i + 1]
    } else {
        end
    }
}

/// The record at index `i` is complete and ends where the next one starts.
pub open spec fn linked(bytes: Seq<u8>, offsets: Seq<int>, end: int, i: int) -> bool {
    &&& record_at(bytes, offsets[i])
    &&& record_end(bytes, offsets[i]) == next_start(offsets, end, i)
}

/// The scan from `pos` yields a gapless chain from `pos` to where it stops.
pub proof fn lemma_scan_is_chained(bytes: Seq<u8>, pos: int)
    requires
        0 <= pos <= bytes.len(),
    ensures
        chained(bytes, offsets_from(bytes, pos), pos, scan_end(bytes, pos)),
    decreases bytes.len() - pos,
{
    if record_at(bytes, pos) {
        let next = record_end(bytes, pos);
        lemma_payload_len_nonnegative(bytes, pos);
        lemma_scan_is_chained(bytes, next);
        let rest = offsets_from(bytes, next);
        let all = offsets_from(bytes, pos);
        assert(all == seq![pos] + rest);
        let end = scan_end(bytes, pos);
        assert forall|i: int| 0 <= i < all.len() implies #[trigger] linked(bytes, all, end, i) by {
            if i > 0 {
                assert(all[i] == rest[i - 1]);
                assert(linked(bytes, rest, end, i - 1));
                if i + 1 < all.len() {
                    assert(all[i + 1] == rest[i]);
                }
            } else if all.len() > 1 {
                assert(all[1] == rest[0]);
            }
        }
    }
}

/// A length prefix never announces a negative length.
proof fn lemma_payload_len_nonnegative(bytes: Seq<u8>, pos: int)
    ensures
        0 <= payload_len(bytes, pos) <= u64::MAX,
{
}

/// A gapless chain that reaches the end of `bytes` is exactly what a scan finds.
pub proof fn lemma_chained_is_scan(bytes: Seq<u8>, offsets: Seq<int>, start: int)
    requires
        chained(bytes, offsets, start, bytes.len() as int),
    ensures
        offsets_from(bytes, start) == offsets,
        scan_end(bytes, start) == bytes.len(),
    decreases offsets.len(),
{
    if offsets.len() == 0 {
        assert(!record_at(bytes, start));
        assert(offsets_from(bytes, start) =~= offsets);
    } else {
        let rest = offsets.skip(1);
        let next = record_end(bytes, start);
        let end = bytes.len() as int;
        assert(linked(bytes, offsets, end, 0));
        lemma_payload_len_nonnegative(bytes, start);
        assert forall|i: int| 0 <= i < rest.len() implies #[trigger] linked(bytes, rest, end, i) by {
            assert(rest[i] == offsets[i + 1]);
            assert(linked(bytes, offsets, end, i + 1));
            if i + 1 < rest.len() {
                assert(rest[i + 1] == offsets[i + 2]);
            }
        }
        assert(chained(bytes, rest, next, bytes.len() as int));
        lemma_chained_is_scan(bytes, rest, next);
        assert(offsets_from(bytes, start) =~= offsets);
    }
}

/// Decodes eight bytes as a little-endian number. This is byteorder's
/// `LittleEndian::read_u64`, which reads the first eight bytes of the slice
/// and panics on a shorter one.
#[verifier::external_body]
fn read_u64_le(buf: &[u8]) -> (value: u64)
    requires
        buf@.len() >= 8,
    ensures
        value == spec_u64_from_le_bytes(buf@.subrange(0, 8)),
{
    LittleEndian::read_u64(buf)
}

/// Overwrites the first eight bytes of `buf` with `value` in little-endian
/// order. This is byteorder's `LittleEndian::write_u64`, which leaves the
/// rest of the buffer alone and panics on a buffer shorter than eight bytes.
#[verifier::external_body]
fn write_u64_le(buf: &mut Vec<u8>, value: u64)
    requires
        old(buf)@.len() >= 8,
    ensures
        final(buf)@ == spec_u64_to_le_bytes(value) + old(buf)@.subrange(
            8,
            old(buf)@.len() as int,
        ),
{
    LittleEndian::write_u64(buf, value)
}

/// The eight bytes that announce a payload of `len` bytes.
pub fn length_prefix(len: usize) -> (prefix: Vec<u8>)
    ensures
        prefix@ == spec_u64_to_le_bytes(len as u64),
{
    let mut prefix: Vec<u8> = Vec::new();
    let mut i: usize = 0;
    while i < PREFIX_LEN
        invariant
            i <= PREFIX_LEN,
            prefix@.len() == i,
        decreases PREFIX_LEN - i,
    {
        prefix.push(0u8);
        i = i + 1;
    }
    write_u64_le(&mut prefix, len as u64);
    proof {
        lemma_auto_spec_u64_to_from_le_bytes();
        assert(prefix@ =~= spec_u64_to_le_bytes(len as u64));
    }
    prefix
}

/// The length announced at `pos`, if a complete record starts there.
pub fn read_record_len(data: &[u8], pos: usize) -> (len: Option<usize>)
    requires
        pos <= data@.len(),
    ensures
        len is Some <==> record_at(data@, pos as int),
        len is Some ==> len.unwrap() == payload_len(data@, pos as int),
{
    let total: usize = data.len();
    if total - pos < PREFIX_LEN {
        return None;
    }
    let announced: u64 = read_u64_le(slice_subrange(data, pos, pos + PREFIX_LEN));
    proof {
        assert(data@.subrange(pos as int, pos + 8).subrange(0, 8) =~= data@.subrange(
            pos as int,
            pos + 8,
        ));
    }
    let room: usize = total - pos - PREFIX_LEN;
    if announced > room as u64 {
        None
    } else {
        Some(announced as usize)
    }
}

/// The index of a file image and the length of its valid part.
#[derive(Debug)]
pub struct LogIndex {
    /// Where each complete record starts, in file order.
    pub offsets: Vec<usize>,
    /// Where the next record will start: the end of the last complete one.
    pub next_item_offset: usize,
}

/// An append-only log of byte records.
///
/// It holds the image of its file, byte for byte, and for each record the
/// offset at which it starts. The image is made of complete records only.
#[derive(Debug)]
pub struct RaftLog {
    offsets: Vec<usize>,
    next_item_offset: usize,
    data: Vec<u8>,
}

impl View for RaftLog {
    type V = Seq<Seq<u8>>;

    /// The payloads of the records, oldest first.
    closed spec fn view(&self) -> Seq<Seq<u8>> {
        payloads(self.data@, as_ints(self.offsets@))
    }
}

impl RaftLog {
    /// The content of the file that holds this log.
    pub closed spec fn image(&self) -> Seq<u8> {
        self.data@
    }

    /// Where each record starts in the file, in the order of the records.
    pub closed spec fn index(&self) -> Seq<int> {
        as_ints(self.offsets@)
    }

    /// The index matches the image: the records follow one another from the
    /// first byte to the last, and the next record starts at the end.
    pub closed spec fn wf(&self) -> bool {
        &&& self.next_item_offset == self.data@.len()
        &&& chained(self.data@, as_ints(self.offsets@), 0, self.data@.len() as int)
    }

    /// Scans a file image from its first byte and returns where each complete
    /// record starts and where the last of them ends. The scan stops at the
    /// first place where the bytes left do not hold a whole length prefix and
    /// the payload it announces.
    pub fn load_offsets(data: &[u8]) -> (index: LogIndex)
        ensures
            as_ints(index.offsets@) == offsets_from(data@, 0),
            index.next_item_offset == valid_len(data@),
    {
        let total: usize = data.len();
        let mut offsets: Vec<usize> = Vec::new();
        let mut next_item_offset: usize = 0;
        loop
            invariant
                total == data@.len(),
                next_item_offset <= data@.len(),
                offsets_from(data@, 0) == as_ints(offsets@) + offsets_from(
                    data@,
                    next_item_offset as int,
                ),
                scan_end(data@, 0) == scan_end(data@, next_item_offset as int),
            ensures
                as_ints(offsets@) == offsets_from(data@, 0),
                next_item_offset == scan_end(data@, 0),
            decreases data@.len() - next_item_offset,
        {
            match read_record_len(data, next_item_offset) {
                None => {
                    proof {
                        assert(as_ints(offsets@) + Seq::<int>::empty() =~= as_ints(offsets@));
                    }
                    break ;
                },
                Some(length) => {
                    proof {
                        let pos = next_item_offset as int;
                        let found = as_ints(offsets@);
                        let rest = offsets_from(data@, record_end(data@, pos));
                        assert(as_ints(offsets@.push(next_item_offset)) =~= found.push(pos));
                        assert(found + (seq![pos] + rest) =~= found.push(pos) + rest);
                    }
                    offsets.push(next_item_offset);
                    next_item_offset = next_item_offset + PREFIX_LEN + length;
                },
            }
        }
        LogIndex { offsets, next_item_offset }
    }

    /// Opens the log whose file holds `bytes`. The records are those that a
    /// scan from the first byte finds; what follows the last complete record
    /// is dropped from the image.
    pub fn open(bytes: Vec<u8>) -> (log: RaftLog)
        ensures
            log.wf(),
            log@ == scan(bytes@),
            log.image() == bytes@.take(valid_len(bytes@)),
    {
        let index = Self::load_offsets(bytes.as_slice());
        let mut data = bytes;
        data.truncate(index.next_item_offset);
        proof {
            let found = as_ints(index.offsets@);
            lemma_scan_is_chained(bytes@, 0);
            lemma_chain_survives_cut(bytes@, found, valid_len(bytes@));
        }
        RaftLog { offsets: index.offsets, next_item_offset: index.next_item_offset, data }
    }

    /// The number of records in the log.
    pub fn len(&self) -> (n: usize)
        requires
            self.wf(),
        ensures
            n == self@.len(),
    {
        self.offsets.len()
    }

    /// The image of the file, for whoever writes it out.
    pub fn as_bytes(&self) -> (bytes: &Vec<u8>)
        ensures
            bytes@ == self.image(),
    {
        &self.data
    }

    /// The stored bytes of the record at `index`, as they were handed to
    /// `append_payload`.
    pub fn get_payload(&self, index: usize) -> (result: RaftResult<Vec<u8>>)
        requires
            self.wf(),
        ensures
            match result {
                Ok(payload) => index < self@.len() && payload@ == self@[index as int],
                Err(error) => index >= self@.len() && error.message() == out_of_range_text(),
            },
    {
        if index >= self.offsets.len() {
            return Err(out_of_range());
        }
        let offset: usize = self.offsets[index];
        proof {
            assert(as_ints(self.offsets@)[index as int] == offset);
            assert(linked(
                self.data@,
                as_ints(self.offsets@),
                self.data@.len() as int,
                index as int,
            ));
        }
        match read_record_len(self.data.as_slice(), offset) {
            Some(length) => {
                let start: usize = offset + PREFIX_LEN;
                let payload = slice_to_vec(
                    slice_subrange(self.data.as_slice(), start, start + length),
                );
                Ok(payload)
            },
            None => Err(out_of_range()),
        }
    }

    /// Appends one record that holds `payload` as it is. The record is
    /// refused, and the log left as it was, only where the file would grow
    /// past what an offset can address.
    pub fn append_payload(&mut self, payload: &[u8]) -> (result: RaftResult<()>)
        requires
            old(self).wf(),
        ensures
            final(self).wf(),
            match result {
                Ok(_) => {
                    &&& fits(old(self).image().len() as int, payload@.len() as int)
                    &&& final(self)@ == old(self)@.push(payload@)
                    &&& final(self).image() == old(self).image() + frame(payload@)
                },
                Err(error) => {
                    &&& !fits(old(self).image().len() as int, payload@.len() as int)
                    &&& *final(self) == *old(self)
                    &&& error.message() == too_large_text()
                },
            },
    {
        let size: usize = payload.len();
        let used: usize = self.data.len();
        if size > usize::MAX - PREFIX_LEN || used > usize::MAX - PREFIX_LEN - size {
            return Err(too_large());
        }
        let prefix = length_prefix(size);
        let ghost before = self.data@;
        let ghost index = as_ints(self.offsets@);
        self.offsets.push(self.next_item_offset);
        self.data.extend_from_slice(prefix.as_slice());
        self.data.extend_from_slice(payload);
        self.next_item_offset = used + PREFIX_LEN + size;
        proof {
            lemma_auto_spec_u64_to_from_le_bytes();
            assert(self.data@ =~= before + frame(payload@));
            assert(as_ints(self.offsets@) =~= index.push(used as int));
            lemma_chain_grows(before, index, payload@);
        }
        Ok(())
    }

    /// Appends `item` as the newest record. The payload of the record is the
    /// encoding of the item. The item is refused, and the log left as it
    /// was, only where it is too long to encode or the file would grow past
    /// what an offset can address.
    pub fn append(&mut self, item: Vec<u8>) -> (result: RaftResult<()>)
        requires
            old(self).wf(),
        ensures
            final(self).wf(),
            match result {
                Ok(_) => {
                    &&& accepts(old(self).image().len() as int, item@.len() as int)
                    &&& final(self)@ == old(self)@.push(encoded(item@))
                    &&& final(self).image() == old(self).image() + frame(encoded(item@))
                },
                Err(error) => {
                    &&& !accepts(old(self).image().len() as int, item@.len() as int)
                    &&& *final(self) == *old(self)
                    &&& error.message() == too_large_text()
                },
            },
    {
        proof {
            lemma_auto_spec_u64_to_from_le_bytes();
        }
        match encode(&item) {
            Some(payload) => self.append_payload(payload.as_slice()),
            None => Err(too_large()),
        }
    }

    /// The item stored at `index`: what the payload of that record decodes
    /// to. Fails where `index` names no record, and where the payload is not
    /// the encoding of an item.
    pub fn get(&self, index: usize) -> (result: RaftResult<Vec<u8>>)
        requires
            self.wf(),
        ensures
            match result {
                Ok(item) => index < self@.len() && decoded(self@[index as int]) == Some(item@),
                Err(error) => if index < self@.len() {
                    decoded(self@[index as int]) is None
                } else {
                    error.message() == out_of_range_text()
                },
            },
    {
        match self.get_payload(index) {
            Ok(payload) => decode(payload.as_slice()),
            Err(error) => Err(error),
        }
    }

    /// Drops the records from the first up to and including the one at
    /// `index`, and keeps those after it. At least one record must stay:
    /// where `index + 1` is not the index of a record the call is refused and
    /// the log left as it was.
    pub fn truncate(&mut self, index: usize) -> (result: RaftResult<()>)
        requires
            old(self).wf(),
        ensures
            final(self).wf(),
            match result {
                Ok(_) => {
                    &&& index + 1 < old(self)@.len()
                    &&& final(self)@ == old(self)@.skip(index + 1)
                },
                Err(error) => {
                    &&& index + 1 >= old(self)@.len()
                    &&& *final(self) == *old(self)
                    &&& error.message() == out_of_range_text()
                },
            },
    {
        let count: usize = self.offsets.len();
        if index >= count || index + 1 >= count {
            return Err(out_of_range());
        }
        let first: usize = index + 1;
        let base: usize = self.offsets[first];
        let ghost before = self.data@;
        let ghost index_before = as_ints(self.offsets@);
        proof {
            assert(index_before[first as int] == base);
            lemma_record_ends_in_chain(before, index_before, 0, before.len() as int, first as int);
        }
        let kept = slice_to_vec(slice_subrange(self.data.as_slice(), base, self.data.len()));
        let mut normalized: Vec<usize> = Vec::new();
        let mut i: usize = first;
        while i < count
            invariant
                first <= i <= count,
                count == self.offsets@.len(),
                index_before == as_ints(self.offsets@),
                index_before[first as int] == base,
                chained(before, index_before, 0, before.len() as int),
                normalized@.len() == i - first,
                forall|j: int|
                    0 <= j < normalized@.len() ==> #[trigger] normalized@[j] == index_before[first
                        + j] - base,
            decreases count - i,
        {
            proof {
                lemma_offsets_increase(
                    before,
                    index_before,
                    0,
                    before.len() as int,
                    first as int,
                    i as int,
                );
                assert(index_before[i as int] == self.offsets@[i as int]);
            }
            normalized.push(self.offsets[i] - base);
            i = i + 1;
        }
        proof {
            lemma_chain_survives_shift(before, index_before, first as int, as_ints(normalized@));
        }
        self.offsets = normalized;
        self.next_item_offset = kept.len();
        self.data = kept;
        Ok(())
    }

    /// Drops the records from the one at `index` to the last, and keeps those
    /// before it. With `index` equal to the number of records nothing is
    /// dropped; with a greater one the call is refused and the log left as
    /// it was.
    pub fn rebase(&mut self, index: usize) -> (result: RaftResult<()>)
        requires
            old(self).wf(),
        ensures
            final(self).wf(),
            match result {
                Ok(_) => {
                    &&& index <= old(self)@.len()
                    &&& final(self)@ == old(self)@.take(index as int)
                },
                Err(error) => {
                    &&& index > old(self)@.len()
                    &&& *final(self) == *old(self)
                    &&& error.message() == out_of_range_text()
                },
            },
    {
        let count: usize = self.offsets.len();
        if index > count {
            return Err(out_of_range());
        }
        if index == count {
            proof {
                assert(self@.take(index as int) =~= self@);
            }
            return Ok(());
        }
        let cut: usize = self.offsets[index];
        let ghost before = self.data@;
        let ghost index_before = as_ints(self.offsets@);
        proof {
            assert(index_before[index as int] == cut);
            lemma_chain_prefix(before, index_before, index as int);
            lemma_chain_survives_cut(before, index_before.take(index as int), cut as int);
        }
        self.offsets.truncate(index);
        self.data.truncate(cut);
        self.next_item_offset = cut;
        proof {
            assert(as_ints(self.offsets@) =~= index_before.take(index as int));
            assert(self.data@ =~= before.take(cut as int));
            assert(payloads(before, index_before.take(index as int)) =~= payloads(
                before,
                index_before,
            ).take(index as int));
        }
        Ok(())
    }
}

/// The file can take one more record with a payload of `payload_len` bytes:
/// its new length can still be told in a `usize`.
pub open spec fn fits(image_len: int, payload_len: int) -> bool {
    image_len + 8 + payload_len <= usize::MAX
}

/// The log can take `item_len` more item bytes as one record: the item can be
/// encoded, and the file can hold its record.
pub open spec fn accepts(image_len: int, item_len: int) -> bool {
    encodable(item_len) && fits(image_len, item_len + 8)
}

/// What the error says when an index names no record.
pub open spec fn out_of_range_text() -> Seq<char> {
    "log index out of range"@
}

/// What the error says when a record would make the file too long.
pub open spec fn too_large_text() -> Seq<char> {
    "record too large for the log"@
}

fn out_of_range() -> (error: RaftError)
    ensures
        error.message() == out_of_range_text(),
{
    RaftError::new("log index out of range".to_owned())
}

fn too_large() -> (error: RaftError)
    ensures
        error.message() == too_large_text(),
{
    RaftError::new("record too large for the log".to_owned())
}

/// Offsets in a chain never decrease.
proof fn lemma_offsets_increase(
    bytes: Seq<u8>,
    offsets: Seq<int>,
    start: int,
    end: int,
    i: int,
    j: int,
)
    requires
        chained(bytes, offsets, start, end),
        0 <= i <= j < offsets.len(),
    ensures
        offsets[i] <= offsets[j],
    decreases j - i,
{
    if i < j {
        lemma_record_ends_in_chain(bytes, offsets, start, end, i);
        lemma_offsets_increase(bytes, offsets, start, end, i + 1, j);
    }
}

/// Appending the frame of a payload to a chain that fills its bytes gives a
/// chain with one more record, whose payload is the one framed; the records
/// before it are untouched.
proof fn lemma_chain_grows(bytes: Seq<u8>, offsets: Seq<int>, payload: Seq<u8>)
    requires
        chained(bytes, offsets, 0, bytes.len() as int),
        payload.len() <= u64::MAX,
    ensures
        chained(
            bytes + frame(payload),
            offsets.push(bytes.len() as int),
            0,
            (bytes + frame(payload)).len() as int,
        ),
        payloads(bytes + frame(payload), offsets.push(bytes.len() as int)) == payloads(
            bytes,
            offsets,
        ).push(payload),
{
    let grown = bytes + frame(payload);
    let index = offsets.push(bytes.len() as int);
    let last = bytes.len() as int;
    lemma_auto_spec_u64_to_from_le_bytes();
    assert(grown.subrange(last, last + 8) =~= spec_u64_to_le_bytes(payload.len() as u64));
    assert(payload_len(grown, last) == payload.len());
    assert(record_at(grown, last));
    assert(payload_at(grown, last) =~= payload);
    assert forall|i: int| 0 <= i < index.len() implies #[trigger] linked(
        grown,
        index,
        grown.len() as int,
        i,
    ) by {
        if i < offsets.len() {
            assert(linked(bytes, offsets, last, i));
            assert(index[i] == offsets[i]);
            if i + 1 < offsets.len() {
                assert(index[i + 1] == offsets[i + 1]);
            }
            lemma_record_survives_growth(bytes, offsets[i], frame(payload));
        }
    }
    assert forall|i: int| 0 <= i < index.len() implies #[trigger] payloads(grown, index)[i]
        == payloads(bytes, offsets).push(payload)[i] by {
        if i < offsets.len() {
            assert(linked(bytes, offsets, last, i));
            lemma_record_survives_growth(bytes, offsets[i], frame(payload));
        }
    }
    assert(payloads(grown, index) =~= payloads(bytes, offsets).push(payload));
}

/// A complete record is the same record after more bytes are appended.
proof fn lemma_record_survives_growth(bytes: Seq<u8>, pos: int, more: Seq<u8>)
    requires
        record_at(bytes, pos),
    ensures
        record_at(bytes + more, pos),
        record_end(bytes + more, pos) == record_end(bytes, pos),
        payload_at(bytes + more, pos) == payload_at(bytes, pos),
{
    let grown = bytes + more;
    lemma_payload_len_nonnegative(bytes, pos);
    assert(grown.subrange(pos, pos + 8) =~= bytes.subrange(pos, pos + 8));
    assert(grown.subrange(pos + 8, record_end(bytes, pos)) =~= bytes.subrange(
        pos + 8,
        record_end(bytes, pos),
    ));
}

/// A complete record at or after `base` is the same record, `base` bytes
/// earlier, once the first `base` bytes are removed.
proof fn lemma_record_survives_shift(bytes: Seq<u8>, pos: int, base: int)
    requires
        record_at(bytes, pos),
        0 <= base <= pos,
    ensures
        record_at(bytes.skip(base), pos - base),
        record_end(bytes.skip(base), pos - base) == record_end(bytes, pos) - base,
        payload_at(bytes.skip(base), pos - base) == payload_at(bytes, pos),
{
    let rest = bytes.skip(base);
    lemma_payload_len_nonnegative(bytes, pos);
    assert(rest.subrange(pos - base, pos - base + 8) =~= bytes.subrange(pos, pos + 8));
    assert(rest.subrange(pos - base + 8, record_end(bytes, pos) - base) =~= bytes.subrange(
        pos + 8,
        record_end(bytes, pos),
    ));
}

/// Removing the bytes before the record at index `first` leaves a chain of
/// the records from `first` on, each `base` bytes earlier, with the same
/// payloads.
proof fn lemma_chain_survives_shift(
    bytes: Seq<u8>,
    offsets: Seq<int>,
    first: int,
    shifted: Seq<int>,
)
    requires
        chained(bytes, offsets, 0, bytes.len() as int),
        0 <= first < offsets.len(),
        shifted.len() == offsets.len() - first,
        forall|j: int|
            0 <= j < shifted.len() ==> #[trigger] shifted[j] == offsets[first + j] - offsets[first],
    ensures
        chained(
            bytes.skip(offsets[first]),
            shifted,
            0,
            bytes.skip(offsets[first]).len() as int,
        ),
        payloads(bytes.skip(offsets[first]), shifted) == payloads(bytes, offsets).skip(first),
{
    let base = offsets[first];
    let rest = bytes.skip(base);
    lemma_record_ends_in_chain(bytes, offsets, 0, bytes.len() as int, first);
    let end = bytes.len() as int;
    assert(linked(bytes, offsets, end, first));
    assert(shifted[0] == 0);
    assert forall|j: int| 0 <= j < shifted.len() implies #[trigger] linked(
        rest,
        shifted,
        rest.len() as int,
        j,
    ) by {
        assert(shifted[j] == offsets[first + j] - base);
        if j + 1 < shifted.len() {
            assert(shifted[j + 1] == offsets[first + (j + 1)] - base);
        }
        assert(linked(bytes, offsets, end, first + j));
        lemma_offsets_increase(bytes, offsets, 0, bytes.len() as int, first, first + j);
        lemma_record_survives_shift(bytes, offsets[first + j], base);
    }
    assert forall|j: int| 0 <= j < shifted.len() implies #[trigger] payloads(rest, shifted)[j]
        == payloads(bytes, offsets).skip(first)[j] by {
        assert(shifted[j] == offsets[first + j] - base);
        assert(linked(bytes, offsets, end, first + j));
        lemma_offsets_increase(bytes, offsets, 0, bytes.len() as int, first, first + j);
        lemma_record_survives_shift(bytes, offsets[first + j], base);
    }
    assert(payloads(rest, shifted) =~= payloads(bytes, offsets).skip(first));
}

/// The first `count` records of a chain are a chain that ends where the
/// record at `count` starts.
proof fn lemma_chain_prefix(bytes: Seq<u8>, offsets: Seq<int>, count: int)
    requires
        chained(bytes, offsets, 0, bytes.len() as int),
        0 <= count < offsets.len(),
    ensures
        chained(bytes, offsets.take(count), 0, offsets[count]),
{
    let prefix = offsets.take(count);
    lemma_record_ends_in_chain(bytes, offsets, 0, bytes.len() as int, count);
    assert(linked(bytes, offsets, bytes.len() as int, count));
    assert forall|i: int| 0 <= i < prefix.len() implies #[trigger] linked(
        bytes,
        prefix,
        offsets[count],
        i,
    ) by {
        assert(prefix[i] == offsets[i]);
        assert(linked(bytes, offsets, bytes.len() as int, i));
        if i + 1 < prefix.len() {
            assert(prefix[i + 1] == offsets[i + 1]);
        }
    }
}

/// Cutting the bytes off at the end of a chain keeps the chain and the
/// payloads it delimits.
proof fn lemma_chain_survives_cut(bytes: Seq<u8>, offsets: Seq<int>, end: int)
    requires
        chained(bytes, offsets, 0, end),
    ensures
        chained(bytes.take(end), offsets, 0, end),
        payloads(bytes.take(end), offsets) == payloads(bytes, offsets),
{
    let cut = bytes.take(end);
    assert forall|i: int| 0 <= i < offsets.len() implies #[trigger] linked(cut, offsets, end, i) by {
        assert(linked(bytes, offsets, end, i));
        lemma_record_ends_in_chain(bytes, offsets, 0, end, i);
        lemma_record_survives_cut(bytes, offsets[i], end);
    }
    assert forall|i: int| 0 <= i < offsets.len() implies #[trigger] payloads(cut, offsets)[i]
        == payloads(bytes, offsets)[i] by {
        assert(linked(bytes, offsets, end, i));
        lemma_record_ends_in_chain(bytes, offsets, 0, end, i);
        lemma_record_survives_cut(bytes, offsets[i], end);
    }
    assert(payloads(cut, offsets) =~= payloads(bytes, offsets));
}

/// Every record of a chain ends at or before the end of the chain.
proof fn lemma_record_ends_in_chain(
    bytes: Seq<u8>,
    offsets: Seq<int>,
    start: int,
    end: int,
    i: int,
)
    requires
        chained(bytes, offsets, start, end),
        0 <= i < offsets.len(),
    ensures
        start <= offsets[i],
        record_end(bytes, offsets[i]) <= end,
        i + 1 < offsets.len() ==> offsets[i] < offsets[i + 1],
    decreases offsets.len() - i,
{
    assert(linked(bytes, offsets, end, i));
    lemma_payload_len_nonnegative(bytes, offsets[i]);
    if i + 1 < offsets.len() {
        lemma_record_ends_in_chain(bytes, offsets, start, end, i + 1);
    }
    if i > 0 {
        lemma_chain_starts_after(bytes, offsets, start, end, i);
    }
}

/// Every record of a chain starts at or after the start of the chain.
proof fn lemma_chain_starts_after(
    bytes: Seq<u8>,
    offsets: Seq<int>,
    start: int,
    end: int,
    i: int,
)
    requires
        chained(bytes, offsets, start, end),
        0 <= i < offsets.len(),
    ensures
        start <= offsets[i],
    decreases i,
{
    if i > 0 {
        lemma_chain_starts_after(bytes, offsets, start, end, i - 1);
        assert(linked(bytes, offsets, end, i - 1));
        lemma_payload_len_nonnegative(bytes, offsets[i - 1]);
    }
}

/// A record that ends at or before `end` is the same record in the bytes cut
/// off at `end`.
proof fn lemma_record_survives_cut(bytes: Seq<u8>, pos: int, end: int)
    requires
        record_at(bytes, pos),
        record_end(bytes, pos) <= end <= bytes.len(),
    ensures
        record_at(bytes.take(end), pos),
        record_end(bytes.take(end), pos) == record_end(bytes, pos),
        payload_at(bytes.take(end), pos) == payload_at(bytes, pos),
{
    let cut = bytes.take(end);
    lemma_payload_len_nonnegative(bytes, pos);
    assert(cut.subrange(pos, pos + 8) =~= bytes.subrange(pos, pos + 8));
    assert(cut.subrange(pos + 8, record_end(bytes, pos)) =~= bytes.subrange(
        pos + 8,
        record_end(bytes, pos),
    ));
}

/// The bytes that a chain covers are the frames of its payloads, one after
/// the other.
proof fn lemma_chained_is_frames(bytes: Seq<u8>, offsets: Seq<int>, end: int)
    requires
        chained(bytes, offsets, 0, end),
    ensures
        bytes.take(end) == frames(payloads(bytes, offsets)),
    decreases offsets.len(),
{
    let records = payloads(bytes, offsets);
    if offsets.len() == 0 {
        assert(bytes.take(end) =~= Seq::<u8>::empty());
    } else {
        let count = offsets.len() - 1;
        let last = offsets[count];
        assert(linked(bytes, offsets, end, count));
        lemma_payload_len_nonnegative(bytes, last);
        assert(chained(bytes, offsets.take(count), 0, last)) by {
            lemma_record_ends_in_chain(bytes, offsets, 0, end, count);
            if count == 0 {
                assert(offsets[0] == 0);
            }
            assert forall|i: int| 0 <= i < count implies #[trigger] linked(
                bytes,
                offsets.take(count),
                last,
                i,
            ) by {
                assert(linked(bytes, offsets, end, i));
                assert(offsets.take(count)[i] == offsets[i]);
                if i + 1 < count {
                    assert(offsets.take(count)[i + 1] == offsets[i + 1]);
                }
            }
        }
        lemma_chained_is_frames(bytes, offsets.take(count), last);
        assert(payloads(bytes, offsets.take(count)) =~= records.drop_last());
        lemma_auto_spec_u64_to_from_le_bytes();
        let prefix = bytes.subrange(last, last + 8);
        let payload = payload_at(bytes, last);
        assert(spec_u64_to_le_bytes(spec_u64_from_le_bytes(prefix)) == prefix);
        assert(payload.len() as u64 == spec_u64_from_le_bytes(prefix));
        assert(records.last() == payload);
        assert(bytes.take(end) =~= bytes.take(last) + (prefix + payload));
    }
}

/// What is in the log survives closing and reopening: a scan of the image
/// finds exactly the records of the log, and no byte of the image is dropped.
pub proof fn lemma_reopen(log: RaftLog)
    requires
        log.wf(),
    ensures
        scan(log.image()) == log@,
        valid_len(log.image()) == log.image().len(),
{
    lemma_chained_is_scan(log.data@, as_ints(log.offsets@), 0);
}

/// The index of a log is sound: its offsets rise strictly, the records they
/// point at are complete and follow one another without a gap from the first
/// byte of the file to the last, and their payloads are the records of the
/// log.
pub proof fn lemma_index_is_gapless(log: RaftLog)
    requires
        log.wf(),
    ensures
        chained(log.image(), log.index(), 0, log.image().len() as int),
        log@ == payloads(log.image(), log.index()),
        forall|i: int, j: int|
            0 <= i < j < log.index().len() ==> #[trigger] log.index()[i] < #[trigger] log.index()[j],
{
    let offsets = log.index();
    assert forall|i: int, j: int| 0 <= i < j < offsets.len() implies #[trigger] offsets[i]
        < #[trigger] offsets[j] by {
        lemma_record_ends_in_chain(log.image(), offsets, 0, log.image().len() as int, i);
        lemma_offsets_increase(log.image(), offsets, 0, log.image().len() as int, i + 1, j);
    }
}

/// The file of a log holds the frames of its records, one after the other,
/// and nothing else: what the records are decides what the file is.
pub proof fn lemma_image_is_frames(log: RaftLog)
    requires
        log.wf(),
    ensures
        log.image() == frames(log@),
{
    lemma_chained_is_frames(log.data@, as_ints(log.offsets@), log.data@.len() as int);
    assert(log.data@.take(log.data@.len() as int) =~= log.data@);
}

} // verus!
