//! The two outside codecs: `bincode`, which writes records as bytes, and
//! `brotli2`, which compresses bytes. Nothing in this file is proved: each
//! function states what the crate that it calls is relied on to do, and the
//! rest of the library is proved from that.

use std::io::Read;
use vstd::prelude::*;

verus! {

/// A block as it is written: the kind, the slot of the mesh of an object,
/// vertices, texture coordinates, index pairs, and compressed bytes. Slots
/// and indices are written with 64 bits on every machine.
pub type Record = (u32, u64, Vec<(u32, u32, u32)>, Vec<(u32, u32)>, Vec<(u64, u64)>, Vec<u8>);

/// What a record holds.
pub type RecordView = (
    u32,
    u64,
    Seq<(u32, u32, u32)>,
    Seq<(u32, u32)>,
    Seq<(u64, u64)>,
    Seq<u8>,
);

/// The bytes that `bincode::serialize` gives for a sequence of records, if
/// it gives any.
pub uninterp spec fn bincode_serialized(records: Seq<RecordView>) -> Option<Seq<u8>>;

/// The records that `bincode::deserialize` reads from bytes, if it reads
/// any.
pub uninterp spec fn bincode_deserialized(bytes: Seq<u8>) -> Option<Seq<RecordView>>;

/// The bytes that a `brotli2::read::BrotliEncoder` of the given level gives
/// for bytes, if it gives any.
pub uninterp spec fn brotli_compressed(bytes: Seq<u8>, level: u32) -> Option<Seq<u8>>;

/// The bytes that a `brotli2::read::BrotliDecoder` gives for bytes, if it
/// gives any.
pub uninterp spec fn brotli_decompressed(bytes: Seq<u8>) -> Option<Seq<u8>>;

/// What a vector of bytes holds, if there is one.
pub open spec fn bytes_view(bytes: Option<Vec<u8>>) -> Option<Seq<u8>> {
    match bytes {
        Some(b) => Some(b@),
        None => None,
    }
}

/// What a vector of records holds, if there is one.
pub open spec fn records_view(records: Option<Vec<Record>>) -> Option<Seq<RecordView>> {
    match records {
        Some(r) => Some(r.deep_view()),
        None => None,
    }
}

/// `bincode::serialize` with `bincode::Infinite` as its size limit. It is
/// relied on to give bytes that depend on what the records hold and on
/// nothing else. That it gives any is not claimed.
#[verifier::external_body]
pub(crate) fn serialize(records: &Vec<Record>) -> (r: Option<Vec<u8>>)
    ensures
        bytes_view(r) == bincode_serialized(records.deep_view()),
{
    bincode::serialize(records, bincode::Infinite).ok()
}

/// `bincode::deserialize`. It is relied on to give records that depend on
/// the bytes alone, and to read back what `bincode::serialize` wrote: from
/// the bytes that it gave for records, these records.
#[verifier::external_body]
pub(crate) fn deserialize(bytes: &[u8]) -> (r: Option<Vec<Record>>)
    ensures
        records_view(r) == bincode_deserialized(bytes@),
        forall|records: Seq<RecordView>|
            bincode_serialized(records) == Some(bytes@) ==> records_view(r) == Some(records),
{
    bincode::deserialize(bytes).ok()
}

/// `brotli2::read::BrotliEncoder::new` over the bytes, read to its end. It
/// is relied on to give bytes that depend on the bytes and the level alone.
/// That it gives any is not claimed. The levels of the encoder are 0 to 11.
#[verifier::external_body]
pub(crate) fn compress(bytes: &[u8], level: u32) -> (r: Option<Vec<u8>>)
    requires
        level <= 11,
    ensures
        bytes_view(r) == brotli_compressed(bytes@, level),
{
    let mut out = Vec::new();
    match brotli2::read::BrotliEncoder::new(bytes, level).read_to_end(&mut out) {
        Ok(_) => Some(out),
        Err(_) => None,
    }
}

/// `brotli2::read::BrotliDecoder::new` over the bytes, read to its end. It
/// is relied on to give bytes that depend on the bytes alone, and to undo
/// the encoder: from what an encoder of a level up to 11 gave for bytes,
/// these bytes.
#[verifier::external_body]
pub(crate) fn decompress(bytes: &[u8]) -> (r: Option<Vec<u8>>)
    ensures
        bytes_view(r) == brotli_decompressed(bytes@),
        forall|plain: Seq<u8>, level: u32|
            level <= 11 && #[trigger] brotli_compressed(plain, level) == Some(bytes@)
                ==> bytes_view(r) == Some(plain),
{
    let mut out = Vec::new();
    match brotli2::read::BrotliDecoder::new(bytes).read_to_end(&mut out) {
        Ok(_) => Some(out),
        Err(_) => None,
    }
}

} // verus!
