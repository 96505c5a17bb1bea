//! The stored record and its fixed-size buffer.
use crate::codec::{decode_payload, enc_payload, encode_payload, parse_payload, payload_fits, PayloadModel, ReviewPayload};
use crate::error::ReviewError;
use vstd::prelude::*;

verus! {

/// The size of every storage buffer, in bytes.
pub const RECORD_SPACE: usize = 1000;

/// A stored review: whether it has been populated, and its fields.
pub struct ReviewRecord {
    pub is_initialized: bool,
    pub review: ReviewPayload,
}

/// The value of a stored record.
pub ghost struct RecordModel {
    pub is_initialized: bool,
    pub review: PayloadModel,
}

impl View for ReviewRecord {
    type V = RecordModel;

    open spec fn view(&self) -> RecordModel {
        RecordModel { is_initialized: self.is_initialized, review: self.review@ }
    }
}

/// A record on the wire: the flag as one byte (0 or 1), then the fields.
pub open spec fn enc_record(r: RecordModel) -> Seq<u8> {
    seq![if r.is_initialized { 1u8 } else { 0u8 }] + enc_payload(r.review)
}

/// The record that opens `b`; bytes after it are ignored.
pub open spec fn parse_record(b: Seq<u8>) -> Option<RecordModel> {
    if b.len() == 0 || b[0] > 1 {
        None
    } else {
        match parse_payload(b.drop_first()) {
            Some((p, _)) => Some(RecordModel { is_initialized: b[0] == 1, review: p }),
            None => None,
        }
    }
}

/// What a buffer holds after `r` is written over its front, or `None` where
/// the record is longer than the buffer.
pub open spec fn stored_over(r: RecordModel, buf: Seq<u8>) -> Option<Seq<u8>> {
    let e = enc_record(r);
    if e.len() <= buf.len() {
        Some(e + buf.subrange(e.len() as int, buf.len() as int))
    } else {
        None
    }
}

/// Reading back a written record gives the record, whatever follows it.
pub proof fn lemma_record_round_trip(r: RecordModel, rest: Seq<u8>)
    requires
        payload_fits(r.review),
    ensures
        parse_record(enc_record(r) + rest) == Some(r),
{
    crate::codec::lemma_parse_payload(r.review, rest);
    assert((enc_record(r) + rest).drop_first() =~= enc_payload(r.review) + rest);
}

/// Reads the record at the front of a storage buffer.
pub fn load(data: &[u8]) -> (r: Option<ReviewRecord>)
    ensures
        match r {
            Some(rec) => parse_record(data@) == Some(rec@),
            None => parse_record(data@) is None,
        },
{
    if data.len() == 0 || data[0] > 1 {
        return None;
    }
    let body = vstd::slice::slice_subrange(data, 1, data.len());
    assert(body@ =~= data@.drop_first());
    match decode_payload(body) {
        Some((review, _)) => Some(ReviewRecord { is_initialized: data[0] == 1, review }),
        None => None,
    }
}

/// Writes `record` over the front of `data`, leaving the bytes after it; a
/// record longer than the buffer gives `SerializationOverflow` and changes nothing.
pub fn persist(record: &ReviewRecord, data: &mut Vec<u8>) -> (r: Result<(), ReviewError>)
    requires
        payload_fits(record@.review),
    ensures
        match stored_over(record@, old(data)@) {
            Some(b) => r is Ok && final(data)@ == b,
            None => r == Err::<(), ReviewError>(ReviewError::SerializationOverflow)
                && final(data)@ == old(data)@,
        },
{
    let mut bytes: Vec<u8> = Vec::new();
    bytes.push(if record.is_initialized { 1u8 } else { 0u8 });
    encode_payload(&record.review, &mut bytes);
    assert(bytes@ == enc_record(record@));
    if bytes.len() > data.len() {
        return Err(ReviewError::SerializationOverflow);
    }
    let ghost before = data@;
    let mut i: usize = 0;
    while i < bytes.len()
        invariant
            i <= bytes@.len() <= data@.len(),
            data@.len() == before.len(),
            forall|j: int| 0 <= j < i ==> data@[j] == bytes@[j],
            forall|j: int| i <= j < before.len() ==> data@[j] == before[j],
        decreases bytes@.len() - i,
    {
        data.set(i, bytes[i]);
        i = i + 1;
    }
    assert(data@ =~= bytes@ + before.subrange(bytes@.len() as int, before.len() as int));
    Ok(())
}

/// A buffer of `n` zero bytes: storage that was allocated and never written.
pub fn zeroed(n: usize) -> (r: Vec<u8>)
    ensures
        r@ == Seq::new(n as nat, |i: int| 0u8),
{
    let mut v: Vec<u8> = Vec::new();
    while v.len() < n
        invariant
            v@.len() <= n,
            forall|j: int| 0 <= j < v@.len() ==> v@[j] == 0u8,
        decreases n - v@.len(),
    {
        v.push(0u8);
    }
    assert(v@ =~= Seq::new(n as nat, |i: int| 0u8));
    v
}

} // verus!
