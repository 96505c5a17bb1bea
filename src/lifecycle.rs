//! What holds across invocations on one storage account.
use crate::codec::{enc_str, enc_strs, enc_u32, enc_u64, PayloadModel};
use crate::error::ReviewError;
use crate::processor::{add_spec, populated, rating_ok, update_spec, written, AccountModel, CommitModel};
use crate::state::{enc_record, lemma_record_round_trip, parse_record, RecordModel, RECORD_SPACE};
use vstd::prelude::*;
use vstd::utf8::encode_utf8;

verus! {

/// Storage that a successful add or update wrote reads back as the populated
/// record.
pub proof fn lemma_written_reads_back(p: PayloadModel, buf: Seq<u8>)
    requires
        written(p, buf) is Some,
    ensures
        parse_record(written(p, buf).unwrap()) == Some(populated(p)),
{
    let e = enc_record(populated(p));
    lemma_record_round_trip(populated(p), buf.subrange(e.len() as int, buf.len() as int));
}

/// A second add for the same owner and institution, on the storage the first
/// add wrote, is refused as already initialized, so nothing is written.
pub proof fn lemma_second_add_rejected(
    program: Seq<u8>,
    accts: Seq<AccountModel>,
    p: PayloadModel,
    c: CommitModel,
    accts2: Seq<AccountModel>,
    p2: PayloadModel,
)
    requires
        add_spec(program, accts, p) == Ok::<CommitModel, ReviewError>(c),
        accts2.len() >= 3,
        accts2[0].key == accts[0].key,
        accts2[0].is_signer,
        accts2[1].key == accts[1].key,
        accts2[1].data == c.data,
        p2.from_institution == p.from_institution,
    ensures
        add_spec(program, accts2, p2) == Err::<CommitModel, ReviewError>(
            ReviewError::AlreadyInitialized,
        ),
{
    lemma_written_reads_back(p, Seq::new(RECORD_SPACE as nat, |i: int| 0u8));
}

/// An update on storage that this program does not own is refused as such,
/// before the record or the fields are looked at.
pub proof fn lemma_update_foreign_storage(
    program: Seq<u8>,
    accts: Seq<AccountModel>,
    p: PayloadModel,
)
    requires
        accts.len() >= 2,
        accts[1].owner != program,
    ensures
        update_spec(program, accts, p) == Err::<CommitModel, ReviewError>(
            ReviewError::IllegalOwner,
        ),
{
}

/// The record that an all-zero buffer holds: unpopulated, with empty fields.
pub open spec fn blank_record() -> RecordModel {
    RecordModel {
        is_initialized: false,
        review: PayloadModel {
            from_institution: Seq::empty(),
            from_state_province: Seq::empty(),
            from_country: Seq::empty(),
            to_institution: Seq::empty(),
            to_country: Seq::empty(),
            date_started: Seq::empty(),
            date_ended: Seq::empty(),
            ending_salary: 0,
            ending_currency: Seq::empty(),
            new_salary: 0,
            new_currency: Seq::empty(),
            date_transferred: Seq::empty(),
            skills_earned: Seq::empty(),
            description: Seq::empty(),
            rating: 0,
            behaviour: Seq::empty(),
            created_at: Seq::empty(),
        },
    }
}

/// A freshly allocated, all-zero buffer reads as the blank record.
pub proof fn lemma_zeroed_is_blank(n: nat)
    requires
        n >= 74,
    ensures
        parse_record(Seq::new(n, |i: int| 0u8)) == Some(blank_record()),
{
    let z4 = seq![0u8, 0u8, 0u8, 0u8];
    let e = Seq::<char>::empty();
    assert(encode_utf8(e) =~= Seq::<u8>::empty());
    assert(enc_u32(0) == z4) by {
        assert((0u32 >> 8u32) as u8 == 0 && (0u32 >> 16u32) as u8 == 0 && (0u32 >> 24u32) as u8
            == 0) by (bit_vector);
    }
    assert(enc_u64(0) =~= z4 + z4) by {
        assert((0u64 >> 8u64) as u8 == 0 && (0u64 >> 16u64) as u8 == 0 && (0u64 >> 24u64) as u8
            == 0 && (0u64 >> 32u64) as u8 == 0 && (0u64 >> 40u64) as u8 == 0 && (0u64 >> 48u64)
            as u8 == 0 && (0u64 >> 56u64) as u8 == 0) by (bit_vector);
    }
    assert(enc_str(e) =~= z4) by {
        reveal(enc_str);
    }
    let p = blank_record().review;
    reveal_with_fuel(enc_strs, 8);
    assert(enc_strs(crate::codec::head_strs(p)) =~= z4 + z4 + z4 + z4 + z4 + z4 + z4);
    assert(enc_strs(p.skills_earned) =~= Seq::<u8>::empty());
    let b = enc_record(blank_record());
    assert(b =~= Seq::new(74, |i: int| 0u8));
    let rest = Seq::new((n - 74) as nat, |i: int| 0u8);
    assert(Seq::new(n, |i: int| 0u8) =~= b + rest);
    lemma_record_round_trip(blank_record(), rest);
}

/// An update on storage that was allocated and never written is refused as
/// not initialized.
pub proof fn lemma_update_unpopulated(program: Seq<u8>, accts: Seq<AccountModel>, p: PayloadModel)
    requires
        accts.len() >= 2,
        accts[1].owner == program,
        accts[0].is_signer,
        accts[1].data == Seq::new(RECORD_SPACE as nat, |i: int| 0u8),
    ensures
        update_spec(program, accts, p) == Err::<CommitModel, ReviewError>(
            ReviewError::NotInitialized,
        ),
{
    lemma_zeroed_is_blank(RECORD_SPACE as nat);
}

/// After an add, the owner's update of the same storage account succeeds even
/// when it renames the institution: the address stays the one derived from
/// the institution stored at creation, and the storage then holds the new
/// fields.
pub proof fn lemma_update_after_add(
    program: Seq<u8>,
    accts: Seq<AccountModel>,
    p: PayloadModel,
    c: CommitModel,
    accts2: Seq<AccountModel>,
    p2: PayloadModel,
)
    requires
        add_spec(program, accts, p) == Ok::<CommitModel, ReviewError>(c),
        accts2.len() >= 2,
        accts2[0].key == accts[0].key,
        accts2[0].is_signer,
        accts2[1].key == accts[1].key,
        accts2[1].owner == program,
        accts2[1].data == c.data,
        rating_ok(p2.rating),
        written(p2, c.data) is Some,
    ensures
        update_spec(program, accts2, p2) == Ok::<CommitModel, ReviewError>(
            CommitModel { allocation: None, data: written(p2, c.data).unwrap() },
        ),
        parse_record(written(p2, c.data).unwrap()) == Some(populated(p2)),
{
    lemma_written_reads_back(p, Seq::new(RECORD_SPACE as nat, |i: int| 0u8));
    lemma_written_reads_back(p2, c.data);
}

} // verus!
