//! One invocation: decode the command, check the accounts, and produce the
//! bytes to store, or the reason for refusing.
use crate::address::{derive_address, locates, program_address_of, Address};
use crate::codec::{payload_fits, str_fits, PayloadModel, ReviewPayload};
use crate::error::ReviewError;
use crate::instruction::{parse_instruction, InstructionModel, ReviewInstruction};
use crate::state::{load, parse_record, persist, stored_over, zeroed, RecordModel, ReviewRecord, RECORD_SPACE};
use vstd::prelude::*;
use vstd::utf8::encode_utf8;

verus! {

/// What the host reports of one account of the invocation.
pub struct AccountInput {
    pub key: Address,
    pub owner: Address,
    pub is_signer: bool,
    pub data: Vec<u8>,
}

/// The value of an account as the host reports it.
pub ghost struct AccountModel {
    pub key: Seq<u8>,
    pub owner: Seq<u8>,
    pub is_signer: bool,
    pub data: Seq<u8>,
}

impl View for AccountInput {
    type V = AccountModel;

    open spec fn view(&self) -> AccountModel {
        AccountModel {
            key: self.key.bytes@,
            owner: self.owner.bytes@,
            is_signer: self.is_signer,
            data: self.data@,
        }
    }
}

/// A storage account to create before the data is written: `space` bytes at
/// `address`, paid by `payer`, signed for with the seeds `[payer, seed, [bump]]`.
pub struct Allocation {
    pub payer: Address,
    pub address: Address,
    pub seed: Vec<u8>,
    pub bump: u8,
    pub space: u64,
}

/// The value of an allocation request.
pub ghost struct AllocationModel {
    pub payer: Seq<u8>,
    pub address: Seq<u8>,
    pub seed: Seq<u8>,
    pub bump: u8,
    pub space: u64,
}

/// A committed invocation: the account to create, if any, and the new
/// contents of the storage account.
pub struct Commit {
    pub allocation: Option<Allocation>,
    pub data: Vec<u8>,
}

/// The value of a committed invocation.
pub ghost struct CommitModel {
    pub allocation: Option<AllocationModel>,
    pub data: Seq<u8>,
}

impl View for Allocation {
    type V = AllocationModel;

    open spec fn view(&self) -> AllocationModel {
        AllocationModel {
            payer: self.payer.bytes@,
            address: self.address.bytes@,
            seed: self.seed@,
            bump: self.bump,
            space: self.space,
        }
    }
}

impl View for Commit {
    type V = CommitModel;

    open spec fn view(&self) -> CommitModel {
        CommitModel {
            allocation: match self.allocation {
                Some(a) => Some(a@),
                None => None,
            },
            data: self.data@,
        }
    }
}

/// The accounts of an invocation, as values.
pub open spec fn accounts_view(accounts: &[AccountInput]) -> Seq<AccountModel> {
    accounts@.map_values(|a: AccountInput| a@)
}

/// The outcome of an invocation, as a value.
pub open spec fn result_view(r: Result<Commit, ReviewError>) -> Result<CommitModel, ReviewError> {
    match r {
        Ok(c) => Ok(c@),
        Err(e) => Err(e),
    }
}

/// A derivation result, as a value.
pub open spec fn derived_view(d: Option<(Address, u8)>) -> Option<(Seq<u8>, u8)> {
    match d {
        Some((a, b)) => Some((a.bytes@, b)),
        None => None,
    }
}

/// Whether a rating lies in the accepted range of one to ten.
pub open spec fn rating_ok(r: u8) -> bool {
    1 <= r && r <= 10
}

/// The seed of a review's storage address: its institution's UTF-8 bytes.
pub open spec fn seed_of(p: PayloadModel) -> Seq<u8> {
    encode_utf8(p.from_institution)
}

/// The record that a successful add or update leaves behind.
pub open spec fn populated(p: PayloadModel) -> RecordModel {
    RecordModel { is_initialized: true, review: p }
}

/// The new contents of storage holding `buf` once `p` is written into it.
pub open spec fn written(p: PayloadModel, buf: Seq<u8>) -> Option<Seq<u8>> {
    if payload_fits(p) {
        stored_over(populated(p), buf)
    } else {
        None
    }
}

/// An add, given what derivation found for the owner and the new institution.
/// Accounts: the owner, the storage, the allocator.
pub open spec fn add_outcome(
    program: Seq<u8>,
    accts: Seq<AccountModel>,
    p: PayloadModel,
    derived: Option<(Seq<u8>, u8)>,
) -> Result<CommitModel, ReviewError> {
    if accts.len() < 3 {
        Err(ReviewError::NotEnoughAccounts)
    } else if !accts[0].is_signer {
        Err(ReviewError::MissingSignature)
    } else if !locates(derived, accts[1].key) {
        Err(ReviewError::InvalidAddress)
    } else if accts[1].data.len() > 0 && parse_record(accts[1].data) is None {
        Err(ReviewError::InvalidAccountData)
    } else if accts[1].data.len() > 0 && parse_record(accts[1].data).unwrap().is_initialized {
        Err(ReviewError::AlreadyInitialized)
    } else if !rating_ok(p.rating) {
        Err(ReviewError::InvalidRating)
    } else {
        match written(p, Seq::new(RECORD_SPACE as nat, |i: int| 0u8)) {
            None => Err(ReviewError::SerializationOverflow),
            Some(b) => Ok(
                CommitModel {
                    allocation: Some(
                        AllocationModel {
                            payer: accts[0].key,
                            address: accts[1].key,
                            seed: seed_of(p),
                            bump: derived.unwrap().1,
                            space: RECORD_SPACE as u64,
                        },
                    ),
                    data: b,
                },
            ),
        }
    }
}

/// An add: the address is derived from the owner and the new institution.
pub open spec fn add_spec(program: Seq<u8>, accts: Seq<AccountModel>, p: PayloadModel) -> Result<
    CommitModel,
    ReviewError,
> {
    add_outcome(program, accts, p, program_address_of(accts[0].key, seed_of(p), program))
}

/// An update, given what derivation found for the owner and the institution
/// already stored. Accounts: the owner, the storage.
pub open spec fn update_outcome(
    program: Seq<u8>,
    accts: Seq<AccountModel>,
    p: PayloadModel,
    derived: Option<(Seq<u8>, u8)>,
) -> Result<CommitModel, ReviewError> {
    if accts.len() < 2 {
        Err(ReviewError::NotEnoughAccounts)
    } else if accts[1].owner != program {
        Err(ReviewError::IllegalOwner)
    } else if !accts[0].is_signer {
        Err(ReviewError::MissingSignature)
    } else {
        match parse_record(accts[1].data) {
            None => Err(ReviewError::InvalidAccountData),
            Some(stored) => if !stored.is_initialized {
                Err(ReviewError::NotInitialized)
            } else if !locates(derived, accts[1].key) {
                Err(ReviewError::InvalidAddress)
            } else if !rating_ok(p.rating) {
                Err(ReviewError::InvalidRating)
            } else {
                match written(p, accts[1].data) {
                    None => Err(ReviewError::SerializationOverflow),
                    Some(b) => Ok(CommitModel { allocation: None, data: b }),
                }
            },
        }
    }
}

/// What derivation finds from the institution stored in the account's record.
pub open spec fn stored_derivation(program: Seq<u8>, accts: Seq<AccountModel>) -> Option<
    (Seq<u8>, u8),
> {
    match parse_record(accts[1].data) {
        Some(stored) => program_address_of(accts[0].key, seed_of(stored.review), program),
        None => None,
    }
}

/// An update: the address is derived from the owner and the stored institution.
pub open spec fn update_spec(program: Seq<u8>, accts: Seq<AccountModel>, p: PayloadModel) -> Result<
    CommitModel,
    ReviewError,
> {
    update_outcome(program, accts, p, stored_derivation(program, accts))
}

/// One invocation on its instruction bytes.
pub open spec fn process_spec(program: Seq<u8>, accts: Seq<AccountModel>, data: Seq<u8>) -> Result<
    CommitModel,
    ReviewError,
> {
    match parse_instruction(data) {
        None => Err(ReviewError::DecodeError),
        Some(InstructionModel::AddReview(p)) => add_spec(program, accts, p),
        Some(InstructionModel::UpdateReview(p)) => update_spec(program, accts, p),
    }
}

/// Whether a string's UTF-8 byte count fits in a `u32`.
fn text_fits(s: &String) -> (r: bool)
    ensures
        r == str_fits(s@),
{
    s.as_str().as_bytes().len() <= u32::MAX as usize
}

/// Whether every length prefix of the payload fits in a `u32`.
fn fits(p: &ReviewPayload) -> (r: bool)
    ensures
        r == payload_fits(p@),
{
    let head = text_fits(&p.from_institution) && text_fits(&p.from_state_province) && text_fits(
        &p.from_country,
    ) && text_fits(&p.to_institution) && text_fits(&p.to_country) && text_fits(&p.date_started)
        && text_fits(&p.date_ended);
    assert(head == forall|i: int|
        0 <= i < 7 ==> str_fits(#[trigger] crate::codec::head_strs(p@)[i])) by {
        let h = crate::codec::head_strs(p@);
        assert(h[0] == p@.from_institution && h[1] == p@.from_state_province && h[2]
            == p@.from_country && h[3] == p@.to_institution && h[4] == p@.to_country && h[5]
            == p@.date_started && h[6] == p@.date_ended);
    }
    if !head || !text_fits(&p.ending_currency) || !text_fits(&p.new_currency) || !text_fits(
        &p.date_transferred,
    ) || p.skills_earned.len() > u32::MAX as usize || !text_fits(&p.description) || !text_fits(
        &p.behaviour,
    ) || !text_fits(&p.created_at) {
        return false;
    }
    let mut i: usize = 0;
    while i < p.skills_earned.len()
        invariant
            i <= p.skills_earned@.len(),
            forall|j: int| 0 <= j < i ==> str_fits(#[trigger] p@.skills_earned[j]),
        decreases p.skills_earned@.len() - i,
    {
        if !text_fits(&p.skills_earned[i]) {
            assert(p@.skills_earned[i as int] == p.skills_earned@[i as int]@);
            return false;
        }
        assert(p@.skills_earned[i as int] == p.skills_earned@[i as int]@);
        i = i + 1;
    }
    true
}

/// Writes the populated record for `review` into `buf`.
fn write_populated(review: ReviewPayload, buf: Vec<u8>) -> (r: Result<Vec<u8>, ReviewError>)
    ensures
        match written(review@, buf@) {
            Some(b) => r is Ok && r->Ok_0@ == b,
            None => r == Err::<Vec<u8>, ReviewError>(ReviewError::SerializationOverflow),
        },
{
    if !fits(&review) {
        return Err(ReviewError::SerializationOverflow);
    }
    let record = ReviewRecord { is_initialized: true, review };
    let mut buf = buf;
    match persist(&record, &mut buf) {
        Ok(()) => Ok(buf),
        Err(e) => Err(e),
    }
}

/// An add, given the derivation for the owner and `review`'s institution.
pub fn add_review_derived(
    program_id: &Address,
    accounts: &[AccountInput],
    review: ReviewPayload,
    derived: Option<(Address, u8)>,
) -> (r: Result<Commit, ReviewError>)
    ensures
        result_view(r) == add_outcome(
            program_id.bytes@,
            accounts_view(accounts),
            review@,
            derived_view(derived),
        ),
{
    if accounts.len() < 3 {
        return Err(ReviewError::NotEnoughAccounts);
    }
    let owner = &accounts[0];
    let storage = &accounts[1];
    if !owner.is_signer {
        return Err(ReviewError::MissingSignature);
    }
    let bump = match &derived {
        Some((a, bump)) => {
            if !a.same(&storage.key) {
                return Err(ReviewError::InvalidAddress);
            }
            *bump
        },
        None => {
            return Err(ReviewError::InvalidAddress);
        },
    };
    if storage.data.len() > 0 {
        match load(storage.data.as_slice()) {
            None => {
                return Err(ReviewError::InvalidAccountData);
            },
            Some(existing) => {
                if existing.is_initialized {
                    return Err(ReviewError::AlreadyInitialized);
                }
            },
        }
    }
    if review.rating < 1 || review.rating > 10 {
        return Err(ReviewError::InvalidRating);
    }
    let seed = vstd::slice::slice_to_vec(review.from_institution.as_str().as_bytes());
    let data = write_populated(review, zeroed(RECORD_SPACE))?;
    let allocation = Allocation {
        payer: owner.key.copy(),
        address: storage.key.copy(),
        seed,
        bump,
        space: RECORD_SPACE as u64,
    };
    Ok(Commit { allocation: Some(allocation), data })
}

/// An update, given the derivation for the owner and the stored institution.
pub fn update_review_derived(
    program_id: &Address,
    accounts: &[AccountInput],
    review: ReviewPayload,
    derived: Option<(Address, u8)>,
) -> (r: Result<Commit, ReviewError>)
    ensures
        result_view(r) == update_outcome(
            program_id.bytes@,
            accounts_view(accounts),
            review@,
            derived_view(derived),
        ),
{
    if accounts.len() < 2 {
        return Err(ReviewError::NotEnoughAccounts);
    }
    let owner = &accounts[0];
    let storage = &accounts[1];
    if !storage.owner.same(program_id) {
        return Err(ReviewError::IllegalOwner);
    }
    if !owner.is_signer {
        return Err(ReviewError::MissingSignature);
    }
    let stored = match load(storage.data.as_slice()) {
        None => {
            return Err(ReviewError::InvalidAccountData);
        },
        Some(s) => s,
    };
    if !stored.is_initialized {
        return Err(ReviewError::NotInitialized);
    }
    match &derived {
        Some((a, _)) => {
            if !a.same(&storage.key) {
                return Err(ReviewError::InvalidAddress);
            }
        },
        None => {
            return Err(ReviewError::InvalidAddress);
        },
    }
    if review.rating < 1 || review.rating > 10 {
        return Err(ReviewError::InvalidRating);
    }
    let data = write_populated(review, storage.data.clone())?;
    Ok(Commit { allocation: None, data })
}

/// Adds a review: creates the storage at the address derived from the owner
/// and the institution, and populates it.
pub fn add_review(program_id: &Address, accounts: &[AccountInput], review: ReviewPayload) -> (r:
    Result<Commit, ReviewError>)
    ensures
        result_view(r) == add_spec(program_id.bytes@, accounts_view(accounts), review@),
{
    if accounts.len() < 3 {
        return Err(ReviewError::NotEnoughAccounts);
    }
    let derived = derive_address(
        &accounts[0].key,
        review.from_institution.as_str().as_bytes(),
        program_id,
    );
    add_review_derived(program_id, accounts, review, derived)
}

/// Updates a review in place; its address stays the one derived from the
/// institution stored when it was added.
pub fn update_review(program_id: &Address, accounts: &[AccountInput], review: ReviewPayload) -> (r:
    Result<Commit, ReviewError>)
    ensures
        result_view(r) == update_spec(program_id.bytes@, accounts_view(accounts), review@),
{
    if accounts.len() < 2 {
        return Err(ReviewError::NotEnoughAccounts);
    }
    let derived = match load(accounts[1].data.as_slice()) {
        Some(stored) => derive_address(
            &accounts[0].key,
            stored.review.from_institution.as_str().as_bytes(),
            program_id,
        ),
        None => None,
    };
    update_review_derived(program_id, accounts, review, derived)
}

/// Decodes the instruction and carries out the command.
pub fn process_instruction(
    program_id: &Address,
    accounts: &[AccountInput],
    instruction_data: &[u8],
) -> (r: Result<Commit, ReviewError>)
    ensures
        result_view(r) == process_spec(program_id.bytes@, accounts_view(accounts), instruction_data@),
{
    let instruction = ReviewInstruction::unpack(instruction_data)?;
    match instruction {
        ReviewInstruction::AddReview(review) => add_review(program_id, accounts, review),
        ReviewInstruction::UpdateReview(review) => update_review(program_id, accounts, review),
    }
}

} // verus!
