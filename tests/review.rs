use review_program::address::{derive_address, verify_address, Address};
use review_program::codec::{decode_payload, encode_payload, ReviewPayload};
use review_program::error::ReviewError;
use review_program::instruction::ReviewInstruction;
use review_program::processor::{
    add_review, process_instruction, update_review, AccountInput, Commit,
};
use review_program::state::{load, persist, zeroed, ReviewRecord, RECORD_SPACE};

fn program() -> Address {
    Address::new([7u8; 32])
}

fn owner_key() -> Address {
    Address::new([1u8; 32])
}

fn payload(institution: &str, rating: u8) -> ReviewPayload {
    ReviewPayload {
        from_institution: institution.to_string(),
        from_state_province: "Massachusetts".to_string(),
        from_country: "USA".to_string(),
        to_institution: "Acme".to_string(),
        to_country: "Canada".to_string(),
        date_started: "2019-01-01".to_string(),
        date_ended: "2023-06-30".to_string(),
        ending_salary: 120_000,
        ending_currency: "USD".to_string(),
        new_salary: 150_000,
        new_currency: "CAD".to_string(),
        date_transferred: "2023-07-01".to_string(),
        skills_earned: vec!["Go".to_string(), "SQL".to_string()],
        description: "Moved north".to_string(),
        rating,
        behaviour: "Professional".to_string(),
        created_at: "2023-07-02".to_string(),
    }
}

fn empty_payload() -> ReviewPayload {
    ReviewPayload {
        from_institution: String::new(),
        from_state_province: String::new(),
        from_country: String::new(),
        to_institution: String::new(),
        to_country: String::new(),
        date_started: String::new(),
        date_ended: String::new(),
        ending_salary: 0,
        ending_currency: String::new(),
        new_salary: 0,
        new_currency: String::new(),
        date_transferred: String::new(),
        skills_earned: Vec::new(),
        description: String::new(),
        rating: 0,
        behaviour: String::new(),
        created_at: String::new(),
    }
}

fn same_payload(a: &ReviewPayload, b: &ReviewPayload) -> bool {
    a.from_institution == b.from_institution
        && a.from_state_province == b.from_state_province
        && a.from_country == b.from_country
        && a.to_institution == b.to_institution
        && a.to_country == b.to_country
        && a.date_started == b.date_started
        && a.date_ended == b.date_ended
        && a.ending_salary == b.ending_salary
        && a.ending_currency == b.ending_currency
        && a.new_salary == b.new_salary
        && a.new_currency == b.new_currency
        && a.date_transferred == b.date_transferred
        && a.skills_earned == b.skills_earned
        && a.description == b.description
        && a.rating == b.rating
        && a.behaviour == b.behaviour
        && a.created_at == b.created_at
}

fn storage_for(owner: &Address, institution: &str) -> Address {
    derive_address(owner, institution.as_bytes(), &program()).unwrap().0
}

fn add_accounts(owner: &Address, storage: &Address, data: Vec<u8>, signed: bool) -> Vec<AccountInput> {
    vec![
        AccountInput { key: owner.copy(), owner: Address::new([0u8; 32]), is_signer: signed, data: Vec::new() },
        AccountInput { key: storage.copy(), owner: Address::new([0u8; 32]), is_signer: false, data },
        AccountInput { key: Address::new([0u8; 32]), owner: Address::new([0u8; 32]), is_signer: false, data: Vec::new() },
    ]
}

fn update_accounts(owner: &Address, storage: &Address, storage_owner: &Address, data: Vec<u8>) -> Vec<AccountInput> {
    vec![
        AccountInput { key: owner.copy(), owner: Address::new([0u8; 32]), is_signer: true, data: Vec::new() },
        AccountInput { key: storage.copy(), owner: storage_owner.copy(), is_signer: false, data },
    ]
}

fn add_mit(rating: u8) -> Commit {
    let owner = owner_key();
    let storage = storage_for(&owner, "MIT");
    add_review(&program(), &add_accounts(&owner, &storage, Vec::new(), true), payload("MIT", rating)).unwrap()
}

#[test]
fn round_trip_add_command() {
    let c = ReviewInstruction::AddReview(payload("MIT", 8));
    let bytes = c.pack();
    assert_eq!(bytes[0], 0);
    match ReviewInstruction::unpack(&bytes).unwrap() {
        ReviewInstruction::AddReview(p) => assert!(same_payload(&p, &payload("MIT", 8))),
        ReviewInstruction::UpdateReview(_) => panic!("wrong variant"),
    }
}

#[test]
fn round_trip_update_command_with_empty_fields() {
    let c = ReviewInstruction::UpdateReview(empty_payload());
    let bytes = c.pack();
    assert_eq!(bytes.len(), 74);
    assert_eq!(bytes[0], 1);
    assert!(bytes[1..].iter().all(|b| *b == 0));
    match ReviewInstruction::unpack(&bytes).unwrap() {
        ReviewInstruction::UpdateReview(p) => assert!(same_payload(&p, &empty_payload())),
        ReviewInstruction::AddReview(_) => panic!("wrong variant"),
    }
}

#[test]
fn round_trip_non_ascii_text() {
    let mut p = payload("Université de Montréal", 5);
    p.skills_earned = vec!["日本語".to_string(), String::new()];
    let bytes = ReviewInstruction::AddReview(p).pack();
    let back = ReviewInstruction::unpack(&bytes).unwrap();
    assert_eq!(back.payload().from_institution, "Université de Montréal");
    assert_eq!(back.payload().skills_earned, vec!["日本語".to_string(), String::new()]);
}

#[test]
fn wire_layout_is_exact() {
    let mut p = empty_payload();
    p.from_institution = "MIT".to_string();
    p.ending_salary = 0x0102030405060708;
    p.skills_earned = vec!["Go".to_string()];
    p.rating = 8;
    let bytes = ReviewInstruction::AddReview(p).pack();
    assert_eq!(&bytes[0..8], &[0, 3, 0, 0, 0, b'M', b'I', b'T']);
    // six empty strings follow the institution
    assert_eq!(&bytes[8..32], &[0u8; 24]);
    assert_eq!(&bytes[32..40], &[8, 7, 6, 5, 4, 3, 2, 1]);
    // ending_currency, new_salary, new_currency, date_transferred
    assert_eq!(&bytes[40..60], &[0u8; 20]);
    assert_eq!(&bytes[60..64], &[1, 0, 0, 0]);
    assert_eq!(&bytes[64..70], &[2, 0, 0, 0, b'G', b'o']);
    assert_eq!(&bytes[70..74], &[0u8; 4]);
    assert_eq!(bytes[74], 8);
    assert_eq!(&bytes[75..83], &[0u8; 8]);
    assert_eq!(bytes.len(), 83);
}

#[test]
fn unpack_rejects_malformed_input() {
    assert_eq!(ReviewInstruction::unpack(&[]).err(), Some(ReviewError::DecodeError));
    let mut bytes = ReviewInstruction::AddReview(payload("MIT", 8)).pack();
    bytes[0] = 2;
    assert_eq!(ReviewInstruction::unpack(&bytes).err(), Some(ReviewError::DecodeError));
    bytes[0] = 0;
    let n = bytes.len();
    assert_eq!(ReviewInstruction::unpack(&bytes[..n - 1]).err(), Some(ReviewError::DecodeError));
    bytes.push(0);
    assert_eq!(ReviewInstruction::unpack(&bytes).err(), Some(ReviewError::DecodeError));
}

#[test]
fn unpack_rejects_invalid_utf8() {
    let mut bytes = ReviewInstruction::AddReview(payload("MIT", 8)).pack();
    bytes[5] = 0xff;
    assert_eq!(ReviewInstruction::unpack(&bytes).err(), Some(ReviewError::DecodeError));
}

#[test]
fn unpack_rejects_oversized_length_prefix() {
    let mut bytes = ReviewInstruction::AddReview(payload("MIT", 8)).pack();
    bytes[1] = 0xff;
    bytes[2] = 0xff;
    assert_eq!(ReviewInstruction::unpack(&bytes).err(), Some(ReviewError::DecodeError));
}

#[test]
fn payload_decode_leaves_the_rest() {
    let mut out = vec![9u8];
    encode_payload(&payload("MIT", 3), &mut out);
    out.extend_from_slice(&[5, 6]);
    let (p, rest) = decode_payload(&out[1..]).unwrap();
    assert!(same_payload(&p, &payload("MIT", 3)));
    assert_eq!(rest, &[5, 6]);
}

#[test]
fn derivation_is_deterministic() {
    let a = derive_address(&owner_key(), b"MIT", &program()).unwrap();
    let b = derive_address(&owner_key(), b"MIT", &program()).unwrap();
    assert_eq!(a.0.bytes, b.0.bytes);
    assert_eq!(a.1, b.1);
    assert!(verify_address(&a.0, &owner_key(), b"MIT", &program()));
    assert!(!verify_address(&a.0, &owner_key(), b"Stanford", &program()));
    assert!(!verify_address(&a.0, &Address::new([2u8; 32]), b"MIT", &program()));
    assert_ne!(a.0.bytes, owner_key().bytes);
}

#[test]
fn derivation_refuses_long_seed() {
    let seed = [b'x'; 33];
    assert!(derive_address(&owner_key(), &seed, &program()).is_none());
}

#[test]
fn add_persists_record_verbatim() {
    let owner = owner_key();
    let storage = storage_for(&owner, "MIT");
    let commit = add_mit(8);
    assert_eq!(commit.data.len(), RECORD_SPACE);
    let alloc = commit.allocation.as_ref().unwrap();
    assert_eq!(alloc.payer.bytes, owner.bytes);
    assert_eq!(alloc.address.bytes, storage.bytes);
    assert_eq!(alloc.seed, b"MIT".to_vec());
    assert_eq!(alloc.bump, derive_address(&owner, b"MIT", &program()).unwrap().1);
    assert_eq!(alloc.space, 1000);
    let rec = load(&commit.data).unwrap();
    assert!(rec.is_initialized);
    assert!(same_payload(&rec.review, &payload("MIT", 8)));
    assert_eq!(rec.review.skills_earned, vec!["Go".to_string(), "SQL".to_string()]);
    assert_eq!(commit.data[0], 1);
}

#[test]
fn update_with_bad_rating_keeps_stored_rating() {
    let owner = owner_key();
    let storage = storage_for(&owner, "MIT");
    let commit = add_mit(8);
    let accounts = update_accounts(&owner, &storage, &program(), commit.data.clone());
    let r = update_review(&program(), &accounts, payload("MIT", 11));
    assert_eq!(r.err(), Some(ReviewError::InvalidRating));
    assert_eq!(load(&accounts[1].data).unwrap().review.rating, 8);
}

#[test]
fn add_rating_boundaries() {
    for rating in [1u8, 10u8] {
        assert!(load(&add_mit(rating).data).unwrap().review.rating == rating);
    }
    let owner = owner_key();
    let storage = storage_for(&owner, "MIT");
    for rating in [0u8, 11u8] {
        let r = add_review(&program(), &add_accounts(&owner, &storage, Vec::new(), true), payload("MIT", rating));
        assert_eq!(r.err(), Some(ReviewError::InvalidRating));
    }
}

#[test]
fn update_rating_boundaries() {
    let owner = owner_key();
    let storage = storage_for(&owner, "MIT");
    let data = add_mit(5).data;
    for rating in [1u8, 10u8] {
        let accounts = update_accounts(&owner, &storage, &program(), data.clone());
        let c = update_review(&program(), &accounts, payload("MIT", rating)).unwrap();
        assert!(c.allocation.is_none());
        assert_eq!(load(&c.data).unwrap().review.rating, rating);
    }
    for rating in [0u8, 11u8] {
        let accounts = update_accounts(&owner, &storage, &program(), data.clone());
        let r = update_review(&program(), &accounts, payload("MIT", rating));
        assert_eq!(r.err(), Some(ReviewError::InvalidRating));
    }
}

#[test]
fn second_add_is_rejected() {
    let owner = owner_key();
    let storage = storage_for(&owner, "MIT");
    let data = add_mit(8).data;
    let accounts = add_accounts(&owner, &storage, data.clone(), true);
    let r = add_review(&program(), &accounts, payload("MIT", 3));
    assert_eq!(r.err(), Some(ReviewError::AlreadyInitialized));
    assert_eq!(accounts[1].data, data);
}

#[test]
fn update_on_blank_storage_is_not_initialized() {
    let owner = owner_key();
    let storage = storage_for(&owner, "MIT");
    let accounts = update_accounts(&owner, &storage, &program(), zeroed(RECORD_SPACE));
    let r = update_review(&program(), &accounts, payload("MIT", 5));
    assert_eq!(r.err(), Some(ReviewError::NotInitialized));
}

#[test]
fn update_on_foreign_storage_is_illegal_owner() {
    let owner = owner_key();
    let storage = storage_for(&owner, "MIT");
    let accounts = update_accounts(&owner, &storage, &Address::new([9u8; 32]), vec![0xff; 3]);
    let r = update_review(&program(), &accounts, payload("MIT", 0));
    assert_eq!(r.err(), Some(ReviewError::IllegalOwner));
}

#[test]
fn renaming_institution_keeps_address() {
    let owner = owner_key();
    let storage = storage_for(&owner, "MIT");
    let data = add_mit(8).data;
    let accounts = update_accounts(&owner, &storage, &program(), data);
    let c = update_review(&program(), &accounts, payload("Stanford", 9)).unwrap();
    let rec = load(&c.data).unwrap();
    assert_eq!(rec.review.from_institution, "Stanford");
    assert_eq!(rec.review.rating, 9);
    let elsewhere = storage_for(&owner, "Stanford");
    assert_ne!(elsewhere.bytes, storage.bytes);
    // a later update still finds the record through the new stored name only
    let again = update_accounts(&owner, &storage, &program(), c.data.clone());
    assert_eq!(update_review(&program(), &again, payload("MIT", 4)).err(), Some(ReviewError::InvalidAddress));
}

#[test]
fn add_requires_signature() {
    let owner = owner_key();
    let storage = storage_for(&owner, "MIT");
    let r = add_review(&program(), &add_accounts(&owner, &storage, Vec::new(), false), payload("MIT", 5));
    assert_eq!(r.err(), Some(ReviewError::MissingSignature));
}

#[test]
fn update_requires_signature() {
    let owner = owner_key();
    let storage = storage_for(&owner, "MIT");
    let mut accounts = update_accounts(&owner, &storage, &program(), add_mit(5).data);
    accounts[0].is_signer = false;
    let r = update_review(&program(), &accounts, payload("MIT", 5));
    assert_eq!(r.err(), Some(ReviewError::MissingSignature));
}

#[test]
fn add_rejects_wrong_address() {
    let owner = owner_key();
    let storage = storage_for(&owner, "Stanford");
    let r = add_review(&program(), &add_accounts(&owner, &storage, Vec::new(), true), payload("MIT", 5));
    assert_eq!(r.err(), Some(ReviewError::InvalidAddress));
}

#[test]
fn too_few_accounts() {
    let owner = owner_key();
    let storage = storage_for(&owner, "MIT");
    let mut accounts = add_accounts(&owner, &storage, Vec::new(), true);
    accounts.pop();
    assert_eq!(add_review(&program(), &accounts, payload("MIT", 5)).err(), Some(ReviewError::NotEnoughAccounts));
    accounts.pop();
    assert_eq!(update_review(&program(), &accounts, payload("MIT", 5)).err(), Some(ReviewError::NotEnoughAccounts));
}

#[test]
fn unreadable_storage_is_invalid_account_data() {
    let owner = owner_key();
    let storage = storage_for(&owner, "MIT");
    let accounts = add_accounts(&owner, &storage, vec![7u8; 10], true);
    assert_eq!(add_review(&program(), &accounts, payload("MIT", 5)).err(), Some(ReviewError::InvalidAccountData));
    let accounts = update_accounts(&owner, &storage, &program(), vec![1u8, 0, 0]);
    assert_eq!(update_review(&program(), &accounts, payload("MIT", 5)).err(), Some(ReviewError::InvalidAccountData));
}

#[test]
fn oversized_record_overflows() {
    let owner = owner_key();
    let storage = storage_for(&owner, "MIT");
    let mut p = payload("MIT", 5);
    p.description = "x".repeat(1000);
    let r = add_review(&program(), &add_accounts(&owner, &storage, Vec::new(), true), p);
    assert_eq!(r.err(), Some(ReviewError::SerializationOverflow));
}

#[test]
fn persist_writes_front_and_keeps_tail() {
    let rec = ReviewRecord { is_initialized: true, review: empty_payload() };
    let mut data = vec![5u8; 80];
    persist(&rec, &mut data).unwrap();
    assert_eq!(data[0], 1);
    assert!(data[1..74].iter().all(|b| *b == 0));
    assert!(data[74..].iter().all(|b| *b == 5));
    let mut small = vec![5u8; 73];
    assert_eq!(persist(&rec, &mut small).err(), Some(ReviewError::SerializationOverflow));
    assert_eq!(small, vec![5u8; 73]);
}

#[test]
fn process_dispatches_on_tag() {
    let owner = owner_key();
    let storage = storage_for(&owner, "MIT");
    let bytes = ReviewInstruction::AddReview(payload("MIT", 8)).pack();
    let c = process_instruction(&program(), &add_accounts(&owner, &storage, Vec::new(), true), &bytes).unwrap();
    assert!(c.allocation.is_some());
    let bytes = ReviewInstruction::UpdateReview(payload("MIT", 11)).pack();
    let accounts = update_accounts(&owner, &storage, &program(), c.data.clone());
    assert_eq!(process_instruction(&program(), &accounts, &bytes).err(), Some(ReviewError::InvalidRating));
    assert_eq!(process_instruction(&program(), &accounts, &[3]).err(), Some(ReviewError::DecodeError));
}
