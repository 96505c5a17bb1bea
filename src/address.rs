//! Storage addresses, derived from an owner key, a seed and the program's key.
use solana_program::pubkey::Pubkey;
use vstd::prelude::*;

verus! {

/// A 32-byte account key.
pub struct Address {
    pub bytes: [u8; 32],
}

/// The address and bump that derivation finds for the owner key, the seed and
/// the program key, or `None` where none is found.
pub uninterp spec fn program_address_of(owner: Seq<u8>, seed: Seq<u8>, program: Seq<u8>) -> Option<(Seq<u8>, u8)>;

/// Whether `derived` found an address and it is `addr`.
pub open spec fn locates(derived: Option<(Seq<u8>, u8)>, addr: Seq<u8>) -> bool {
    derived matches Some((a, _)) && a == addr
}

impl Address {
    pub fn new(bytes: [u8; 32]) -> (r: Address)
        ensures
            r.bytes@ == bytes@,
    {
        Address { bytes }
    }

    /// Whether two keys hold the same bytes.
    pub fn same(&self, other: &Address) -> (r: bool)
        ensures
            r == (self.bytes@ == other.bytes@),
    {
        let mut i: usize = 0;
        while i < 32
            invariant
                i <= 32,
                self.bytes@.len() == 32,
                other.bytes@.len() == 32,
                forall|j: int| 0 <= j < i ==> self.bytes@[j] == other.bytes@[j],
            decreases 32 - i,
        {
            if self.bytes[i] != other.bytes[i] {
                return false;
            }
            i = i + 1;
        }
        assert(self.bytes@ =~= other.bytes@);
        true
    }

    pub fn copy(&self) -> (r: Address)
        ensures
            r.bytes@ == self.bytes@,
    {
        Address { bytes: self.bytes }
    }
}

/// Relies on solana_program's `Pubkey::try_find_program_address` with the seeds
/// `[owner, seed]`: it tries bumps from 255 down and returns the first address
/// off the curve, or `None`; the outcome depends on its arguments alone.
#[verifier::external_body]
fn try_find_program_address(owner: &Address, seed: &[u8], program_id: &Address) -> (r: Option<(Address, u8)>)
    ensures
        match r {
            Some((a, bump)) => program_address_of(owner.bytes@, seed@, program_id.bytes@)
                == Some((a.bytes@, bump)),
            None => program_address_of(owner.bytes@, seed@, program_id.bytes@) is None,
        },
{
    let program = Pubkey::new_from_array(program_id.bytes);
    Pubkey::try_find_program_address(&[&owner.bytes, seed], &program)
        .map(|(key, bump)| (Address { bytes: key.to_bytes() }, bump))
}

/// The storage address, with its bump, for an owner key and a seed.
pub fn derive_address(owner: &Address, seed: &[u8], program_id: &Address) -> (r: Option<(Address, u8)>)
    ensures
        match r {
            Some((a, bump)) => program_address_of(owner.bytes@, seed@, program_id.bytes@)
                == Some((a.bytes@, bump)),
            None => program_address_of(owner.bytes@, seed@, program_id.bytes@) is None,
        },
{
    try_find_program_address(owner, seed, program_id)
}

/// Whether `addr` is the storage address for the owner key and the seed.
pub fn verify_address(addr: &Address, owner: &Address, seed: &[u8], program_id: &Address) -> (r: bool)
    ensures
        r == locates(program_address_of(owner.bytes@, seed@, program_id.bytes@), addr.bytes@),
{
    match derive_address(owner, seed, program_id) {
        Some((a, _)) => a.same(addr),
        None => false,
    }
}

/// Derivation depends on its inputs alone: two derivations from equal
/// inputs give the same address and bump.
pub proof fn lemma_derivation_deterministic(
    owner1: Seq<u8>,
    seed1: Seq<u8>,
    program1: Seq<u8>,
    owner2: Seq<u8>,
    seed2: Seq<u8>,
    program2: Seq<u8>,
)
    requires
        owner1 == owner2,
        seed1 == seed2,
        program1 == program2,
    ensures
        program_address_of(owner1, seed1, program1) == program_address_of(owner2, seed2, program2),
{
}

} // verus!
