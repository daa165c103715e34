use solana_program::pubkey::Pubkey;
use vstd::prelude::*;

verus! {

/// First seed of every record address: the bytes of "token_info".
pub const INFO_SEED: [u8; 10] = [116, 111, 107, 101, 110, 95, 105, 110, 102, 111];

/// The address and bump that the ledger's derivation rule gives for the seeds
/// `[seed, mint]` under a program; none where no bump gives an address off the curve.
pub uninterp spec fn program_address_of(seed: Seq<u8>, mint: Seq<u8>, program_id: Seq<u8>) -> Option<(Seq<u8>, u8)>;

/// Base58 text of a 32-byte address.
pub uninterp spec fn base58_of(key: Seq<u8>) -> Seq<char>;

/// Relies on `Pubkey::try_find_program_address` with the seeds `[seed, mint]`: a
/// deterministic search over bump values, `None` when none yields a valid address.
#[verifier::external_body]
fn try_find_program_address(seed: &[u8], mint: &[u8], program_id: &[u8; 32]) -> (r: Option<
    ([u8; 32], u8),
>)
    ensures
        match r {
            Some((a, b)) => program_address_of(seed@, mint@, program_id@) == Some((a@, b)),
            None => program_address_of(seed@, mint@, program_id@) is None,
        },
{
    Pubkey::try_find_program_address(&[seed, mint], &Pubkey::new_from_array(*program_id)).map(
        |(k, b)| (k.to_bytes(), b),
    )
}

/// Relies on `Pubkey`'s `Display`: the base58 text of the 32 bytes.
#[verifier::external_body]
pub(crate) fn key_text(key: &[u8; 32]) -> (r: String)
    ensures
        r@ == base58_of(key@),
{
    Pubkey::new_from_array(*key).to_string()
}

/// The record address of a token and its bump, derived from the fixed seed, the
/// token's address and the program's identity.
pub fn find_info_account(mint: &[u8; 32], program_id: &[u8; 32]) -> (r: Option<([u8; 32], u8)>)
    ensures
        match r {
            Some((a, b)) => program_address_of(INFO_SEED@, mint@, program_id@) == Some((a@, b)),
            None => program_address_of(INFO_SEED@, mint@, program_id@) is None,
        },
{
    let seed: [u8; 10] = INFO_SEED;
    try_find_program_address(seed.as_slice(), mint.as_slice(), program_id)
}

/// Whether two addresses are the same.
pub fn same_key(a: &[u8; 32], b: &[u8; 32]) -> (r: bool)
    ensures
        r == (a@ == b@),
{
    let mut i: usize = 0;
    while i < 32
        invariant
            i <= 32,
            a@.len() == 32,
            b@.len() == 32,
            forall|j: int| 0 <= j < i ==> a@[j] == b@[j],
        decreases 32 - i,
    {
        if a[i] != b[i] {
            return false;
        }
        i = i + 1;
    }
    assert(a@ =~= b@);
    true
}

} // verus!
