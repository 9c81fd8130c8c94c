//! The access and identity guard: the pool account must be the
//! deterministically derived singleton address and be owned by this
//! program, and required signers must actually have signed.

use vstd::prelude::*;
use crate::accounts::AccountMeta;
use crate::errors::StakePoolError;
use crate::ids::Identity;

verus! {

/// The derived pool address and bump for a program identity, as computed
/// by the host's program-derived-address scheme over the fixed label
/// `"stake_pool"`; `None` in the statistically improbable case that no
/// bump yields a valid address.
pub uninterp spec fn pool_derived_address(program_id: Seq<u8>) -> Option<(Seq<u8>, u8)>;

/// Relies on solana_program's `Pubkey::try_find_program_address` with the
/// single seed `b"stake_pool"`: a deterministic function of the program
/// identity alone, returning a 32-byte derived address and its bump seed,
/// or `None` when no bump produces a valid address.
#[verifier::external_body]
fn derive_pool_address(program_id: &Identity) -> (r: Option<(Identity, u8)>)
    requires
        program_id.wf(),
    ensures
        match r {
            Some(p) => pool_derived_address(program_id@) == Some((p.0@, p.1)) && p.0.wf(),
            None => pool_derived_address(program_id@) is None,
        },
{
    let arr: [u8; 32] = match program_id.bytes.as_slice().try_into() {
        Ok(a) => a,
        Err(_) => return None,
    };
    let pk = solana_program::pubkey::Pubkey::new_from_array(arr);
    solana_program::pubkey::Pubkey::try_find_program_address(&[b"stake_pool"], &pk)
        .map(|(addr, bump)| (Identity { bytes: addr.to_bytes().to_vec() }, bump))
}

/// Finds the derived singleton pool address for a program identity.
pub fn find_stake_pool_address(program_id: &Identity) -> (r: Option<(Identity, u8)>)
    requires
        program_id.wf(),
    ensures
        match r {
            Some(p) => pool_derived_address(program_id@) == Some((p.0@, p.1)) && p.0.wf(),
            None => pool_derived_address(program_id@) is None,
        },
{
    derive_pool_address(program_id)
}

/// What verifying the pool account yields: the address must match the
/// derived singleton, then the owner must be this program.
pub open spec fn spec_verify_pool_account(
    pool_key: Seq<u8>,
    pool_owner: Seq<u8>,
    program_id: Seq<u8>,
) -> Result<(), StakePoolError> {
    if pool_derived_address(program_id) is None
        || pool_key != pool_derived_address(program_id)->Some_0.0 {
        Err(StakePoolError::AddressMismatch)
    } else if pool_owner != program_id {
        Err(StakePoolError::OwnershipMismatch)
    } else {
        Ok(())
    }
}

/// Rejects any account standing in for the singleton pool whose address
/// is not the derived one or whose owner is not this program.
pub fn verify_pool_account(pool_account: &AccountMeta, program_id: &Identity) -> (r: Result<
    (),
    StakePoolError,
>)
    requires
        pool_account.wf(),
        program_id.wf(),
    ensures
        r == spec_verify_pool_account(pool_account.key@, pool_account.owner@, program_id@),
{
    match derive_pool_address(program_id) {
        None => Err(StakePoolError::AddressMismatch),
        Some(expected) => {
            if !pool_account.key.eq(&expected.0) {
                Err(StakePoolError::AddressMismatch)
            } else if !pool_account.owner.eq(program_id) {
                Err(StakePoolError::OwnershipMismatch)
            } else {
                Ok(())
            }
        },
    }
}

/// Whether a stored pool buffer already holds an initialized record: a
/// fresh record carries the all-zero placeholder in both identity fields,
/// and a successful creation binds at least one of them to a real
/// identity, so any non-zero byte in either region marks the singleton as
/// created.
pub open spec fn spec_pool_initialized(s: Seq<u8>) -> bool {
    s.len() >= 96 && exists|i: int| 32 <= i < 96 && s[i] != 0
}

/// Reads the lifecycle flag off a stored pool buffer: the pool record is
/// created exactly once, and this is how the guard sees that it was.
pub fn pool_record_initialized(data: &Vec<u8>) -> (r: bool)
    ensures
        r == spec_pool_initialized(data@),
{
    if data.len() < 96 {
        return false;
    }
    let mut i: usize = 32;
    while i < 96
        invariant
            32 <= i <= 96,
            data@.len() >= 96,
            forall|j: int| 32 <= j < i ==> data@[j] == 0,
        decreases 96 - i,
    {
        if data[i] != 0 {
            return true;
        }
        i = i + 1;
    }
    false
}

/// What requiring a signature yields.
pub open spec fn spec_verify_signer(is_signer: bool) -> Result<(), StakePoolError> {
    if is_signer {
        Ok(())
    } else {
        Err(StakePoolError::MissingSignature)
    }
}

/// Rejects an operation whose required signer did not sign the request.
pub fn verify_signer(account: &AccountMeta) -> (r: Result<(), StakePoolError>)
    ensures
        r == spec_verify_signer(account.is_signer),
{
    if account.is_signer {
        Ok(())
    } else {
        Err(StakePoolError::MissingSignature)
    }
}

} // verus!
