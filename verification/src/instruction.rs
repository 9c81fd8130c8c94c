//! Instruction decoding: the op-code occupies the leading byte, a
//! fixed-width numeric argument (when the op-code expects one) follows at
//! offset 1, and Initialize instead carries a 32-byte identity there.
//! Unknown op-codes and truncated payloads are rejected, never ignored.

use vstd::prelude::*;
use vstd::bytes::{spec_u64_from_le_bytes, u64_from_le_bytes};
use vstd::slice::{slice_subrange, slice_to_vec};
use crate::errors::StakePoolError;
use crate::ids::{Identity, IDENTITY_LEN};

verus! {

/// One decoded operation of the engine.
#[derive(Debug)]
pub enum StakePoolInstruction {
    /// Create the pool with the given receipt-mint identity.
    Initialize { msol_mint: Identity },
    /// Deposit base units and mint receipt units 1:1.
    Stake { amount: u64 },
    /// Burn receipt units and withdraw base units 1:1.
    Unstake { amount: u64 },
    /// Settle accrued interest up to the current time.
    ClaimRewards,
    /// Link the signer's payment card.
    LinkCard { card_id: Vec<u8> },
    /// Mark the signer's card unlinked, keeping the record.
    UnlinkCard,
    /// Draw credit against the signer's staked collateral.
    ProcessBNPL { amount: u64 },
}

/// The mathematical value of a decoded instruction.
#[verifier::ext_equal]
pub ghost enum InstructionModel {
    Initialize { msol_mint: Seq<u8> },
    Stake { amount: u64 },
    Unstake { amount: u64 },
    ClaimRewards,
    LinkCard { card_id: Seq<u8> },
    UnlinkCard,
    ProcessBNPL { amount: u64 },
}

impl View for StakePoolInstruction {
    type V = InstructionModel;

    open spec fn view(&self) -> InstructionModel {
        match self {
            StakePoolInstruction::Initialize { msol_mint } => InstructionModel::Initialize {
                msol_mint: msol_mint@,
            },
            StakePoolInstruction::Stake { amount } => InstructionModel::Stake { amount: *amount },
            StakePoolInstruction::Unstake { amount } => InstructionModel::Unstake {
                amount: *amount,
            },
            StakePoolInstruction::ClaimRewards => InstructionModel::ClaimRewards,
            StakePoolInstruction::LinkCard { card_id } => InstructionModel::LinkCard {
                card_id: card_id@,
            },
            StakePoolInstruction::UnlinkCard => InstructionModel::UnlinkCard,
            StakePoolInstruction::ProcessBNPL { amount } => InstructionModel::ProcessBNPL {
                amount: *amount,
            },
        }
    }
}

/// What decoding an instruction byte string yields: the op-code is the
/// leading byte; amounts are the eight bytes after it, little-endian; the
/// Initialize identity is the 32 bytes after it; the card identifier is
/// everything after it.
pub open spec fn spec_decode_instruction(data: Seq<u8>) -> Result<
    InstructionModel,
    StakePoolError,
> {
    if data.len() == 0 {
        Err(StakePoolError::InvalidInstructionData)
    } else if data[0] == 0 {
        if data.len() >= 1 + IDENTITY_LEN {
            Ok(InstructionModel::Initialize { msol_mint: data.subrange(1, 1 + IDENTITY_LEN) })
        } else {
            Err(StakePoolError::InvalidInstructionData)
        }
    } else if data[0] == 1 {
        if data.len() >= 9 {
            Ok(InstructionModel::Stake { amount: spec_u64_from_le_bytes(data.subrange(1, 9)) })
        } else {
            Err(StakePoolError::InvalidInstructionData)
        }
    } else if data[0] == 2 {
        if data.len() >= 9 {
            Ok(InstructionModel::Unstake { amount: spec_u64_from_le_bytes(data.subrange(1, 9)) })
        } else {
            Err(StakePoolError::InvalidInstructionData)
        }
    } else if data[0] == 3 {
        Ok(InstructionModel::ClaimRewards)
    } else if data[0] == 4 {
        Ok(InstructionModel::LinkCard { card_id: data.subrange(1, data.len() as int) })
    } else if data[0] == 5 {
        Ok(InstructionModel::UnlinkCard)
    } else if data[0] == 6 {
        if data.len() >= 9 {
            Ok(InstructionModel::ProcessBNPL {
                amount: spec_u64_from_le_bytes(data.subrange(1, 9)),
            })
        } else {
            Err(StakePoolError::InvalidInstructionData)
        }
    } else {
        Err(StakePoolError::InvalidInstructionData)
    }
}

/// Decodes an instruction byte string.
pub fn decode_instruction(data: &[u8]) -> (r: Result<StakePoolInstruction, StakePoolError>)
    ensures
        match r {
            Ok(instr) => spec_decode_instruction(data@) == Ok::<_, StakePoolError>(instr@)
                && (instr@ matches InstructionModel::Initialize { msol_mint }
                    ==> msol_mint.len() == IDENTITY_LEN),
            Err(e) => spec_decode_instruction(data@) == Err::<InstructionModel, _>(e),
        },
{
    if data.len() == 0 {
        return Err(StakePoolError::InvalidInstructionData);
    }
    let op = *vstd::slice::slice_index_get(data, 0);
    if op == 0 {
        if data.len() >= 1 + IDENTITY_LEN {
            let bytes = slice_to_vec(slice_subrange(data, 1, 1 + IDENTITY_LEN));
            Ok(StakePoolInstruction::Initialize { msol_mint: Identity { bytes } })
        } else {
            Err(StakePoolError::InvalidInstructionData)
        }
    } else if op == 1 {
        if data.len() >= 9 {
            let amount = u64_from_le_bytes(slice_subrange(data, 1, 9));
            Ok(StakePoolInstruction::Stake { amount })
        } else {
            Err(StakePoolError::InvalidInstructionData)
        }
    } else if op == 2 {
        if data.len() >= 9 {
            let amount = u64_from_le_bytes(slice_subrange(data, 1, 9));
            Ok(StakePoolInstruction::Unstake { amount })
        } else {
            Err(StakePoolError::InvalidInstructionData)
        }
    } else if op == 3 {
        Ok(StakePoolInstruction::ClaimRewards)
    } else if op == 4 {
        let card_id = slice_to_vec(slice_subrange(data, 1, data.len()));
        Ok(StakePoolInstruction::LinkCard { card_id })
    } else if op == 5 {
        Ok(StakePoolInstruction::UnlinkCard)
    } else if op == 6 {
        if data.len() >= 9 {
            let amount = u64_from_le_bytes(slice_subrange(data, 1, 9));
            Ok(StakePoolInstruction::ProcessBNPL { amount })
        } else {
            Err(StakePoolError::InvalidInstructionData)
        }
    } else {
        Err(StakePoolError::InvalidInstructionData)
    }
}

} // verus!
