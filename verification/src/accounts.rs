//! Per-instruction account schemas. Each operation names the accounts it
//! requires as a typed struct, never an ambient positional list; the host
//! fills these from the request before handing them to the engine.

use vstd::prelude::*;
use crate::ids::Identity;

verus! {

/// What the engine needs to know of one host account: its address, its
/// declared owner, and whether it signed the current request.
#[derive(Clone, Debug)]
pub struct AccountMeta {
    pub key: Identity,
    pub owner: Identity,
    pub is_signer: bool,
}

/// The mathematical value of an account reference.
#[verifier::ext_equal]
pub ghost struct MetaModel {
    pub key: Seq<u8>,
    pub owner: Seq<u8>,
    pub is_signer: bool,
}

impl View for AccountMeta {
    type V = MetaModel;

    open spec fn view(&self) -> MetaModel {
        MetaModel { key: self.key@, owner: self.owner@, is_signer: self.is_signer }
    }
}

impl AccountMeta {
    /// A well-formed account reference carries 32-byte identities.
    pub open spec fn wf(&self) -> bool {
        self.key.wf() && self.owner.wf()
    }
}

/// Accounts for creating the pool.
#[derive(Clone, Debug)]
pub struct Initialize {
    pub stake_pool: AccountMeta,
    pub authority: AccountMeta,
}

/// Accounts for a deposit.
#[derive(Clone, Debug)]
pub struct Stake {
    pub stake_pool: AccountMeta,
    pub user: AccountMeta,
    pub msol_mint: AccountMeta,
    pub user_msol: AccountMeta,
    pub pool_msol: AccountMeta,
}

/// Accounts for a withdrawal.
#[derive(Clone, Debug)]
pub struct Unstake {
    pub stake_pool: AccountMeta,
    pub user: AccountMeta,
    pub msol_mint: AccountMeta,
    pub user_msol: AccountMeta,
}

/// Accounts for settling rewards.
#[derive(Clone, Debug)]
pub struct ClaimRewards {
    pub stake_pool: AccountMeta,
    pub user: AccountMeta,
}

/// Accounts for linking a card.
#[derive(Clone, Debug)]
pub struct LinkCard {
    pub stake_pool: AccountMeta,
    pub user: AccountMeta,
}

/// Accounts for unlinking a card.
#[derive(Clone, Debug)]
pub struct UnlinkCard {
    pub stake_pool: AccountMeta,
    pub user: AccountMeta,
}

/// Accounts for a credit draw-down.
#[derive(Clone, Debug)]
pub struct ProcessBNPL {
    pub stake_pool: AccountMeta,
    pub user: AccountMeta,
}

} // verus!
