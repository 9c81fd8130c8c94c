//! The four state-mutating protocols and the card protocols, each a pure
//! transition from (current state, request) to (next state, side-effect
//! requests), plus the instruction dispatcher that composes them with the
//! codec. The host performs the requested transfers and persists the new
//! record atomically, or discards everything on an error.

use vstd::prelude::*;
use crate::accounts::{MetaModel, Initialize, Stake, Unstake, ClaimRewards,
    LinkCard, UnlinkCard, ProcessBNPL};
use crate::cards::{CardStatus, CardInfo, CardModel, CardEntryModel, cards_lookup, cards_insert, find_key_idx,
    card_map_insert, card_map_find, entries_view, lemma_cards_insert_sorted,
    lemma_cards_insert_lookup, lemma_find_key_idx};
use crate::errors::StakePoolError;
use crate::guard::{spec_verify_pool_account, verify_pool_account, verify_signer};
use crate::ids::Identity;
use crate::pool::{StakePool, PoolModel, UserStake, UserStakeModel, CARDS_CAPACITY,
    CARD_ENTRY_OVERHEAD, entry_encoded_len, cards_encoded_len, cards_region_size,
    lemma_cards_encoded_len_update, lemma_cards_encoded_len_insert};
use crate::rewards::{spec_calculate_rewards, calculate_rewards};
use crate::instruction::{StakePoolInstruction, InstructionModel, spec_decode_instruction,
    decode_instruction};
use crate::codec::{pool_encoded, spec_pool_decoded};
use crate::pool::POOL_RECORD_LEN;

verus! {

/// A side effect the engine asks the host to perform. Each request either
/// succeeds atomically or aborts the whole operation.
#[derive(Clone, Debug)]
pub enum PoolEffect {
    /// Move base units between two host accounts.
    TransferLamports { from: Identity, to: Identity, amount: u64 },
    /// Mint receipt units to a token account, under the pool's authority.
    MintReceipt { mint: Identity, to: Identity, authority: Identity, amount: u64 },
    /// Burn receipt units from a token account, under the holder's
    /// authority.
    BurnReceipt { mint: Identity, from: Identity, authority: Identity, amount: u64 },
}

/// The mathematical value of a side-effect request.
#[verifier::ext_equal]
pub ghost enum EffectModel {
    TransferLamports { from: Seq<u8>, to: Seq<u8>, amount: u64 },
    MintReceipt { mint: Seq<u8>, to: Seq<u8>, authority: Seq<u8>, amount: u64 },
    BurnReceipt { mint: Seq<u8>, from: Seq<u8>, authority: Seq<u8>, amount: u64 },
}

impl View for PoolEffect {
    type V = EffectModel;

    open spec fn view(&self) -> EffectModel {
        match self {
            PoolEffect::TransferLamports { from, to, amount } => EffectModel::TransferLamports {
                from: from@,
                to: to@,
                amount: *amount,
            },
            PoolEffect::MintReceipt { mint, to, authority, amount } => EffectModel::MintReceipt {
                mint: mint@,
                to: to@,
                authority: authority@,
                amount: *amount,
            },
            PoolEffect::BurnReceipt { mint, from, authority, amount } => EffectModel::BurnReceipt {
                mint: mint@,
                from: from@,
                authority: authority@,
                amount: *amount,
            },
        }
    }
}

/// The effect requests of a slice of effects.
pub open spec fn effects_view(v: Seq<PoolEffect>) -> Seq<EffectModel> {
    v.map_values(|e: PoolEffect| e@)
}

/// What creating the pool yields: the account and signature checks, then
/// the creation-once rule — the singleton is never created over an
/// already initialized record — then a fresh record bound to the signing
/// authority and the given mint.
pub open spec fn spec_process_initialize(
    program_id: Seq<u8>,
    pool_acct: MetaModel,
    authority_acct: MetaModel,
    msol_mint: Seq<u8>,
    initialized: bool,
) -> Result<PoolModel, StakePoolError> {
    if spec_verify_pool_account(pool_acct.key, pool_acct.owner, program_id) is Err {
        Err(spec_verify_pool_account(pool_acct.key, pool_acct.owner, program_id)->Err_0)
    } else if !authority_acct.is_signer {
        Err(StakePoolError::MissingSignature)
    } else if initialized {
        Err(StakePoolError::AlreadyInitialized)
    } else {
        Ok(
            PoolModel {
                authority: authority_acct.key,
                msol_mint: msol_mint,
                ..crate::pool::initial_pool()
            },
        )
    }
}

/// Creates the pool record, binding it to the signing authority and the
/// receipt mint; `initialized` reports whether the target account already
/// holds a record, and creation over one is rejected.
pub fn process_initialize(
    program_id: &Identity,
    accounts: &Initialize,
    msol_mint: Identity,
    initialized: bool,
) -> (r: Result<StakePool, StakePoolError>)
    requires
        program_id.wf(),
        accounts.stake_pool.wf(),
        accounts.authority.wf(),
        msol_mint.wf(),
    ensures
        match r {
            Ok(p) => spec_process_initialize(program_id@, accounts.stake_pool@,
                accounts.authority@, msol_mint@, initialized) == Ok::<_, StakePoolError>(p@)
                && p.wf(),
            Err(e) => spec_process_initialize(program_id@, accounts.stake_pool@,
                accounts.authority@, msol_mint@, initialized) == Err::<PoolModel, _>(e),
        },
{
    if let Err(e) = verify_pool_account(&accounts.stake_pool, program_id) {
        return Err(e);
    }
    if let Err(e) = verify_signer(&accounts.authority) {
        return Err(e);
    }
    if initialized {
        return Err(StakePoolError::AlreadyInitialized);
    }
    let mut pool = StakePool::new();
    pool.authority = accounts.authority.key.dup();
    pool.msol_mint = msol_mint;
    proof {
        assert(pool@ =~= spec_process_initialize(program_id@, accounts.stake_pool@,
            accounts.authority@, msol_mint@, initialized)->Ok_0);
    }
    Ok(pool)
}

/// What a deposit yields: after the account and signature checks, a
/// non-zero amount is moved from the depositor to the pool, the same
/// amount of receipt units is minted to the depositor, and all three
/// running totals grow by the amount under checked arithmetic.
pub open spec fn spec_process_stake(
    program_id: Seq<u8>,
    pool_acct: MetaModel,
    user_acct: MetaModel,
    mint_acct: MetaModel,
    user_msol: Seq<u8>,
    p: PoolModel,
    u: UserStakeModel,
    amount: u64,
) -> Result<(PoolModel, UserStakeModel, Seq<EffectModel>), StakePoolError> {
    if spec_verify_pool_account(pool_acct.key, pool_acct.owner, program_id) is Err {
        Err(spec_verify_pool_account(pool_acct.key, pool_acct.owner, program_id)->Err_0)
    } else if !user_acct.is_signer {
        Err(StakePoolError::MissingSignature)
    } else if amount == 0 {
        Err(StakePoolError::InvalidInstructionData)
    } else if mint_acct.key != p.msol_mint {
        Err(StakePoolError::AddressMismatch)
    } else if p.total_staked + amount > u64::MAX || p.total_msol + amount > u64::MAX
        || u.amount + amount > u64::MAX {
        Err(StakePoolError::ArithmeticOverflow)
    } else {
        Ok(
            (
                PoolModel {
                    total_staked: (p.total_staked + amount) as u64,
                    total_msol: (p.total_msol + amount) as u64,
                    ..p
                },
                UserStakeModel { amount: (u.amount + amount) as u64, ..u },
                seq![
                    EffectModel::TransferLamports {
                        from: user_acct.key,
                        to: pool_acct.key,
                        amount,
                    },
                    EffectModel::MintReceipt {
                        mint: mint_acct.key,
                        to: user_msol,
                        authority: pool_acct.key,
                        amount,
                    },
                ],
            ),
        )
    }
}

/// The result of a successful deposit or withdrawal.
#[derive(Debug)]
pub struct StakeOutcome {
    /// The pool record after the operation.
    pub pool: StakePool,
    /// The depositor's stake record after the operation.
    pub user_stake: UserStake,
    /// The transfers the host must perform, in order.
    pub effects: Vec<PoolEffect>,
}

/// Deposits `amount` base units: requests the transfer in, requests the
/// 1:1 receipt mint, and grows the running totals.
pub fn process_stake(
    program_id: &Identity,
    accounts: &Stake,
    pool: StakePool,
    user_stake: Option<UserStake>,
    amount: u64,
) -> (r: Result<StakeOutcome, StakePoolError>)
    requires
        program_id.wf(),
        accounts.stake_pool.wf(),
        accounts.user.wf(),
        accounts.msol_mint.wf(),
        accounts.user_msol.wf(),
        pool.wf(),
        user_stake is Some ==> user_stake->Some_0@.user == accounts.user.key@,
    ensures
        ({
            let u0 = if user_stake is Some {
                user_stake->Some_0@
            } else {
                UserStakeModel { user: accounts.user.key@, amount: 0, debt: 0 }
            };
            let t = spec_process_stake(program_id@, accounts.stake_pool@, accounts.user@,
                accounts.msol_mint@, accounts.user_msol.key@, pool@, u0, amount);
            match r {
                Ok(out) => t == Ok::<_, StakePoolError>(
                    (out.pool@, out.user_stake@, effects_view(out.effects@)),
                ) && out.pool.wf(),
                Err(e) => t == Err::<(PoolModel, UserStakeModel, Seq<EffectModel>), _>(e),
            }
        }),
{
    let ghost p0 = pool@;
    let ghost u0 = if user_stake is Some {
        user_stake->Some_0@
    } else {
        UserStakeModel { user: accounts.user.key@, amount: 0, debt: 0 }
    };
    if let Err(e) = verify_pool_account(&accounts.stake_pool, program_id) {
        return Err(e);
    }
    if let Err(e) = verify_signer(&accounts.user) {
        return Err(e);
    }
    if amount == 0 {
        return Err(StakePoolError::InvalidInstructionData);
    }
    if !accounts.msol_mint.key.eq(&pool.msol_mint) {
        return Err(StakePoolError::AddressMismatch);
    }
    let user_record = if user_stake.is_some() {
        user_stake.unwrap()
    } else {
        UserStake::new(accounts.user.key.dup())
    };
    let total_staked = match pool.total_staked.checked_add(amount) {
        Some(v) => v,
        None => return Err(StakePoolError::ArithmeticOverflow),
    };
    let total_msol = match pool.total_msol.checked_add(amount) {
        Some(v) => v,
        None => return Err(StakePoolError::ArithmeticOverflow),
    };
    let user_amount = match user_record.amount.checked_add(amount) {
        Some(v) => v,
        None => return Err(StakePoolError::ArithmeticOverflow),
    };

    let mut new_pool = pool;
    new_pool.total_staked = total_staked;
    new_pool.total_msol = total_msol;
    let mut new_user = user_record;
    new_user.amount = user_amount;
    let effects: Vec<PoolEffect> = vec![
        PoolEffect::TransferLamports {
            from: accounts.user.key.dup(),
            to: accounts.stake_pool.key.dup(),
            amount,
        },
        PoolEffect::MintReceipt {
            mint: accounts.msol_mint.key.dup(),
            to: accounts.user_msol.key.dup(),
            authority: accounts.stake_pool.key.dup(),
            amount,
        },
    ];
    proof {
        let t = spec_process_stake(program_id@, accounts.stake_pool@, accounts.user@,
            accounts.msol_mint@, accounts.user_msol.key@, p0, u0, amount);
        assert(u0.amount + amount <= u64::MAX);
        assert(t is Ok);
        assert(new_pool@ =~= t->Ok_0.0);
        assert(new_user@ =~= t->Ok_0.1);
        assert(effects_view(effects@) =~= t->Ok_0.2);
    }
    Ok(StakeOutcome { pool: new_pool, user_stake: new_user, effects })
}

/// What a withdrawal yields: after the checks, an amount no larger than
/// the staked total burns that many receipt units first, then moves the
/// same amount of base units back to the depositor; both pool totals
/// shrink under checked arithmetic.
pub open spec fn spec_process_unstake(
    program_id: Seq<u8>,
    pool_acct: MetaModel,
    user_acct: MetaModel,
    mint_acct: MetaModel,
    user_msol: Seq<u8>,
    p: PoolModel,
    amount: u64,
) -> Result<(PoolModel, Seq<EffectModel>), StakePoolError> {
    if spec_verify_pool_account(pool_acct.key, pool_acct.owner, program_id) is Err {
        Err(spec_verify_pool_account(pool_acct.key, pool_acct.owner, program_id)->Err_0)
    } else if !user_acct.is_signer {
        Err(StakePoolError::MissingSignature)
    } else if mint_acct.key != p.msol_mint {
        Err(StakePoolError::AddressMismatch)
    } else if amount > p.total_staked {
        Err(StakePoolError::InsufficientFunds)
    } else if amount > p.total_msol {
        Err(StakePoolError::ArithmeticUnderflow)
    } else {
        Ok(
            (
                PoolModel {
                    total_staked: (p.total_staked - amount) as u64,
                    total_msol: (p.total_msol - amount) as u64,
                    ..p
                },
                seq![
                    EffectModel::BurnReceipt {
                        mint: mint_acct.key,
                        from: user_msol,
                        authority: user_acct.key,
                        amount,
                    },
                    EffectModel::TransferLamports {
                        from: pool_acct.key,
                        to: user_acct.key,
                        amount,
                    },
                ],
            ),
        )
    }
}

/// Withdraws `amount` base units: requests the receipt burn first, then
/// the transfer back, and shrinks the running totals.
pub fn process_unstake(
    program_id: &Identity,
    accounts: &Unstake,
    pool: StakePool,
    amount: u64,
) -> (r: Result<(StakePool, Vec<PoolEffect>), StakePoolError>)
    requires
        program_id.wf(),
        accounts.stake_pool.wf(),
        accounts.user.wf(),
        accounts.msol_mint.wf(),
        accounts.user_msol.wf(),
        pool.wf(),
    ensures
        ({
            let t = spec_process_unstake(program_id@, accounts.stake_pool@, accounts.user@,
                accounts.msol_mint@, accounts.user_msol.key@, pool@, amount);
            match r {
                Ok(out) => t == Ok::<_, StakePoolError>((out.0@, effects_view(out.1@)))
                    && out.0.wf(),
                Err(e) => t == Err::<(PoolModel, Seq<EffectModel>), _>(e),
            }
        }),
{
    let ghost p0 = pool@;
    if let Err(e) = verify_pool_account(&accounts.stake_pool, program_id) {
        return Err(e);
    }
    if let Err(e) = verify_signer(&accounts.user) {
        return Err(e);
    }
    if !accounts.msol_mint.key.eq(&pool.msol_mint) {
        return Err(StakePoolError::AddressMismatch);
    }
    if amount > pool.total_staked {
        return Err(StakePoolError::InsufficientFunds);
    }
    if amount > pool.total_msol {
        return Err(StakePoolError::ArithmeticUnderflow);
    }
    let staked = pool.total_staked;
    let msol = pool.total_msol;
    let mut new_pool = pool;
    new_pool.total_staked = staked - amount;
    new_pool.total_msol = msol - amount;
    let effects: Vec<PoolEffect> = vec![
        PoolEffect::BurnReceipt {
            mint: accounts.msol_mint.key.dup(),
            from: accounts.user_msol.key.dup(),
            authority: accounts.user.key.dup(),
            amount,
        },
        PoolEffect::TransferLamports {
            from: accounts.stake_pool.key.dup(),
            to: accounts.user.key.dup(),
            amount,
        },
    ];
    proof {
        let t = spec_process_unstake(program_id@, accounts.stake_pool@, accounts.user@,
            accounts.msol_mint@, accounts.user_msol.key@, p0, amount);
        assert(new_pool@ =~= t->Ok_0.0);
        assert(effects_view(effects@) =~= t->Ok_0.1);
    }
    Ok((new_pool, effects))
}

/// What settling rewards yields: after the checks, the elapsed time since
/// the last settlement must be non-negative and representable; the reward
/// follows the accrual formula, is paid from pool reserves when positive,
/// and the settlement time advances to the current time unconditionally,
/// so a repeated claim re-accrues nothing.
pub open spec fn spec_process_claim_rewards(
    program_id: Seq<u8>,
    pool_acct: MetaModel,
    user_acct: MetaModel,
    p: PoolModel,
    now: i64,
) -> Result<(PoolModel, u64, Seq<EffectModel>), StakePoolError> {
    if spec_verify_pool_account(pool_acct.key, pool_acct.owner, program_id) is Err {
        Err(spec_verify_pool_account(pool_acct.key, pool_acct.owner, program_id)->Err_0)
    } else if !user_acct.is_signer {
        Err(StakePoolError::MissingSignature)
    } else if now < p.last_update_time {
        Err(StakePoolError::ClockRegression)
    } else if now - p.last_update_time > i64::MAX {
        Err(StakePoolError::ArithmeticOverflow)
    } else {
        match spec_calculate_rewards(p.total_staked, (now - p.last_update_time) as i64,
            p.reward_rate) {
            Err(e) => Err(e),
            Ok(reward) => Ok(
                (
                    PoolModel { last_update_time: now, ..p },
                    reward,
                    if reward > 0 {
                        seq![
                            EffectModel::TransferLamports {
                                from: pool_acct.key,
                                to: user_acct.key,
                                amount: reward,
                            },
                        ]
                    } else {
                        Seq::empty()
                    },
                ),
            ),
        }
    }
}

/// Settles accrued interest up to `now`, paying it from pool reserves.
pub fn process_claim_rewards(
    program_id: &Identity,
    accounts: &ClaimRewards,
    pool: StakePool,
    now: i64,
) -> (r: Result<(StakePool, u64, Vec<PoolEffect>), StakePoolError>)
    requires
        program_id.wf(),
        accounts.stake_pool.wf(),
        accounts.user.wf(),
        pool.wf(),
    ensures
        ({
            let t = spec_process_claim_rewards(program_id@, accounts.stake_pool@, accounts.user@,
                pool@, now);
            match r {
                Ok(out) => t == Ok::<_, StakePoolError>((out.0@, out.1, effects_view(out.2@)))
                    && out.0.wf(),
                Err(e) => t == Err::<(PoolModel, u64, Seq<EffectModel>), _>(e),
            }
        }),
{
    let ghost p0 = pool@;
    if let Err(e) = verify_pool_account(&accounts.stake_pool, program_id) {
        return Err(e);
    }
    if let Err(e) = verify_signer(&accounts.user) {
        return Err(e);
    }
    if now < pool.last_update_time {
        return Err(StakePoolError::ClockRegression);
    }
    let elapsed = match now.checked_sub(pool.last_update_time) {
        Some(v) => v,
        None => return Err(StakePoolError::ArithmeticOverflow),
    };
    let reward = match calculate_rewards(pool.total_staked, elapsed, pool.reward_rate) {
        Ok(v) => v,
        Err(e) => return Err(e),
    };
    let mut new_pool = pool;
    new_pool.last_update_time = now;
    let mut effects: Vec<PoolEffect> = Vec::new();
    if reward > 0 {
        effects.push(
            PoolEffect::TransferLamports {
                from: accounts.stake_pool.key.dup(),
                to: accounts.user.key.dup(),
                amount: reward,
            },
        );
    }
    proof {
        let t = spec_process_claim_rewards(program_id@, accounts.stake_pool@, accounts.user@,
            p0, now);
        assert(new_pool@ =~= t->Ok_0.0);
        assert(effects_view(effects@) =~= t->Ok_0.2);
    }
    Ok((new_pool, reward, effects))
}


/// What linking a card yields: after the checks, a depositor with a
/// non-zero stake gets a `Linked` record under their identity, stamped
/// with the current time; the registry must still fit its reserved
/// region, and re-linking reuses the depositor's slot.
pub open spec fn spec_process_link_card(
    program_id: Seq<u8>,
    pool_acct: MetaModel,
    user_acct: MetaModel,
    p: PoolModel,
    u: Option<UserStakeModel>,
    card_id: Seq<u8>,
    now: i64,
) -> Result<PoolModel, StakePoolError> {
    if spec_verify_pool_account(pool_acct.key, pool_acct.owner, program_id) is Err {
        Err(spec_verify_pool_account(pool_acct.key, pool_acct.owner, program_id)->Err_0)
    } else if !user_acct.is_signer {
        Err(StakePoolError::MissingSignature)
    } else if u is None || u->Some_0.amount == 0 {
        Err(StakePoolError::NoStakeFound)
    } else {
        let new_cards = cards_insert(p.linked_cards, user_acct.key,
            CardModel { card_id, status: CardStatus::Linked, linked_at: now });
        if cards_encoded_len(new_cards) > CARDS_CAPACITY {
            Err(StakePoolError::BufferTooSmall)
        } else {
            Ok(PoolModel { linked_cards: new_cards, ..p })
        }
    }
}

/// Links the signing depositor's card, requiring a non-zero stake and
/// room in the registry's reserved region.
pub fn process_link_card(
    program_id: &Identity,
    accounts: &LinkCard,
    pool: StakePool,
    user_stake: Option<&UserStake>,
    card_id: Vec<u8>,
    now: i64,
) -> (r: Result<StakePool, StakePoolError>)
    requires
        program_id.wf(),
        accounts.stake_pool.wf(),
        accounts.user.wf(),
        pool.wf(),
    ensures
        ({
            let u0 = match user_stake {
                Some(us) => Some(us@),
                None => None,
            };
            let t = spec_process_link_card(program_id@, accounts.stake_pool@, accounts.user@,
                pool@, u0, card_id@, now);
            match r {
                Ok(out) => t == Ok::<_, StakePoolError>(out@) && out.wf(),
                Err(e) => t == Err::<PoolModel, _>(e),
            }
        }),
{
    let ghost p0 = pool@;
    if let Err(e) = verify_pool_account(&accounts.stake_pool, program_id) {
        return Err(e);
    }
    if let Err(e) = verify_signer(&accounts.user) {
        return Err(e);
    }
    let staked = match user_stake {
        Some(us) => us.amount,
        None => return Err(StakePoolError::NoStakeFound),
    };
    if staked == 0 {
        return Err(StakePoolError::NoStakeFound);
    }
    let ghost new_info = CardModel { card_id: card_id@, status: CardStatus::Linked,
        linked_at: now };
    let ghost new_cards = cards_insert(p0.linked_cards, accounts.user.key@, new_info);
    let current = cards_region_size(&pool.linked_cards);
    if card_id.len() > CARDS_CAPACITY {
        proof {
            lemma_cards_insert_sorted(p0.linked_cards, accounts.user.key@, new_info);
            lemma_cards_insert_lookup(p0.linked_cards, accounts.user.key@, new_info,
                accounts.user.key@);
            lemma_find_key_idx(new_cards, accounts.user.key@);
            crate::pool::lemma_cards_encoded_len_parts(new_cards);
            let i = find_key_idx(new_cards, accounts.user.key@);
            assert(new_cards[i].info == new_info);
            assert(entry_encoded_len(new_cards[i]) > CARDS_CAPACITY);
        }
        return Err(StakePoolError::BufferTooSmall);
    }
    let replaced = card_map_find(&pool.linked_cards, &accounts.user.key);
    proof {
        crate::pool::lemma_cards_encoded_len_parts(p0.linked_cards);
        if replaced is Some {
            let i = replaced->Some_0;
            assert(entries_view(pool.linked_cards@)[i as int]
                == pool.linked_cards@[i as int]@);
            assert(entry_encoded_len(p0.linked_cards[i as int]) <= CARDS_CAPACITY);
        }
    }
    let removed: usize = match replaced {
        Some(i) => CARD_ENTRY_OVERHEAD + pool.linked_cards[i].info.card_id.len(),
        None => 0,
    };
    proof {
        crate::pool::lemma_cards_encoded_len_parts(p0.linked_cards);
        match replaced {
            Some(i) => {
                assert(entries_view(pool.linked_cards@)[i as int]
                    == pool.linked_cards@[i as int]@);
                lemma_cards_encoded_len_update(p0.linked_cards, i as int,
                    CardEntryModel { key: accounts.user.key@, info: new_info });
            },
            None => {
                crate::cards::lemma_insert_pos(p0.linked_cards, accounts.user.key@);
                lemma_cards_encoded_len_insert(p0.linked_cards,
                    crate::cards::insert_pos(p0.linked_cards, accounts.user.key@),
                    CardEntryModel { key: accounts.user.key@, info: new_info });
            },
        }
        assert(cards_encoded_len(new_cards) == cards_encoded_len(p0.linked_cards) - removed
            + CARD_ENTRY_OVERHEAD + card_id@.len());
    }
    let new_total = current - removed + CARD_ENTRY_OVERHEAD + card_id.len();
    if new_total > CARDS_CAPACITY {
        return Err(StakePoolError::BufferTooSmall);
    }
    let mut new_pool = pool;
    card_map_insert(&mut new_pool.linked_cards, accounts.user.key.dup(),
        CardInfo { card_id, status: CardStatus::Linked, linked_at: now });
    proof {
        let t = spec_process_link_card(program_id@, accounts.stake_pool@, accounts.user@,
            p0, match user_stake { Some(us) => Some(us@), None => None }, card_id@, now);
        assert(new_pool@ =~= t->Ok_0);
    }
    Ok(new_pool)
}

/// What unlinking yields: after the checks, an existing `Linked` record
/// under the signer's identity is marked `Unlinked` with the current
/// time; the record itself is kept.
pub open spec fn spec_process_unlink_card(
    program_id: Seq<u8>,
    pool_acct: MetaModel,
    user_acct: MetaModel,
    p: PoolModel,
    now: i64,
) -> Result<PoolModel, StakePoolError> {
    if spec_verify_pool_account(pool_acct.key, pool_acct.owner, program_id) is Err {
        Err(spec_verify_pool_account(pool_acct.key, pool_acct.owner, program_id)->Err_0)
    } else if !user_acct.is_signer {
        Err(StakePoolError::MissingSignature)
    } else {
        match cards_lookup(p.linked_cards, user_acct.key) {
            None => Err(StakePoolError::NoLinkedCard),
            Some(c) => {
                if c.status != CardStatus::Linked {
                    Err(StakePoolError::NoLinkedCard)
                } else {
                    Ok(
                        PoolModel {
                            linked_cards: cards_insert(p.linked_cards, user_acct.key,
                                CardModel { card_id: c.card_id, status: CardStatus::Unlinked,
                                    linked_at: now }),
                            ..p
                        },
                    )
                }
            },
        }
    }
}

/// Marks the signing depositor's linked card as unlinked, keeping the
/// record as a tombstone.
pub fn process_unlink_card(
    program_id: &Identity,
    accounts: &UnlinkCard,
    pool: StakePool,
    now: i64,
) -> (r: Result<StakePool, StakePoolError>)
    requires
        program_id.wf(),
        accounts.stake_pool.wf(),
        accounts.user.wf(),
        pool.wf(),
    ensures
        ({
            let t = spec_process_unlink_card(program_id@, accounts.stake_pool@, accounts.user@,
                pool@, now);
            match r {
                Ok(out) => t == Ok::<_, StakePoolError>(out@) && out.wf(),
                Err(e) => t == Err::<PoolModel, _>(e),
            }
        }),
{
    let ghost p0 = pool@;
    if let Err(e) = verify_pool_account(&accounts.stake_pool, program_id) {
        return Err(e);
    }
    if let Err(e) = verify_signer(&accounts.user) {
        return Err(e);
    }
    let found = card_map_find(&pool.linked_cards, &accounts.user.key);
    let i = match found {
        Some(i) => i,
        None => return Err(StakePoolError::NoLinkedCard),
    };
    let is_linked = match pool.linked_cards[i].info.status {
        CardStatus::Linked => true,
        CardStatus::Unlinked => false,
    };
    proof {
        assert(entries_view(pool.linked_cards@)[i as int] == pool.linked_cards@[i as int]@);
    }
    if !is_linked {
        return Err(StakePoolError::NoLinkedCard);
    }
    let kept_id = vstd::slice::slice_to_vec(pool.linked_cards[i].info.card_id.as_slice());
    let ghost new_info = CardModel { card_id: kept_id@, status: CardStatus::Unlinked,
        linked_at: now };
    proof {
        crate::pool::lemma_cards_encoded_len_parts(p0.linked_cards);
        lemma_cards_encoded_len_update(p0.linked_cards, i as int,
            CardEntryModel { key: accounts.user.key@, info: new_info });
    }
    let mut new_pool = pool;
    card_map_insert(&mut new_pool.linked_cards, accounts.user.key.dup(),
        CardInfo { card_id: kept_id, status: CardStatus::Unlinked, linked_at: now });
    proof {
        let t = spec_process_unlink_card(program_id@, accounts.stake_pool@, accounts.user@,
            p0, now);
        assert(new_pool@.linked_cards =~= t->Ok_0.linked_cards);
        assert(new_pool@ =~= t->Ok_0);
    }
    Ok(new_pool)
}

/// What a credit draw-down yields: after the checks, the signer must hold
/// a `Linked` card and a stake record; the credit limit equals the staked
/// amount, a request above it is rejected, and an accepted draw-down is
/// added to the signer's outstanding debt under checked arithmetic. The
/// pool record itself is unchanged.
pub open spec fn spec_process_bnpl(
    program_id: Seq<u8>,
    pool_acct: MetaModel,
    user_acct: MetaModel,
    p: PoolModel,
    u: Option<UserStakeModel>,
    amount: u64,
) -> Result<UserStakeModel, StakePoolError> {
    if spec_verify_pool_account(pool_acct.key, pool_acct.owner, program_id) is Err {
        Err(spec_verify_pool_account(pool_acct.key, pool_acct.owner, program_id)->Err_0)
    } else if !user_acct.is_signer {
        Err(StakePoolError::MissingSignature)
    } else if match cards_lookup(p.linked_cards, user_acct.key) {
        None => true,
        Some(c) => c.status != CardStatus::Linked,
    } {
        Err(StakePoolError::NoLinkedCard)
    } else if u is None || u->Some_0.amount == 0 {
        Err(StakePoolError::NoStakeFound)
    } else if amount > u->Some_0.amount {
        Err(StakePoolError::ExceedsCreditLimit)
    } else if u->Some_0.debt + amount > u64::MAX {
        Err(StakePoolError::ArithmeticOverflow)
    } else {
        Ok(UserStakeModel { debt: (u->Some_0.debt + amount) as u64, ..u->Some_0 })
    }
}

/// Authorizes a credit draw-down against the signer's staked collateral
/// and records it as debt.
pub fn process_bnpl_transaction(
    program_id: &Identity,
    accounts: &ProcessBNPL,
    pool: &StakePool,
    user_stake: Option<UserStake>,
    amount: u64,
) -> (r: Result<UserStake, StakePoolError>)
    requires
        program_id.wf(),
        accounts.stake_pool.wf(),
        accounts.user.wf(),
        pool.wf(),
    ensures
        ({
            let u0 = if user_stake is Some {
                Some(user_stake->Some_0@)
            } else {
                None
            };
            let t = spec_process_bnpl(program_id@, accounts.stake_pool@, accounts.user@,
                pool@, u0, amount);
            match r {
                Ok(out) => t == Ok::<_, StakePoolError>(out@),
                Err(e) => t == Err::<UserStakeModel, _>(e),
            }
        }),
{
    let ghost u0 = if user_stake is Some {
        Some(user_stake->Some_0@)
    } else {
        None::<UserStakeModel>
    };
    if let Err(e) = verify_pool_account(&accounts.stake_pool, program_id) {
        return Err(e);
    }
    if let Err(e) = verify_signer(&accounts.user) {
        return Err(e);
    }
    let found = card_map_find(&pool.linked_cards, &accounts.user.key);
    let linked = match found {
        Some(i) => {
            proof {
                assert(entries_view(pool.linked_cards@)[i as int]
                    == pool.linked_cards@[i as int]@);
            }
            match pool.linked_cards[i].info.status {
                CardStatus::Linked => true,
                CardStatus::Unlinked => false,
            }
        },
        None => false,
    };
    if !linked {
        return Err(StakePoolError::NoLinkedCard);
    }
    if user_stake.is_none() {
        return Err(StakePoolError::NoStakeFound);
    }
    let mut record = user_stake.unwrap();
    if record.amount == 0 {
        return Err(StakePoolError::NoStakeFound);
    }
    if amount > record.amount {
        return Err(StakePoolError::ExceedsCreditLimit);
    }
    let new_debt = match record.debt.checked_add(amount) {
        Some(v) => v,
        None => return Err(StakePoolError::ArithmeticOverflow),
    };
    record.debt = new_debt;
    proof {
        let t = spec_process_bnpl(program_id@, accounts.stake_pool@, accounts.user@, pool@,
            u0, amount);
        assert(record@ =~= t->Ok_0);
    }
    Ok(record)
}


/// The accounts for whichever instruction was sent: a tagged schema per
/// operation, never an ambient positional list.
pub enum InstructionAccounts {
    ForInitialize(Initialize),
    ForStake(Stake),
    ForUnstake(Unstake),
    ForClaimRewards(ClaimRewards),
    ForLinkCard(LinkCard),
    ForUnlinkCard(UnlinkCard),
    ForProcessBNPL(ProcessBNPL),
}

impl InstructionAccounts {
    /// Every named account carries 32-byte identities.
    pub open spec fn wf(&self) -> bool {
        match self {
            InstructionAccounts::ForInitialize(a) => a.stake_pool.wf() && a.authority.wf(),
            InstructionAccounts::ForStake(a) => a.stake_pool.wf() && a.user.wf()
                && a.msol_mint.wf() && a.user_msol.wf() && a.pool_msol.wf(),
            InstructionAccounts::ForUnstake(a) => a.stake_pool.wf() && a.user.wf()
                && a.msol_mint.wf() && a.user_msol.wf(),
            InstructionAccounts::ForClaimRewards(a) => a.stake_pool.wf() && a.user.wf(),
            InstructionAccounts::ForLinkCard(a) => a.stake_pool.wf() && a.user.wf(),
            InstructionAccounts::ForUnlinkCard(a) => a.stake_pool.wf() && a.user.wf(),
            InstructionAccounts::ForProcessBNPL(a) => a.stake_pool.wf() && a.user.wf(),
        }
    }

    /// A stake record handed in alongside belongs to the named depositor.
    pub open spec fn owns_record(&self, u: Option<UserStakeModel>) -> bool {
        u matches Some(us) ==> match self {
            InstructionAccounts::ForStake(a) => us.user == a.user.key@,
            _ => true,
        }
    }
}

/// What the engine hands back to the host after one instruction: the
/// depositor record to persist, if any changed, and the transfers to
/// perform in order. The new pool bytes stand in the caller's buffer.
#[derive(Debug)]
pub struct EngineOutcome {
    pub user_stake: Option<UserStake>,
    pub effects: Vec<PoolEffect>,
}

/// The buffer after the record is written over its front.
pub open spec fn reencoded(p: PoolModel, old_bytes: Seq<u8>) -> Seq<u8> {
    pool_encoded(p) + old_bytes.skip(pool_encoded(p).len() as int)
}

/// One dispatched Initialize: run the protocol against the stored
/// buffer's lifecycle flag, then write the fresh record over the buffer.
pub open spec fn spec_dispatch_initialize(
    program_id: Seq<u8>,
    a: Initialize,
    pool_bytes: Seq<u8>,
    u: Option<UserStakeModel>,
    msol_mint: Seq<u8>,
) -> Result<(Seq<u8>, Option<UserStakeModel>, Seq<EffectModel>), StakePoolError> {
    match spec_process_initialize(program_id, a.stake_pool@, a.authority@, msol_mint,
        crate::guard::spec_pool_initialized(pool_bytes)) {
        Err(e) => Err(e),
        Ok(p) => if pool_bytes.len() < POOL_RECORD_LEN {
            Err(StakePoolError::BufferTooSmall)
        } else {
            Ok((reencoded(p, pool_bytes), u, Seq::empty()))
        },
    }
}

/// One dispatched Stake: read the record, run the protocol, write back.
pub open spec fn spec_dispatch_stake(
    program_id: Seq<u8>,
    a: Stake,
    pool_bytes: Seq<u8>,
    u: Option<UserStakeModel>,
    amount: u64,
) -> Result<(Seq<u8>, Option<UserStakeModel>, Seq<EffectModel>), StakePoolError> {
    match spec_pool_decoded(pool_bytes) {
        Err(e) => Err(e),
        Ok(p) => {
            let u0 = if u is Some {
                u->Some_0
            } else {
                UserStakeModel { user: a.user.key@, amount: 0, debt: 0 }
            };
            match spec_process_stake(program_id, a.stake_pool@, a.user@, a.msol_mint@,
                a.user_msol.key@, p, u0, amount) {
                Err(e) => Err(e),
                Ok(out) => Ok((reencoded(out.0, pool_bytes), Some(out.1), out.2)),
            }
        },
    }
}

/// One dispatched Unstake: read the record, run the protocol, write back.
pub open spec fn spec_dispatch_unstake(
    program_id: Seq<u8>,
    a: Unstake,
    pool_bytes: Seq<u8>,
    u: Option<UserStakeModel>,
    amount: u64,
) -> Result<(Seq<u8>, Option<UserStakeModel>, Seq<EffectModel>), StakePoolError> {
    match spec_pool_decoded(pool_bytes) {
        Err(e) => Err(e),
        Ok(p) => match spec_process_unstake(program_id, a.stake_pool@, a.user@, a.msol_mint@,
            a.user_msol.key@, p, amount) {
            Err(e) => Err(e),
            Ok(out) => Ok((reencoded(out.0, pool_bytes), u, out.1)),
        },
    }
}

/// One dispatched ClaimRewards.
pub open spec fn spec_dispatch_claim_rewards(
    program_id: Seq<u8>,
    a: ClaimRewards,
    pool_bytes: Seq<u8>,
    u: Option<UserStakeModel>,
    now: i64,
) -> Result<(Seq<u8>, Option<UserStakeModel>, Seq<EffectModel>), StakePoolError> {
    match spec_pool_decoded(pool_bytes) {
        Err(e) => Err(e),
        Ok(p) => match spec_process_claim_rewards(program_id, a.stake_pool@, a.user@, p, now) {
            Err(e) => Err(e),
            Ok(out) => Ok((reencoded(out.0, pool_bytes), u, out.2)),
        },
    }
}

/// One dispatched LinkCard.
pub open spec fn spec_dispatch_link_card(
    program_id: Seq<u8>,
    a: LinkCard,
    pool_bytes: Seq<u8>,
    u: Option<UserStakeModel>,
    card_id: Seq<u8>,
    now: i64,
) -> Result<(Seq<u8>, Option<UserStakeModel>, Seq<EffectModel>), StakePoolError> {
    match spec_pool_decoded(pool_bytes) {
        Err(e) => Err(e),
        Ok(p) => match spec_process_link_card(program_id, a.stake_pool@, a.user@, p, u,
            card_id, now) {
            Err(e) => Err(e),
            Ok(p2) => Ok((reencoded(p2, pool_bytes), u, Seq::empty())),
        },
    }
}

/// One dispatched UnlinkCard.
pub open spec fn spec_dispatch_unlink_card(
    program_id: Seq<u8>,
    a: UnlinkCard,
    pool_bytes: Seq<u8>,
    u: Option<UserStakeModel>,
    now: i64,
) -> Result<(Seq<u8>, Option<UserStakeModel>, Seq<EffectModel>), StakePoolError> {
    match spec_pool_decoded(pool_bytes) {
        Err(e) => Err(e),
        Ok(p) => match spec_process_unlink_card(program_id, a.stake_pool@, a.user@, p, now) {
            Err(e) => Err(e),
            Ok(p2) => Ok((reencoded(p2, pool_bytes), u, Seq::empty())),
        },
    }
}

/// One dispatched ProcessBNPL: the pool record is read but unchanged.
pub open spec fn spec_dispatch_bnpl(
    program_id: Seq<u8>,
    a: ProcessBNPL,
    pool_bytes: Seq<u8>,
    u: Option<UserStakeModel>,
    amount: u64,
) -> Result<(Seq<u8>, Option<UserStakeModel>, Seq<EffectModel>), StakePoolError> {
    match spec_pool_decoded(pool_bytes) {
        Err(e) => Err(e),
        Ok(p) => match spec_process_bnpl(program_id, a.stake_pool@, a.user@, p, u, amount) {
            Err(e) => Err(e),
            Ok(u2) => Ok((pool_bytes, Some(u2), Seq::empty())),
        },
    }
}

/// What one dispatched instruction yields: the op-code is decoded, the
/// accounts must match it, the record is read from the buffer (except for
/// Initialize), the protocol runs, and the new record is written back
/// over the buffer. Any failure leaves the buffer as it was.
pub open spec fn spec_process_instruction(
    program_id: Seq<u8>,
    accounts: InstructionAccounts,
    pool_bytes: Seq<u8>,
    u: Option<UserStakeModel>,
    instr: Seq<u8>,
    now: i64,
) -> Result<(Seq<u8>, Option<UserStakeModel>, Seq<EffectModel>), StakePoolError> {
    match spec_decode_instruction(instr) {
        Err(e) => Err(e),
        Ok(im) => match (im, accounts) {
            (InstructionModel::Initialize { msol_mint }, InstructionAccounts::ForInitialize(a)) =>
                spec_dispatch_initialize(program_id, a, pool_bytes, u, msol_mint),
            (InstructionModel::Stake { amount }, InstructionAccounts::ForStake(a)) =>
                spec_dispatch_stake(program_id, a, pool_bytes, u, amount),
            (InstructionModel::Unstake { amount }, InstructionAccounts::ForUnstake(a)) =>
                spec_dispatch_unstake(program_id, a, pool_bytes, u, amount),
            (InstructionModel::ClaimRewards, InstructionAccounts::ForClaimRewards(a)) =>
                spec_dispatch_claim_rewards(program_id, a, pool_bytes, u, now),
            (InstructionModel::LinkCard { card_id }, InstructionAccounts::ForLinkCard(a)) =>
                spec_dispatch_link_card(program_id, a, pool_bytes, u, card_id, now),
            (InstructionModel::UnlinkCard, InstructionAccounts::ForUnlinkCard(a)) =>
                spec_dispatch_unlink_card(program_id, a, pool_bytes, u, now),
            (InstructionModel::ProcessBNPL { amount }, InstructionAccounts::ForProcessBNPL(a)) =>
                spec_dispatch_bnpl(program_id, a, pool_bytes, u, amount),
            _ => Err(StakePoolError::InvalidInstructionData),
        },
    }
}

/// Runs a decoded Initialize against the buffer.
fn dispatch_initialize(
    program_id: &Identity,
    a: &Initialize,
    pool_data: &mut Vec<u8>,
    msol_mint: Identity,
) -> (r: Result<Vec<PoolEffect>, StakePoolError>)
    requires
        program_id.wf(),
        a.stake_pool.wf(),
        a.authority.wf(),
        msol_mint.wf(),
    ensures
        ({
            let t = spec_dispatch_initialize(program_id@, *a, old(pool_data)@, None, msol_mint@);
            match r {
                Ok(effects) => {
                    &&& t matches Ok(out)
                    &&& final(pool_data)@ == out.0
                    &&& out.1 is None
                    &&& out.2 == effects_view(effects@)
                },
                Err(e) => t == Err::<(Seq<u8>, Option<UserStakeModel>, Seq<EffectModel>), _>(e)
                    && *final(pool_data) == *old(pool_data),
            }
        }),
{
    let initialized = crate::guard::pool_record_initialized(pool_data);
    let pool = match process_initialize(program_id, a, msol_mint, initialized) {
        Ok(p) => p,
        Err(e) => return Err(e),
    };
    match pool.serialize(pool_data) {
        Ok(()) => {
            proof {
                assert(effects_view(Seq::<PoolEffect>::empty()) =~= Seq::<EffectModel>::empty());
            }
            Ok(Vec::new())
        },
        Err(e) => Err(e),
    }
}

/// Runs a decoded Stake against the buffer.
fn dispatch_stake(
    program_id: &Identity,
    a: &Stake,
    pool_data: &mut Vec<u8>,
    user_stake: Option<UserStake>,
    amount: u64,
) -> (r: Result<(UserStake, Vec<PoolEffect>), StakePoolError>)
    requires
        program_id.wf(),
        a.stake_pool.wf(),
        a.user.wf(),
        a.msol_mint.wf(),
        a.user_msol.wf(),
        user_stake is Some ==> user_stake->Some_0@.user == a.user.key@,
    ensures
        ({
            let u0 = if user_stake is Some {
                Some(user_stake->Some_0@)
            } else {
                None
            };
            let t = spec_dispatch_stake(program_id@, *a, old(pool_data)@, u0, amount);
            match r {
                Ok(out) => {
                    &&& t matches Ok(sout)
                    &&& final(pool_data)@ == sout.0
                    &&& sout.1 == Some(out.0@)
                    &&& sout.2 == effects_view(out.1@)
                },
                Err(e) => t == Err::<(Seq<u8>, Option<UserStakeModel>, Seq<EffectModel>), _>(e)
                    && *final(pool_data) == *old(pool_data),
            }
        }),
{
    let pool = match StakePool::deserialize(pool_data.as_slice()) {
        Ok(p) => p,
        Err(e) => return Err(e),
    };
    let out = match process_stake(program_id, a, pool, user_stake, amount) {
        Ok(o) => o,
        Err(e) => return Err(e),
    };
    match out.pool.serialize(pool_data) {
        Ok(()) => Ok((out.user_stake, out.effects)),
        Err(e) => Err(e),
    }
}

/// Runs a decoded Unstake against the buffer.
fn dispatch_unstake(
    program_id: &Identity,
    a: &Unstake,
    pool_data: &mut Vec<u8>,
    amount: u64,
) -> (r: Result<Vec<PoolEffect>, StakePoolError>)
    requires
        program_id.wf(),
        a.stake_pool.wf(),
        a.user.wf(),
        a.msol_mint.wf(),
        a.user_msol.wf(),
    ensures
        ({
            let t = spec_dispatch_unstake(program_id@, *a, old(pool_data)@, None, amount);
            match r {
                Ok(effects) => {
                    &&& t matches Ok(out)
                    &&& final(pool_data)@ == out.0
                    &&& out.1 is None
                    &&& out.2 == effects_view(effects@)
                },
                Err(e) => t == Err::<(Seq<u8>, Option<UserStakeModel>, Seq<EffectModel>), _>(e)
                    && *final(pool_data) == *old(pool_data),
            }
        }),
{
    let pool = match StakePool::deserialize(pool_data.as_slice()) {
        Ok(p) => p,
        Err(e) => return Err(e),
    };
    let out = match process_unstake(program_id, a, pool, amount) {
        Ok(o) => o,
        Err(e) => return Err(e),
    };
    match out.0.serialize(pool_data) {
        Ok(()) => Ok(out.1),
        Err(e) => Err(e),
    }
}

/// Runs a decoded ClaimRewards against the buffer.
fn dispatch_claim_rewards(
    program_id: &Identity,
    a: &ClaimRewards,
    pool_data: &mut Vec<u8>,
    now: i64,
) -> (r: Result<Vec<PoolEffect>, StakePoolError>)
    requires
        program_id.wf(),
        a.stake_pool.wf(),
        a.user.wf(),
    ensures
        ({
            let t = spec_dispatch_claim_rewards(program_id@, *a, old(pool_data)@, None, now);
            match r {
                Ok(effects) => {
                    &&& t matches Ok(out)
                    &&& final(pool_data)@ == out.0
                    &&& out.1 is None
                    &&& out.2 == effects_view(effects@)
                },
                Err(e) => t == Err::<(Seq<u8>, Option<UserStakeModel>, Seq<EffectModel>), _>(e)
                    && *final(pool_data) == *old(pool_data),
            }
        }),
{
    let pool = match StakePool::deserialize(pool_data.as_slice()) {
        Ok(p) => p,
        Err(e) => return Err(e),
    };
    let out = match process_claim_rewards(program_id, a, pool, now) {
        Ok(o) => o,
        Err(e) => return Err(e),
    };
    match out.0.serialize(pool_data) {
        Ok(()) => Ok(out.2),
        Err(e) => Err(e),
    }
}

/// Runs a decoded LinkCard against the buffer.
fn dispatch_link_card(
    program_id: &Identity,
    a: &LinkCard,
    pool_data: &mut Vec<u8>,
    user_stake: Option<&UserStake>,
    card_id: Vec<u8>,
    now: i64,
) -> (r: Result<(), StakePoolError>)
    requires
        program_id.wf(),
        a.stake_pool.wf(),
        a.user.wf(),
    ensures
        ({
            let u0 = match user_stake {
                Some(us) => Some(us@),
                None => None,
            };
            let t = spec_dispatch_link_card(program_id@, *a, old(pool_data)@, u0, card_id@, now);
            match r {
                Ok(()) => {
                    &&& t matches Ok(out)
                    &&& final(pool_data)@ == out.0
                    &&& out.1 == u0
                    &&& out.2 == Seq::<EffectModel>::empty()
                },
                Err(e) => t == Err::<(Seq<u8>, Option<UserStakeModel>, Seq<EffectModel>), _>(e)
                    && *final(pool_data) == *old(pool_data),
            }
        }),
{
    let pool = match StakePool::deserialize(pool_data.as_slice()) {
        Ok(p) => p,
        Err(e) => return Err(e),
    };
    let new_pool = match process_link_card(program_id, a, pool, user_stake, card_id, now) {
        Ok(p) => p,
        Err(e) => return Err(e),
    };
    match new_pool.serialize(pool_data) {
        Ok(()) => Ok(()),
        Err(e) => Err(e),
    }
}

/// Runs a decoded UnlinkCard against the buffer.
fn dispatch_unlink_card(
    program_id: &Identity,
    a: &UnlinkCard,
    pool_data: &mut Vec<u8>,
    now: i64,
) -> (r: Result<(), StakePoolError>)
    requires
        program_id.wf(),
        a.stake_pool.wf(),
        a.user.wf(),
    ensures
        ({
            let t = spec_dispatch_unlink_card(program_id@, *a, old(pool_data)@, None, now);
            match r {
                Ok(()) => {
                    &&& t matches Ok(out)
                    &&& final(pool_data)@ == out.0
                    &&& out.1 is None
                    &&& out.2 == Seq::<EffectModel>::empty()
                },
                Err(e) => t == Err::<(Seq<u8>, Option<UserStakeModel>, Seq<EffectModel>), _>(e)
                    && *final(pool_data) == *old(pool_data),
            }
        }),
{
    let pool = match StakePool::deserialize(pool_data.as_slice()) {
        Ok(p) => p,
        Err(e) => return Err(e),
    };
    let new_pool = match process_unlink_card(program_id, a, pool, now) {
        Ok(p) => p,
        Err(e) => return Err(e),
    };
    match new_pool.serialize(pool_data) {
        Ok(()) => Ok(()),
        Err(e) => Err(e),
    }
}

/// Runs a decoded ProcessBNPL; the buffer is read but never changed.
fn dispatch_bnpl(
    program_id: &Identity,
    a: &ProcessBNPL,
    pool_data: &Vec<u8>,
    user_stake: Option<UserStake>,
    amount: u64,
) -> (r: Result<UserStake, StakePoolError>)
    requires
        program_id.wf(),
        a.stake_pool.wf(),
        a.user.wf(),
    ensures
        ({
            let u0 = if user_stake is Some {
                Some(user_stake->Some_0@)
            } else {
                None
            };
            let t = spec_dispatch_bnpl(program_id@, *a, pool_data@, u0, amount);
            match r {
                Ok(u2) => {
                    &&& t matches Ok(out)
                    &&& out.0 == pool_data@
                    &&& out.1 == Some(u2@)
                    &&& out.2 == Seq::<EffectModel>::empty()
                },
                Err(e) => t == Err::<(Seq<u8>, Option<UserStakeModel>, Seq<EffectModel>), _>(e),
            }
        }),
{
    let pool = match StakePool::deserialize(pool_data.as_slice()) {
        Ok(p) => p,
        Err(e) => return Err(e),
    };
    match process_bnpl_transaction(program_id, a, &pool, user_stake, amount) {
        Ok(u2) => Ok(u2),
        Err(e) => Err(e),
    }
}

/// Decodes and dispatches one instruction against the pool record held in
/// `pool_data`, writing the new record back over the buffer on success
/// and leaving it untouched on any error.
pub fn process_instruction(
    program_id: &Identity,
    accounts: &InstructionAccounts,
    pool_data: &mut Vec<u8>,
    user_stake: Option<UserStake>,
    instruction_data: &[u8],
    now: i64,
) -> (r: Result<EngineOutcome, StakePoolError>)
    requires
        program_id.wf(),
        accounts.wf(),
        accounts.owns_record(
            if user_stake is Some {
                Some(user_stake->Some_0@)
            } else {
                None
            },
        ),
    ensures
        ({
            let u0 = if user_stake is Some {
                Some(user_stake->Some_0@)
            } else {
                None
            };
            let t = spec_process_instruction(program_id@, *accounts, old(pool_data)@, u0,
                instruction_data@, now);
            match r {
                Ok(out) => {
                    &&& t matches Ok(spec_out)
                    &&& final(pool_data)@ == spec_out.0
                    &&& spec_out.1 == match out.user_stake {
                        Some(us) => Some(us@),
                        None => None::<UserStakeModel>,
                    }
                    &&& spec_out.2 == effects_view(out.effects@)
                },
                Err(e) => t == Err::<(Seq<u8>, Option<UserStakeModel>, Seq<EffectModel>), _>(e)
                    && *final(pool_data) == *old(pool_data),
            }
        }),
{
    let ghost u0 = if user_stake is Some {
        Some(user_stake->Some_0@)
    } else {
        None::<UserStakeModel>
    };
    let instr = match decode_instruction(instruction_data) {
        Ok(i) => i,
        Err(e) => return Err(e),
    };
    match (instr, accounts) {
        (StakePoolInstruction::Initialize { msol_mint }, InstructionAccounts::ForInitialize(a)) => {
            match dispatch_initialize(program_id, a, pool_data, msol_mint) {
                Ok(effects) => Ok(EngineOutcome { user_stake, effects }),
                Err(e) => Err(e),
            }
        },
        (StakePoolInstruction::Stake { amount }, InstructionAccounts::ForStake(a)) => {
            match dispatch_stake(program_id, a, pool_data, user_stake, amount) {
                Ok(out) => Ok(EngineOutcome { user_stake: Some(out.0), effects: out.1 }),
                Err(e) => Err(e),
            }
        },
        (StakePoolInstruction::Unstake { amount }, InstructionAccounts::ForUnstake(a)) => {
            match dispatch_unstake(program_id, a, pool_data, amount) {
                Ok(effects) => Ok(EngineOutcome { user_stake, effects }),
                Err(e) => Err(e),
            }
        },
        (StakePoolInstruction::ClaimRewards, InstructionAccounts::ForClaimRewards(a)) => {
            match dispatch_claim_rewards(program_id, a, pool_data, now) {
                Ok(effects) => Ok(EngineOutcome { user_stake, effects }),
                Err(e) => Err(e),
            }
        },
        (StakePoolInstruction::LinkCard { card_id }, InstructionAccounts::ForLinkCard(a)) => {
            match dispatch_link_card(program_id, a, pool_data, user_stake.as_ref(), card_id,
                now) {
                Ok(()) => Ok(EngineOutcome { user_stake, effects: Vec::new() }),
                Err(e) => Err(e),
            }
        },
        (StakePoolInstruction::UnlinkCard, InstructionAccounts::ForUnlinkCard(a)) => {
            match dispatch_unlink_card(program_id, a, pool_data, now) {
                Ok(()) => Ok(EngineOutcome { user_stake, effects: Vec::new() }),
                Err(e) => Err(e),
            }
        },
        (StakePoolInstruction::ProcessBNPL { amount }, InstructionAccounts::ForProcessBNPL(a)) => {
            match dispatch_bnpl(program_id, a, pool_data, user_stake, amount) {
                Ok(u2) => Ok(EngineOutcome { user_stake: Some(u2), effects: Vec::new() }),
                Err(e) => Err(e),
            }
        },
        _ => Err(StakePoolError::InvalidInstructionData),
    }
}

} // verus!
