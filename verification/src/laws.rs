//! Laws of the engine: properties that relate several operations,
//! stated over the same transition functions that the executable
//! protocols are proved to implement.

use vstd::prelude::*;
use vstd::bytes::{lemma_auto_spec_u32_to_from_le_bytes, lemma_auto_spec_u64_to_from_le_bytes};
use crate::accounts::{Initialize, MetaModel};
use crate::cards::{CardStatus, CardModel, cards_lookup, lemma_cards_insert_sorted,
    lemma_cards_insert_lookup};
use crate::codec::{pool_encoded, lemma_i64_le_bytes_round_trip};
use crate::errors::StakePoolError;
use crate::guard::{spec_pool_initialized, spec_verify_pool_account};
use crate::ids::{zero_identity, IDENTITY_LEN};
use crate::pool::{PoolModel, UserStakeModel};
use crate::processor::{spec_process_initialize, spec_process_stake, spec_process_unstake,
    spec_process_claim_rewards, spec_process_link_card, spec_process_unlink_card,
    spec_process_bnpl, spec_dispatch_initialize, reencoded, EffectModel};

verus! {

/// Law: staking `a1` and then `a2` grows `total_staked` and
/// `total_msol` by exactly `a1 + a2`; from a fresh pool the totals are
/// exactly `a1 + a2`.
pub proof fn lemma_stake_accumulates(
    program_id: Seq<u8>,
    pool_acct: MetaModel,
    user_acct: MetaModel,
    mint_acct: MetaModel,
    user_msol: Seq<u8>,
    p: PoolModel,
    u: UserStakeModel,
    a1: u64,
    a2: u64,
)
    requires
        spec_verify_pool_account(pool_acct.key, pool_acct.owner, program_id) is Ok,
        user_acct.is_signer,
        mint_acct.key == p.msol_mint,
        a1 != 0,
        a2 != 0,
        p.total_staked + a1 + a2 <= u64::MAX,
        p.total_msol + a1 + a2 <= u64::MAX,
        u.amount + a1 + a2 <= u64::MAX,
    ensures
        ({
            let r1 = spec_process_stake(program_id, pool_acct, user_acct, mint_acct, user_msol,
                p, u, a1);
            &&& r1 is Ok
            &&& {
                let r2 = spec_process_stake(program_id, pool_acct, user_acct, mint_acct,
                    user_msol, r1->Ok_0.0, r1->Ok_0.1, a2);
                &&& r2 is Ok
                &&& r2->Ok_0.0.total_staked == p.total_staked + a1 + a2
                &&& r2->Ok_0.0.total_msol == p.total_msol + a1 + a2
                &&& r2->Ok_0.1.amount == u.amount + a1 + a2
            }
        }),
{
}

/// Law: a withdrawal of more than the staked total never succeeds, and
/// when the account, signature and mint checks pass it is rejected with
/// `InsufficientFunds`; one unit more than the total is always rejected.
pub proof fn lemma_unstake_never_over(
    program_id: Seq<u8>,
    pool_acct: MetaModel,
    user_acct: MetaModel,
    mint_acct: MetaModel,
    user_msol: Seq<u8>,
    p: PoolModel,
    amount: u64,
)
    requires
        amount > p.total_staked,
    ensures
        !(spec_process_unstake(program_id, pool_acct, user_acct, mint_acct, user_msol, p,
            amount) is Ok),
        spec_verify_pool_account(pool_acct.key, pool_acct.owner, program_id) is Ok
            && user_acct.is_signer && mint_acct.key == p.msol_mint
            ==> spec_process_unstake(program_id, pool_acct, user_acct, mint_acct, user_msol, p,
            amount) == Err::<(PoolModel, Seq<EffectModel>), _>(
            StakePoolError::InsufficientFunds,
        ),
{
}

/// Law: settling rewards twice at the same clock reading yields zero
/// reward the second time, leaves the settlement time unchanged, and
/// requests no transfer.
pub proof fn lemma_claim_idempotent(
    program_id: Seq<u8>,
    pool_acct: MetaModel,
    user_acct: MetaModel,
    p: PoolModel,
    now: i64,
)
    requires
        spec_process_claim_rewards(program_id, pool_acct, user_acct, p, now) is Ok,
    ensures
        ({
            let p1 = spec_process_claim_rewards(program_id, pool_acct, user_acct, p,
                now)->Ok_0.0;
            let r2 = spec_process_claim_rewards(program_id, pool_acct, user_acct, p1, now);
            &&& r2 is Ok
            &&& r2->Ok_0.1 == 0
            &&& r2->Ok_0.0.last_update_time == p1.last_update_time
            &&& r2->Ok_0.2 == Seq::<EffectModel>::empty()
        }),
{
    let p1 = spec_process_claim_rewards(program_id, pool_acct, user_acct, p, now)->Ok_0.0;
    assert(p1.last_update_time == now);
    assert(p1.total_staked * p1.reward_rate * 0 == 0);
}

/// Law: a successful settlement never moves the settlement time
/// backwards.
pub proof fn lemma_settlement_time_monotonic(
    program_id: Seq<u8>,
    pool_acct: MetaModel,
    user_acct: MetaModel,
    p: PoolModel,
    now: i64,
)
    requires
        spec_process_claim_rewards(program_id, pool_acct, user_acct, p, now) is Ok,
    ensures
        spec_process_claim_rewards(program_id, pool_acct, user_acct, p, now)
            ->Ok_0.0.last_update_time >= p.last_update_time,
{
}

/// Law: after linking and then unlinking, a credit draw-down is rejected
/// with `NoLinkedCard`: the tombstoned record does not authorize credit.
pub proof fn lemma_card_lifecycle(
    program_id: Seq<u8>,
    pool_acct: MetaModel,
    user_acct: MetaModel,
    p: PoolModel,
    u: UserStakeModel,
    card_id: Seq<u8>,
    t1: i64,
    t2: i64,
    amount: u64,
)
    requires
        p.wf(),
        user_acct.key.len() == IDENTITY_LEN,
        spec_process_link_card(program_id, pool_acct, user_acct, p, Some(u), card_id, t1)
            is Ok,
        spec_process_unlink_card(program_id, pool_acct, user_acct,
            spec_process_link_card(program_id, pool_acct, user_acct, p, Some(u), card_id,
                t1)->Ok_0, t2) is Ok,
    ensures
        ({
            let p1 = spec_process_link_card(program_id, pool_acct, user_acct, p, Some(u),
                card_id, t1)->Ok_0;
            let p2 = spec_process_unlink_card(program_id, pool_acct, user_acct, p1, t2)->Ok_0;
            spec_process_bnpl(program_id, pool_acct, user_acct, p2, Some(u), amount)
                == Err::<UserStakeModel, _>(StakePoolError::NoLinkedCard)
        }),
{
    let linked = CardModel { card_id, status: CardStatus::Linked, linked_at: t1 };
    let p1 = spec_process_link_card(program_id, pool_acct, user_acct, p, Some(u), card_id,
        t1)->Ok_0;
    lemma_cards_insert_sorted(p.linked_cards, user_acct.key, linked);
    lemma_cards_insert_lookup(p.linked_cards, user_acct.key, linked, user_acct.key);
    assert(cards_lookup(p1.linked_cards, user_acct.key) == Some(linked));
    let c1 = cards_lookup(p1.linked_cards, user_acct.key)->Some_0;
    let unlinked = CardModel { card_id: c1.card_id, status: CardStatus::Unlinked,
        linked_at: t2 };
    let p2 = spec_process_unlink_card(program_id, pool_acct, user_acct, p1, t2)->Ok_0;
    lemma_cards_insert_sorted(p1.linked_cards, user_acct.key, unlinked);
    lemma_cards_insert_lookup(p1.linked_cards, user_acct.key, unlinked, user_acct.key);
    assert(cards_lookup(p2.linked_cards, user_acct.key) == Some(unlinked));
}

/// Law: with the credit limit equal to the staked amount `S`, a
/// draw-down of `S + 1` is rejected with `ExceedsCreditLimit`, and a
/// draw-down of exactly `S` is accepted, adding `S` to the debt, as long
/// as the grown debt still fits 64 bits.
pub proof fn lemma_bnpl_credit_limit(
    program_id: Seq<u8>,
    pool_acct: MetaModel,
    user_acct: MetaModel,
    p: PoolModel,
    u: UserStakeModel,
)
    requires
        spec_verify_pool_account(pool_acct.key, pool_acct.owner, program_id) is Ok,
        user_acct.is_signer,
        cards_lookup(p.linked_cards, user_acct.key) matches Some(c)
            && c.status == CardStatus::Linked,
        0 < u.amount < u64::MAX,
    ensures
        spec_process_bnpl(program_id, pool_acct, user_acct, p, Some(u),
            (u.amount + 1) as u64) == Err::<UserStakeModel, _>(
            StakePoolError::ExceedsCreditLimit,
        ),
        u.debt + u.amount <= u64::MAX ==> {
            &&& spec_process_bnpl(program_id, pool_acct, user_acct, p, Some(u), u.amount)
                is Ok
            &&& spec_process_bnpl(program_id, pool_acct, user_acct, p, Some(u),
                u.amount)->Ok_0.debt == u.debt + u.amount
        },
{
}

/// Law: a deposit that would push any running total past the 64-bit
/// maximum never succeeds, and when the account, signature, amount and
/// mint checks pass it is rejected with `ArithmeticOverflow`; no new
/// record is produced.
pub proof fn lemma_stake_overflow_guard(
    program_id: Seq<u8>,
    pool_acct: MetaModel,
    user_acct: MetaModel,
    mint_acct: MetaModel,
    user_msol: Seq<u8>,
    p: PoolModel,
    u: UserStakeModel,
    amount: u64,
)
    requires
        p.total_staked + amount > u64::MAX,
    ensures
        !(spec_process_stake(program_id, pool_acct, user_acct, mint_acct, user_msol, p, u,
            amount) is Ok),
        spec_verify_pool_account(pool_acct.key, pool_acct.owner, program_id) is Ok
            && user_acct.is_signer && amount != 0 && mint_acct.key == p.msol_mint
            ==> spec_process_stake(program_id, pool_acct, user_acct, mint_acct, user_msol, p,
            u, amount) == Err::<(PoolModel, UserStakeModel, Seq<EffectModel>), _>(
            StakePoolError::ArithmeticOverflow,
        ),
{
}


/// Law: creation-once. Once a creation has bound the stored record to a
/// non-zero authority or mint, no further creation succeeds against that
/// buffer, whoever signs the request or whatever mint it names.
pub proof fn lemma_initialize_once(
    program_id: Seq<u8>,
    a: Initialize,
    pool_bytes: Seq<u8>,
    u: Option<UserStakeModel>,
    msol_mint: Seq<u8>,
    program_id2: Seq<u8>,
    a2: Initialize,
    u2: Option<UserStakeModel>,
    msol_mint2: Seq<u8>,
)
    requires
        a.authority.key@.len() == IDENTITY_LEN,
        msol_mint.len() == IDENTITY_LEN,
        a.authority.key@ != zero_identity() || msol_mint != zero_identity(),
        spec_dispatch_initialize(program_id, a, pool_bytes, u, msol_mint) is Ok,
    ensures
        !(spec_dispatch_initialize(program_id2, a2,
            spec_dispatch_initialize(program_id, a, pool_bytes, u, msol_mint)->Ok_0.0, u2,
            msol_mint2) is Ok),
{
    let p = spec_process_initialize(program_id, a.stake_pool@, a.authority@, msol_mint,
        spec_pool_initialized(pool_bytes))->Ok_0;
    let enc = pool_encoded(p);
    let s2 = reencoded(p, pool_bytes);
    lemma_auto_spec_u32_to_from_le_bytes();
    lemma_auto_spec_u64_to_from_le_bytes();
    lemma_i64_le_bytes_round_trip(p.last_update_time);
    assert(crate::codec::cards_encoded(p.linked_cards) =~= Seq::<u8>::empty());
    assert(enc.len() == 100);
    assert(s2.len() == pool_bytes.len());
    assert forall|k: int| 0 <= k < 100 implies s2[k] == enc[k] by {}
    assert forall|j: int| 0 <= j < 32 implies enc[32 + j] == p.authority[j]
        && enc[64 + j] == p.msol_mint[j] by {
        assert(enc[32 + j] == (spec_u64_header(p) + p.authority)[32 + j]);
        assert(enc[64 + j] == (spec_u64_header(p) + p.authority + p.msol_mint)[64 + j]);
    }
    if p.authority != zero_identity() {
        assert(!(forall|j: int| 0 <= j < 32 ==> p.authority[j] == 0)) by {
            if forall|j: int| 0 <= j < 32 ==> p.authority[j] == 0 {
                assert(p.authority =~= zero_identity());
            }
        }
        let j = choose|j: int| 0 <= j < 32 && p.authority[j] != 0;
        assert(s2[32 + j] == p.authority[j]);
        assert(s2[32 + j] != 0);
        assert(spec_pool_initialized(s2));
    } else {
        assert(p.msol_mint != zero_identity());
        assert(!(forall|j: int| 0 <= j < 32 ==> p.msol_mint[j] == 0)) by {
            if forall|j: int| 0 <= j < 32 ==> p.msol_mint[j] == 0 {
                assert(p.msol_mint =~= zero_identity());
            }
        }
        let j = choose|j: int| 0 <= j < 32 && p.msol_mint[j] != 0;
        assert(s2[64 + j] == p.msol_mint[j]);
        assert(s2[64 + j] != 0);
        assert(spec_pool_initialized(s2));
    }
}

/// The first 32 bytes of a record's wire form: its three unsigned header
/// fields and the timestamp.
spec fn spec_u64_header(p: PoolModel) -> Seq<u8> {
    vstd::bytes::spec_u64_to_le_bytes(p.total_staked)
        + vstd::bytes::spec_u64_to_le_bytes(p.total_msol)
        + vstd::bytes::spec_u64_to_le_bytes(p.reward_rate)
        + crate::codec::spec_i64_to_le_bytes(p.last_update_time)
}

} // verus!
