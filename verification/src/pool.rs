//! The pool ledger record and the per-depositor stake record, with their
//! mathematical models and well-formedness invariants.

use vstd::prelude::*;
use vstd::std_specs::cmp::PartialEqSpec;
use crate::ids::{Identity, IDENTITY_LEN, zero_identity};
use crate::cards::{CardEntry, CardEntryModel, cards_sorted, entries_view};

verus! {

/// Serialized size of the pool record: six fixed header fields plus the
/// reserved region for the linked-card registry.
pub const POOL_RECORD_LEN: usize = 1096;

/// Bytes of the reserved trailing region (pool record minus the 96-byte
/// fixed header).
pub const CARDS_REGION_LEN: usize = 1000;

/// Bytes available for card entries: the reserved region minus the 4-byte
/// entry count.
pub const CARDS_CAPACITY: usize = 996;

/// Bytes of one serialized card entry besides its card identifier:
/// a 32-byte key, a 4-byte identifier length, a status byte, and an
/// 8-byte timestamp.
pub const CARD_ENTRY_OVERHEAD: usize = 45;

/// Annualized simple-interest rate, in integer percent, fixed at creation.
pub const DEFAULT_REWARD_RATE: u64 = 5;

/// The singleton persistent state of the staking pool.
#[derive(Clone, Debug)]
pub struct StakePool {
    /// Base-asset principal currently held, in the smallest unit.
    pub total_staked: u64,
    /// Receipt units outstanding, minted 1:1 against principal.
    pub total_msol: u64,
    /// Annualized simple-interest rate in integer percent.
    pub reward_rate: u64,
    /// Unix time of the last reward settlement; never moves backwards.
    pub last_update_time: i64,
    /// The principal permitted to perform administrative actions.
    pub authority: Identity,
    /// The external receipt-token mint this pool mints and burns against.
    pub msol_mint: Identity,
    /// Per-depositor linked cards, in ascending key order.
    pub linked_cards: Vec<CardEntry>,
}

/// The mathematical value of the pool record.
#[verifier::ext_equal]
pub ghost struct PoolModel {
    pub total_staked: u64,
    pub total_msol: u64,
    pub reward_rate: u64,
    pub last_update_time: i64,
    pub authority: Seq<u8>,
    pub msol_mint: Seq<u8>,
    pub linked_cards: Seq<CardEntryModel>,
}

impl View for StakePool {
    type V = PoolModel;

    open spec fn view(&self) -> PoolModel {
        PoolModel {
            total_staked: self.total_staked,
            total_msol: self.total_msol,
            reward_rate: self.reward_rate,
            last_update_time: self.last_update_time,
            authority: self.authority@,
            msol_mint: self.msol_mint@,
            linked_cards: entries_view(self.linked_cards@),
        }
    }
}

/// Serialized size of one card entry.
pub open spec fn entry_encoded_len(e: CardEntryModel) -> int {
    CARD_ENTRY_OVERHEAD + e.info.card_id.len()
}

/// Serialized size of the card registry, without its entry count.
pub open spec fn cards_encoded_len(cards: Seq<CardEntryModel>) -> int
    decreases cards.len(),
{
    if cards.len() == 0 {
        0
    } else {
        entry_encoded_len(cards[0]) + cards_encoded_len(cards.drop_first())
    }
}

/// The registry's serialized size is at least the overhead of each entry,
/// and every entry's size is part of the total.
pub proof fn lemma_cards_encoded_len_parts(cards: Seq<CardEntryModel>)
    ensures
        cards_encoded_len(cards) >= 0,
        forall|i: int| 0 <= i < cards.len() ==> entry_encoded_len(#[trigger] cards[i])
            <= cards_encoded_len(cards),
    decreases cards.len(),
{
    if cards.len() > 0 {
        lemma_cards_encoded_len_parts(cards.drop_first());
        assert(forall|i: int| 1 <= i < cards.len() ==> cards[i] == cards.drop_first()[i - 1]);
    }
}

/// Replacing an entry changes the registry's accounted size by the
/// difference of the entry sizes.
pub proof fn lemma_cards_encoded_len_update(cards: Seq<CardEntryModel>, i: int, e: CardEntryModel)
    requires
        0 <= i < cards.len(),
    ensures
        cards_encoded_len(cards.update(i, e)) == cards_encoded_len(cards)
            - entry_encoded_len(cards[i]) + entry_encoded_len(e),
    decreases cards.len(),
{
    if i == 0 {
        assert(cards.update(0, e).drop_first() =~= cards.drop_first());
    } else {
        assert(cards.update(i, e).drop_first() =~= cards.drop_first().update(i - 1, e));
        lemma_cards_encoded_len_update(cards.drop_first(), i - 1, e);
    }
}

/// Inserting an entry grows the registry's accounted size by that
/// entry's size.
pub proof fn lemma_cards_encoded_len_insert(cards: Seq<CardEntryModel>, p: int, e: CardEntryModel)
    requires
        0 <= p <= cards.len(),
    ensures
        cards_encoded_len(cards.insert(p, e)) == cards_encoded_len(cards)
            + entry_encoded_len(e),
    decreases cards.len(),
{
    if p == 0 {
        assert(cards.insert(0, e).drop_first() =~= cards);
        assert(cards.insert(0, e)[0] == e);
    } else {
        assert(cards.insert(p, e)[0] == cards[0]);
        assert(cards.insert(p, e).drop_first() =~= cards.drop_first().insert(p - 1, e));
        lemma_cards_encoded_len_insert(cards.drop_first(), p - 1, e);
    }
}

/// The accounted size of a prefix never exceeds the accounted total.
pub proof fn lemma_cards_encoded_len_prefix(cards: Seq<CardEntryModel>, k: int)
    requires
        0 <= k <= cards.len(),
    ensures
        cards_encoded_len(cards.take(k)) <= cards_encoded_len(cards),
    decreases cards.len(),
{
    if k > 0 && cards.len() > 0 {
        assert(cards.take(k).drop_first() =~= cards.drop_first().take(k - 1));
        lemma_cards_encoded_len_prefix(cards.drop_first(), k - 1);
        lemma_cards_encoded_len_parts(cards.drop_first());
    } else if cards.len() > 0 {
        assert(cards.take(0) =~= Seq::<CardEntryModel>::empty());
        lemma_cards_encoded_len_parts(cards);
    }
}

/// Computes the registry's serialized size, entry by entry.
pub fn cards_region_size(cards: &Vec<CardEntry>) -> (r: usize)
    requires
        cards_encoded_len(entries_view(cards@)) <= CARDS_CAPACITY,
    ensures
        r == cards_encoded_len(entries_view(cards@)),
{
    let ghost view = entries_view(cards@);
    let n = cards.len();
    let mut total: usize = 0;
    let mut i: usize = 0;
    proof {
        assert(view.take(0) =~= Seq::<CardEntryModel>::empty());
    }
    while i < n
        invariant
            n == cards@.len(),
            0 <= i <= n,
            view == entries_view(cards@),
            cards_encoded_len(view) <= CARDS_CAPACITY,
            total == cards_encoded_len(view.take(i as int)),
        decreases n - i,
    {
        proof {
            assert(view[i as int] == cards@[i as int]@);
            assert(view.take(i + 1).drop_last() =~= view.take(i as int));
            assert(view.take(i + 1).last() == view[i as int]);
            lemma_cards_encoded_len_snoc(view.take(i + 1));
            lemma_cards_encoded_len_prefix(view, i + 1);
            lemma_cards_encoded_len_parts(view.take(i + 1));
        }
        total = total + CARD_ENTRY_OVERHEAD + cards[i].info.card_id.len();
        i = i + 1;
    }
    proof {
        assert(view.take(n as int) =~= view);
    }
    total
}

/// Splitting the registry's accounted size off its last entry.
pub proof fn lemma_cards_encoded_len_snoc(cards: Seq<CardEntryModel>)
    requires
        cards.len() > 0,
    ensures
        cards_encoded_len(cards) == cards_encoded_len(cards.drop_last())
            + entry_encoded_len(cards.last()),
    decreases cards.len(),
{
    if cards.len() == 1 {
        assert(cards.drop_last() =~= Seq::<CardEntryModel>::empty());
        assert(cards.drop_first() =~= Seq::<CardEntryModel>::empty());
    } else {
        lemma_cards_encoded_len_snoc(cards.drop_first());
        assert(cards.drop_first().drop_last() =~= cards.drop_last().drop_first());
        assert(cards.drop_first().last() == cards.last());
        assert(cards.drop_last()[0] == cards[0]);
    }
}

impl PoolModel {
    /// Well-formedness: identities are 32 bytes, the registry is sorted
    /// with unique 32-byte keys, and the registry fits the reserved region.
    pub open spec fn wf(self) -> bool {
        &&& self.authority.len() == IDENTITY_LEN
        &&& self.msol_mint.len() == IDENTITY_LEN
        &&& cards_sorted(self.linked_cards)
        &&& cards_encoded_len(self.linked_cards) <= CARDS_CAPACITY
    }
}

/// The state of a pool that has just been created: nothing staked, the
/// default reward rate, placeholder identities, and no linked cards.
pub open spec fn initial_pool() -> PoolModel {
    PoolModel {
        total_staked: 0,
        total_msol: 0,
        reward_rate: DEFAULT_REWARD_RATE,
        last_update_time: 0,
        authority: zero_identity(),
        msol_mint: zero_identity(),
        linked_cards: Seq::empty(),
    }
}

impl StakePool {
    /// Well-formedness of the in-memory record.
    pub open spec fn wf(&self) -> bool {
        self@.wf()
    }

    /// Creates a pool record with the initial values.
    pub fn new() -> (r: StakePool)
        ensures
            r@ == initial_pool(),
            r.wf(),
    {
        let r = StakePool {
            total_staked: 0,
            total_msol: 0,
            reward_rate: DEFAULT_REWARD_RATE,
            last_update_time: 0,
            authority: Identity::zero(),
            msol_mint: Identity::zero(),
            linked_cards: Vec::new(),
        };
        proof {
            assert(entries_view(r.linked_cards@) =~= Seq::<CardEntryModel>::empty());
            assert(r@ =~= initial_pool());
        }
        r
    }
}

impl PartialEq for StakePool {
    fn eq(&self, other: &Self) -> (r: bool) {
        let r = self.total_staked == other.total_staked
            && self.total_msol == other.total_msol
            && self.reward_rate == other.reward_rate
            && self.last_update_time == other.last_update_time
            && self.authority == other.authority
            && self.msol_mint == other.msol_mint
            && self.linked_cards == other.linked_cards;
        proof {
            if r {
                assert(entries_view(self.linked_cards@) =~= entries_view(
                    other.linked_cards@));
                assert(self@ =~= other@);
            } else {
                if self@ == other@ {
                    assert(self.linked_cards@.len() == other.linked_cards@.len()) by {
                        assert(entries_view(self.linked_cards@).len()
                            == entries_view(other.linked_cards@).len());
                    }
                    assert forall|i: int| 0 <= i < self.linked_cards@.len() implies
                        (#[trigger] self.linked_cards@[i]).eq_spec(&other.linked_cards@[i]) by {
                        assert(entries_view(self.linked_cards@)[i]
                            == entries_view(other.linked_cards@)[i]);
                    }
                }
            }
        }
        r
    }
}

impl vstd::std_specs::cmp::PartialEqSpecImpl for StakePool {
    open spec fn obeys_eq_spec() -> bool {
        true
    }

    open spec fn eq_spec(&self, other: &Self) -> bool {
        self@ == other@
    }
}

/// A depositor's individually tracked principal and credit draw-downs.
#[derive(Clone, Debug)]
pub struct UserStake {
    /// The depositor this record belongs to.
    pub user: Identity,
    /// The depositor's staked principal, in the smallest unit.
    pub amount: u64,
    /// Outstanding credit drawn against this stake.
    pub debt: u64,
}

/// The mathematical value of a depositor's stake record.
#[verifier::ext_equal]
pub ghost struct UserStakeModel {
    pub user: Seq<u8>,
    pub amount: u64,
    pub debt: u64,
}

impl View for UserStake {
    type V = UserStakeModel;

    open spec fn view(&self) -> UserStakeModel {
        UserStakeModel { user: self.user@, amount: self.amount, debt: self.debt }
    }
}

impl PartialEq for UserStake {
    fn eq(&self, other: &Self) -> (r: bool) {
        let r = self.user == other.user && self.amount == other.amount
            && self.debt == other.debt;
        proof {
            if r {
                assert(self@ =~= other@);
            }
        }
        r
    }
}

impl vstd::std_specs::cmp::PartialEqSpecImpl for UserStake {
    open spec fn obeys_eq_spec() -> bool {
        true
    }

    open spec fn eq_spec(&self, other: &Self) -> bool {
        self@ == other@
    }
}

impl UserStake {
    /// A fresh stake record for a depositor, with nothing staked or drawn.
    pub fn new(user: Identity) -> (r: UserStake)
        ensures
            r@ == (UserStakeModel { user: user@, amount: 0, debt: 0 }),
    {
        UserStake { user, amount: 0, debt: 0 }
    }
}

} // verus!
