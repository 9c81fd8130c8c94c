//! Fixed-offset little-endian (de)serialization of the pool record.
//!
//! Layout: six header fields at offsets 0, 8, 16, 24, 32 and 64, then the
//! reserved card region: a 4-byte entry count at offset 96 and the entries
//! themselves, each a 32-byte key, a 4-byte identifier length, the
//! identifier bytes, a status byte, and an 8-byte timestamp. Everything
//! lives within the fixed record length; a buffer shorter than that, a
//! malformed entry, or an out-of-order key is rejected as `BufferTooSmall`.

use vstd::prelude::*;
use vstd::bytes::{spec_u32_to_le_bytes, spec_u32_from_le_bytes, spec_u64_to_le_bytes,
    spec_u64_from_le_bytes, u32_to_le_bytes, u32_from_le_bytes, u64_to_le_bytes,
    u64_from_le_bytes, lemma_auto_spec_u32_to_from_le_bytes,
    lemma_auto_spec_u64_to_from_le_bytes};
use vstd::slice::{slice_subrange, slice_to_vec, slice_index_get};
use crate::cards::{CardStatus, CardInfo, CardEntry, CardEntryModel, CardModel, cards_sorted,
    entries_view};
use crate::errors::StakePoolError;
use crate::ids::{Identity, IDENTITY_LEN, lex_lt, lemma_lex_trans};
use crate::pool::{StakePool, PoolModel, POOL_RECORD_LEN, CARDS_CAPACITY, CARD_ENTRY_OVERHEAD,
    entry_encoded_len, cards_encoded_len, lemma_cards_encoded_len_parts};

verus! {

/// Offset of the card region's entry count.
pub const CARDS_COUNT_OFFSET: usize = 96;

/// Offset of the first card entry.
pub const CARDS_ENTRIES_OFFSET: usize = 100;

/// A signed timestamp on the wire: its two's-complement 64-bit image.
pub open spec fn spec_i64_to_le_bytes(x: i64) -> Seq<u8> {
    spec_u64_to_le_bytes(x as u64)
}

/// Reads a signed timestamp back from its two's-complement image.
pub open spec fn spec_i64_from_le_bytes(s: Seq<u8>) -> i64 {
    spec_u64_from_le_bytes(s) as i64
}

/// The timestamp image decodes to the timestamp it encodes.
pub proof fn lemma_i64_le_bytes_round_trip(x: i64)
    ensures
        spec_i64_from_le_bytes(spec_i64_to_le_bytes(x)) == x,
        spec_i64_to_le_bytes(x).len() == 8,
{
    lemma_auto_spec_u64_to_from_le_bytes();
    assert(((x as u64) as i64) == x) by (bit_vector);
}

/// The wire form of a card status.
pub open spec fn status_byte(s: CardStatus) -> u8 {
    match s {
        CardStatus::Linked => 0,
        CardStatus::Unlinked => 1,
    }
}

/// The wire form of one card entry.
pub open spec fn entry_encoded(e: CardEntryModel) -> Seq<u8> {
    e.key + spec_u32_to_le_bytes(e.info.card_id.len() as u32) + e.info.card_id
        + seq![status_byte(e.info.status)] + spec_i64_to_le_bytes(e.info.linked_at)
}

/// The wire form of the card registry, entries in order.
pub open spec fn cards_encoded(cards: Seq<CardEntryModel>) -> Seq<u8>
    decreases cards.len(),
{
    if cards.len() == 0 {
        Seq::empty()
    } else {
        entry_encoded(cards[0]) + cards_encoded(cards.drop_first())
    }
}

/// An entry's wire form is as long as its accounted size; the registry's
/// wire form is as long as the accounted total.
pub proof fn lemma_cards_encoded_len(cards: Seq<CardEntryModel>)
    requires
        forall|i: int| 0 <= i < cards.len() ==> (#[trigger] cards[i]).key.len() == IDENTITY_LEN,
    ensures
        cards_encoded(cards).len() == cards_encoded_len(cards),
    decreases cards.len(),
{
    lemma_auto_spec_u32_to_from_le_bytes();
    lemma_auto_spec_u64_to_from_le_bytes();
    if cards.len() > 0 {
        assert(forall|i: int| 1 <= i < cards.len() ==> cards[i] == cards.drop_first()[i - 1]);
        lemma_cards_encoded_len(cards.drop_first());
        assert(entry_encoded(cards[0]).len() == entry_encoded_len(cards[0]));
    }
}

/// The wire form of the whole pool record: the six header fields, the
/// entry count, and the entries.
pub open spec fn pool_encoded(m: PoolModel) -> Seq<u8> {
    spec_u64_to_le_bytes(m.total_staked) + spec_u64_to_le_bytes(m.total_msol)
        + spec_u64_to_le_bytes(m.reward_rate) + spec_i64_to_le_bytes(m.last_update_time)
        + m.authority + m.msol_mint
        + spec_u32_to_le_bytes(m.linked_cards.len() as u32)
        + cards_encoded(m.linked_cards)
}

/// Decodes `n` card entries starting at `off`, staying within the fixed
/// record length; `None` on any truncated entry or unknown status byte.
pub open spec fn spec_cards_decoded(s: Seq<u8>, off: int, n: nat) -> Option<
    (Seq<CardEntryModel>, int),
>
    decreases n,
{
    if n == 0 {
        Some((Seq::empty(), off))
    } else if off + CARD_ENTRY_OVERHEAD > POOL_RECORD_LEN {
        None
    } else {
        let id_len = spec_u32_from_le_bytes(s.subrange(off + 32, off + 36)) as int;
        if off + CARD_ENTRY_OVERHEAD + id_len > POOL_RECORD_LEN {
            None
        } else {
            let sb = s[off + 36 + id_len];
            if sb != 0 && sb != 1 {
                None
            } else {
                let entry = CardEntryModel {
                    key: s.subrange(off, off + 32),
                    info: CardModel {
                        card_id: s.subrange(off + 36, off + 36 + id_len),
                        status: if sb == 0 {
                            CardStatus::Linked
                        } else {
                            CardStatus::Unlinked
                        },
                        linked_at: spec_i64_from_le_bytes(
                            s.subrange(off + 37 + id_len, off + 45 + id_len),
                        ),
                    },
                };
                match spec_cards_decoded(s, off + CARD_ENTRY_OVERHEAD + id_len, (n - 1) as nat) {
                    None => None,
                    Some((rest, end)) => Some((seq![entry] + rest, end)),
                }
            }
        }
    }
}

/// What decoding a buffer yields: the header fields at their offsets and
/// the counted card entries, which must parse, stay in bounds, and be
/// strictly ascending by key.
pub open spec fn spec_pool_decoded(s: Seq<u8>) -> Result<PoolModel, StakePoolError> {
    if s.len() < POOL_RECORD_LEN {
        Err(StakePoolError::BufferTooSmall)
    } else {
        let count = spec_u32_from_le_bytes(s.subrange(96, 100));
        match spec_cards_decoded(s, CARDS_ENTRIES_OFFSET as int, count as nat) {
            None => Err(StakePoolError::BufferTooSmall),
            Some((cards, end)) => {
                if cards_sorted(cards) {
                    Ok(
                        PoolModel {
                            total_staked: spec_u64_from_le_bytes(s.subrange(0, 8)),
                            total_msol: spec_u64_from_le_bytes(s.subrange(8, 16)),
                            reward_rate: spec_u64_from_le_bytes(s.subrange(16, 24)),
                            last_update_time: spec_i64_from_le_bytes(s.subrange(24, 32)),
                            authority: s.subrange(32, 64),
                            msol_mint: s.subrange(64, 96),
                            linked_cards: cards,
                        },
                    )
                } else {
                    Err(StakePoolError::BufferTooSmall)
                }
            },
        }
    }
}

/// The registry's accounted size bounds how many entries it can hold.
pub proof fn lemma_cards_count_bound(cards: Seq<CardEntryModel>)
    ensures
        cards.len() * CARD_ENTRY_OVERHEAD <= cards_encoded_len(cards),
    decreases cards.len(),
{
    if cards.len() > 0 {
        lemma_cards_count_bound(cards.drop_first());
        assert((cards.len() - 1) * CARD_ENTRY_OVERHEAD
            == cards.drop_first().len() * CARD_ENTRY_OVERHEAD);
        assert(cards.len() * CARD_ENTRY_OVERHEAD
            == (cards.len() - 1) * CARD_ENTRY_OVERHEAD + CARD_ENTRY_OVERHEAD) by (nonlinear_arith);
    }
}

impl StakePool {
    /// Writes the record's wire form over the front of `data`, leaving the
    /// bytes past it unchanged; fails, writing nothing, when the buffer is
    /// shorter than the fixed record length.
    pub fn serialize(&self, data: &mut Vec<u8>) -> (r: Result<(), StakePoolError>)
        requires
            self.wf(),
        ensures
            match r {
                Ok(()) => old(data)@.len() >= POOL_RECORD_LEN && final(data)@.len()
                    == old(data)@.len() && final(data)@ == pool_encoded(self@)
                    + old(data)@.skip(pool_encoded(self@).len() as int),
                Err(e) => e == StakePoolError::BufferTooSmall && old(data)@.len()
                    < POOL_RECORD_LEN && *final(data) == *old(data),
            },
    {
        if data.len() < POOL_RECORD_LEN {
            return Err(StakePoolError::BufferTooSmall);
        }
        proof {
            lemma_auto_spec_u32_to_from_le_bytes();
            lemma_auto_spec_u64_to_from_le_bytes();
            lemma_cards_encoded_len(self@.linked_cards);
            lemma_cards_count_bound(self@.linked_cards);
        }
        let mut out: Vec<u8> = Vec::new();
        let mut field = u64_to_le_bytes(self.total_staked);
        out.append(&mut field);
        let mut field = u64_to_le_bytes(self.total_msol);
        out.append(&mut field);
        let mut field = u64_to_le_bytes(self.reward_rate);
        out.append(&mut field);
        let mut field = u64_to_le_bytes(#[verifier::truncate] (self.last_update_time as u64));
        out.append(&mut field);
        out.extend_from_slice(self.authority.bytes.as_slice());
        out.extend_from_slice(self.msol_mint.bytes.as_slice());
        let count: u32 = self.linked_cards.len() as u32;
        let mut field = u32_to_le_bytes(count);
        out.append(&mut field);
        proof {
            assert(out@ =~= pool_encoded(self@).take(CARDS_ENTRIES_OFFSET as int));
        }
        let n = self.linked_cards.len();
        let mut i: usize = 0;
        while i < n
            invariant
                n == self.linked_cards@.len(),
                0 <= i <= n,
                self.wf(),
                out@ == pool_encoded(self@).take(CARDS_ENTRIES_OFFSET as int)
                    + cards_encoded(self@.linked_cards.take(i as int)),
            decreases n - i,
        {
            proof {
                lemma_entry_bounds(self@.linked_cards, i as int);
                assert(entries_view(self.linked_cards@)[i as int]
                    == self.linked_cards@[i as int]@);
            }
            let entry = &self.linked_cards[i];
            out.extend_from_slice(entry.key.bytes.as_slice());
            let id_len: u32 = entry.info.card_id.len() as u32;
            let mut field = u32_to_le_bytes(id_len);
            out.append(&mut field);
            out.extend_from_slice(entry.info.card_id.as_slice());
            let sb: u8 = match entry.info.status {
                CardStatus::Linked => 0,
                CardStatus::Unlinked => 1,
            };
            out.push(sb);
            let mut field = u64_to_le_bytes(#[verifier::truncate] (entry.info.linked_at as u64));
            out.append(&mut field);
            proof {
                lemma_auto_spec_u32_to_from_le_bytes();
                lemma_auto_spec_u64_to_from_le_bytes();
                let cards = self@.linked_cards;
                assert(entries_view(self.linked_cards@)[i as int] == self.linked_cards@[i as int]@);
                assert(cards.take(i + 1).drop_last() =~= cards.take(i as int));
                assert(cards.take(i + 1).last() == cards[i as int]);
                lemma_cards_encoded_snoc(cards.take(i + 1));
                assert(out@ =~= pool_encoded(self@).take(CARDS_ENTRIES_OFFSET as int)
                    + cards_encoded(cards.take(i + 1)));
            }
            i = i + 1;
        }
        proof {
            assert(self@.linked_cards.take(n as int) =~= self@.linked_cards);
            assert(out@ =~= pool_encoded(self@));
            assert(out@.len() == CARDS_ENTRIES_OFFSET + cards_encoded_len(self@.linked_cards));
        }
        write_prefix(data, &out);
        Ok(())
    }

    /// Reads a record back from a buffer's wire form.
    pub fn deserialize(data: &[u8]) -> (r: Result<StakePool, StakePoolError>)
        ensures
            match r {
                Ok(p) => spec_pool_decoded(data@) == Ok::<_, StakePoolError>(p@) && p.wf(),
                Err(e) => spec_pool_decoded(data@) == Err::<PoolModel, _>(e),
            },
    {
        if data.len() < POOL_RECORD_LEN {
            return Err(StakePoolError::BufferTooSmall);
        }
        proof {
            lemma_auto_spec_u32_to_from_le_bytes();
            lemma_auto_spec_u64_to_from_le_bytes();
        }
        let total_staked = u64_from_le_bytes(slice_subrange(data, 0, 8));
        let total_msol = u64_from_le_bytes(slice_subrange(data, 8, 16));
        let reward_rate = u64_from_le_bytes(slice_subrange(data, 16, 24));
        let last_update_time = #[verifier::truncate] (u64_from_le_bytes(
            slice_subrange(data, 24, 32),
        ) as i64);
        let authority = Identity { bytes: slice_to_vec(slice_subrange(data, 32, 64)) };
        let msol_mint = Identity { bytes: slice_to_vec(slice_subrange(data, 64, 96)) };
        let count = u32_from_le_bytes(slice_subrange(data, 96, 100));
        let mut cards: Vec<CardEntry> = Vec::new();
        let mut off: usize = CARDS_ENTRIES_OFFSET;
        let mut j: u32 = 0;
        let ghost s = data@;
        while j < count
            invariant
                data@ == s,
                s.len() >= POOL_RECORD_LEN,
                count == spec_u32_from_le_bytes(s.subrange(96, 100)),
                0 <= j <= count,
                CARDS_ENTRIES_OFFSET <= off <= POOL_RECORD_LEN,
                spec_cards_decoded(s, CARDS_ENTRIES_OFFSET as int, count as nat) is Some
                    <==> spec_cards_decoded(s, off as int, (count - j) as nat) is Some,
                spec_cards_decoded(s, CARDS_ENTRIES_OFFSET as int, count as nat) matches Some(
                    (all, end)) ==> {
                    &&& spec_cards_decoded(s, off as int, (count - j) as nat) matches Some(
                        (rest, end2))
                    &&& all == entries_view(cards@) + rest
                    &&& end == end2
                },
                forall|k: int| 0 <= k < cards@.len() ==> (#[trigger] cards@[k])@.key.len()
                    == IDENTITY_LEN,
                cards@.len() == j,
            decreases count - j,
        {
            proof {
                lemma_auto_spec_u32_to_from_le_bytes();
                lemma_auto_spec_u64_to_from_le_bytes();
            }
            if off + CARD_ENTRY_OVERHEAD > POOL_RECORD_LEN {
                proof {
                    assert(spec_cards_decoded(s, off as int, (count - j) as nat) is None);
                }
                return Err(StakePoolError::BufferTooSmall);
            }
            let id_len_u32 = u32_from_le_bytes(slice_subrange(data, off + 32, off + 36));
            let id_len = id_len_u32 as usize;
            if id_len > POOL_RECORD_LEN - off - CARD_ENTRY_OVERHEAD {
                proof {
                    assert(spec_cards_decoded(s, off as int, (count - j) as nat) is None);
                }
                return Err(StakePoolError::BufferTooSmall);
            }
            let sb = *slice_index_get(data, off + 36 + id_len);
            if sb != 0 && sb != 1 {
                proof {
                    assert(spec_cards_decoded(s, off as int, (count - j) as nat) is None);
                }
                return Err(StakePoolError::BufferTooSmall);
            }
            let key = Identity { bytes: slice_to_vec(slice_subrange(data, off, off + 32)) };
            let card_id = slice_to_vec(slice_subrange(data, off + 36, off + 36 + id_len));
            let status = if sb == 0 {
                CardStatus::Linked
            } else {
                CardStatus::Unlinked
            };
            let linked_at = #[verifier::truncate] (u64_from_le_bytes(
                slice_subrange(data, off + 37 + id_len, off + 45 + id_len),
            ) as i64);
            let entry = CardEntry { key, info: CardInfo { card_id, status, linked_at } };
            proof {
                let inner = spec_cards_decoded(s, off as int, (count - j) as nat);
                let next = spec_cards_decoded(s, off + CARD_ENTRY_OVERHEAD + id_len,
                    (count - j - 1) as nat);
                if spec_cards_decoded(s, CARDS_ENTRIES_OFFSET as int, count as nat) is Some {
                    let (rest, end2) = inner->Some_0;
                    assert(rest[0] == entry@);
                    assert(rest.drop_first() =~= next->Some_0.0);
                    assert(entries_view(cards@.push(entry)) =~= entries_view(cards@)
                        + seq![entry@]);
                    assert(entries_view(cards@) + rest =~= entries_view(cards@.push(entry))
                        + rest.drop_first());
                } else {
                    assert(inner is None);
                    assert(next is None);
                }
            }
            cards.push(entry);
            off = off + CARD_ENTRY_OVERHEAD + id_len;
            j = j + 1;
        }
        proof {
            if spec_cards_decoded(s, CARDS_ENTRIES_OFFSET as int, count as nat) is Some {
                let (all, end) = spec_cards_decoded(s, CARDS_ENTRIES_OFFSET as int,
                    count as nat)->Some_0;
                assert(all =~= entries_view(cards@));
            }
        }
        let sorted = check_sorted(&cards);
        if !sorted {
            return Err(StakePoolError::BufferTooSmall);
        }
        let pool = StakePool {
            total_staked,
            total_msol,
            reward_rate,
            last_update_time,
            authority,
            msol_mint,
            linked_cards: cards,
        };
        proof {
            let v = spec_u64_from_le_bytes(s.subrange(24, 32));
            assert(((v as i64) as u64) == v) by (bit_vector);
            assert(pool@ =~= spec_pool_decoded(s)->Ok_0);
            lemma_decoded_within(s, CARDS_ENTRIES_OFFSET as int, count as nat);
            lemma_cards_encoded_len(pool@.linked_cards);
            assert(pool.wf());
        }
        Ok(pool)
    }
}

/// The accounted size of decoded entries is the space they were read from.
proof fn lemma_decoded_within(s: Seq<u8>, off: int, n: nat)
    requires
        spec_cards_decoded(s, off, n) is Some,
        0 <= off,
        s.len() >= POOL_RECORD_LEN,
    ensures
        ({
            let (cards, end) = spec_cards_decoded(s, off, n)->Some_0;
            &&& cards_encoded_len(cards) == end - off
            &&& end <= POOL_RECORD_LEN || n == 0
            &&& cards.len() == n
            &&& forall|i: int| 0 <= i < cards.len() ==> (#[trigger] cards[i]).key.len()
                == IDENTITY_LEN
        }),
    decreases n,
{
    if n > 0 {
        let id_len = spec_u32_from_le_bytes(s.subrange(off + 32, off + 36)) as int;
        lemma_decoded_within(s, off + CARD_ENTRY_OVERHEAD + id_len, (n - 1) as nat);
        let (cards, end) = spec_cards_decoded(s, off, n)->Some_0;
        let (rest, end2) = spec_cards_decoded(s, off + CARD_ENTRY_OVERHEAD + id_len,
            (n - 1) as nat)->Some_0;
        assert(cards[0].key == s.subrange(off, off + 32));
        assert(cards[0].info.card_id == s.subrange(off + 36, off + 36 + id_len));
        assert(cards.drop_first() =~= rest);
        assert(entry_encoded_len(cards[0]) == CARD_ENTRY_OVERHEAD + id_len);
        assert(cards_encoded_len(cards) == entry_encoded_len(cards[0])
            + cards_encoded_len(rest));
        if n == 1 {
            assert(end == off + CARD_ENTRY_OVERHEAD + id_len);
            assert(end <= POOL_RECORD_LEN);
        }
        assert(forall|i: int| 1 <= i < cards.len() ==> cards[i] == rest[i - 1]);
    }
}

/// Splitting the registry's wire form off its last entry.
proof fn lemma_cards_encoded_snoc(cards: Seq<CardEntryModel>)
    requires
        cards.len() > 0,
    ensures
        cards_encoded(cards) == cards_encoded(cards.drop_last()) + entry_encoded(cards.last()),
    decreases cards.len(),
{
    if cards.len() == 1 {
        assert(cards.drop_last() =~= Seq::empty());
        assert(cards_encoded(cards.drop_last()) =~= Seq::empty());
        assert(cards.drop_first() =~= Seq::empty());
        assert(cards_encoded(cards) =~= entry_encoded(cards[0]) + Seq::empty());
        assert(cards_encoded(cards) =~= cards_encoded(cards.drop_last())
            + entry_encoded(cards.last()));
    } else {
        lemma_cards_encoded_snoc(cards.drop_first());
        assert(cards.drop_first().drop_last() =~= cards.drop_last().drop_first());
        assert(cards.drop_first().last() == cards.last());
        assert(cards.drop_last()[0] == cards[0]);
        assert(cards_encoded(cards.drop_last()) == entry_encoded(cards[0])
            + cards_encoded(cards.drop_last().drop_first()));
        assert(cards_encoded(cards) =~= cards_encoded(cards.drop_last())
            + entry_encoded(cards.last()));
    }
}

/// One entry's accounted size and key length, for the serializer's loop.
proof fn lemma_entry_bounds(cards: Seq<CardEntryModel>, i: int)
    requires
        0 <= i < cards.len(),
        cards_sorted(cards),
        cards_encoded_len(cards) <= CARDS_CAPACITY,
    ensures
        cards[i].key.len() == IDENTITY_LEN,
        cards[i].info.card_id.len() <= CARDS_CAPACITY,
        entry_encoded_len(cards[i]) <= CARDS_CAPACITY,
{
    lemma_cards_encoded_len_parts(cards);
}

/// Copies `src` over the front of `data`, leaving the tail unchanged.
fn write_prefix(data: &mut Vec<u8>, src: &Vec<u8>)
    requires
        src@.len() <= old(data)@.len(),
    ensures
        final(data)@.len() == old(data)@.len(),
        final(data)@ == src@ + old(data)@.skip(src@.len() as int),
{
    let n = src.len();
    let mut i: usize = 0;
    while i < n
        invariant
            n == src@.len(),
            0 <= i <= n,
            n <= data@.len(),
            data@.len() == old(data)@.len(),
            data@ == src@.take(i as int) + old(data)@.skip(i as int),
        decreases n - i,
    {
        let b = src[i];
        let slot = vstd::std_specs::vec::vec_index_mut(data, i);
        *slot = b;
        proof {
            assert(data@ =~= src@.take(i + 1) + old(data)@.skip(i + 1));
        }
        i = i + 1;
    }
    proof {
        assert(src@.take(n as int) =~= src@);
        assert(data@ =~= src@ + old(data)@.skip(n as int));
    }
}

/// Checks that entry keys are strictly ascending.
fn check_sorted(cards: &Vec<CardEntry>) -> (r: bool)
    requires
        forall|k: int| 0 <= k < cards@.len() ==> (#[trigger] cards@[k])@.key.len()
            == IDENTITY_LEN,
    ensures
        r == cards_sorted(entries_view(cards@)),
{
    let n = cards.len();
    let ghost view = entries_view(cards@);
    proof {
        assert(forall|k: int| 0 <= k < n ==> (#[trigger] view[k]) == cards@[k]@);
    }
    if n == 0 {
        return true;
    }
    let mut i: usize = 0;
    while i < n - 1
        invariant
            n == cards@.len(),
            n >= 1,
            0 <= i <= n - 1,
            view == entries_view(cards@),
            forall|k: int| 0 <= k < n ==> (#[trigger] view[k]) == cards@[k]@,
            forall|k: int| 0 <= k < n ==> (#[trigger] view[k]).key.len() == IDENTITY_LEN,
            forall|k: int| 0 <= k < i ==> #[trigger] lex_lt(view[k].key, view[k + 1].key),
        decreases n - i,
    {
        if !cards[i].key.lt(&cards[i + 1].key) {
            proof {
                assert(!lex_lt(view[i as int].key, view[i as int + 1].key));
                assert(!cards_sorted(view));
            }
            return false;
        }
        i = i + 1;
    }
    proof {
        lemma_adjacent_sorted(view);
    }
    true
}

/// Strict order between each neighbour gives strict order overall.
proof fn lemma_adjacent_sorted(cards: Seq<CardEntryModel>)
    requires
        forall|k: int| 0 <= k < cards.len() ==> (#[trigger] cards[k]).key.len() == IDENTITY_LEN,
        forall|k: int| 0 <= k < cards.len() - 1 ==> #[trigger] lex_lt(cards[k].key,
            cards[k + 1].key),
    ensures
        cards_sorted(cards),
{
    assert forall|i: int, j: int| 0 <= i < j < cards.len() implies lex_lt(
        (#[trigger] cards[i]).key, (#[trigger] cards[j]).key) by {
        lemma_chain(cards, i, j);
    }
}

/// Order propagates along the chain of neighbours.
proof fn lemma_chain(cards: Seq<CardEntryModel>, i: int, j: int)
    requires
        forall|k: int| 0 <= k < cards.len() - 1 ==> #[trigger] lex_lt(cards[k].key,
            cards[k + 1].key),
        0 <= i < j < cards.len(),
    ensures
        lex_lt(cards[i].key, cards[j].key),
    decreases j - i,
{
    if j == i + 1 {
    } else {
        lemma_chain(cards, i, j - 1);
        assert(lex_lt(cards[j - 1].key, cards[(j - 1) + 1].key));
        lemma_lex_trans(cards[i].key, cards[j - 1].key, cards[j].key);
    }
}


/// Decoding an entry run written by the encoder recovers the entries.
proof fn lemma_cards_decode_encode(s: Seq<u8>, off: int, cards: Seq<CardEntryModel>)
    requires
        0 <= off,
        off + cards_encoded_len(cards) <= POOL_RECORD_LEN,
        s.len() >= POOL_RECORD_LEN,
        forall|i: int| 0 <= i < cards.len() ==> (#[trigger] cards[i]).key.len() == IDENTITY_LEN,
        s.subrange(off, off + cards_encoded_len(cards)) == cards_encoded(cards),
    ensures
        spec_cards_decoded(s, off, cards.len()) == Some(
            (cards, off + cards_encoded_len(cards)),
        ),
    decreases cards.len(),
{
    lemma_auto_spec_u32_to_from_le_bytes();
    lemma_auto_spec_u64_to_from_le_bytes();
    lemma_cards_encoded_len(cards);
    lemma_cards_encoded_len_parts(cards);
    if cards.len() > 0 {
        let e = cards[0];
        let id_len = e.info.card_id.len() as int;
        let elen = entry_encoded_len(e);
        let enc = entry_encoded(e);
        let rest = cards.drop_first();
        let cel = cards_encoded_len(cards);
        let cel_rest = cards_encoded_len(rest);
        lemma_i64_le_bytes_round_trip(e.info.linked_at);
        assert(enc.len() == elen);
        assert(cel == elen + cel_rest);
        assert(forall|i: int| 0 <= i < rest.len() ==> rest[i] == cards[i + 1]);
        lemma_cards_encoded_len(rest);
        assert(s.subrange(off, off + cel) == entry_encoded(e) + cards_encoded(rest));
        assert forall|k: int| 0 <= k < elen implies s[off + k] == enc[k] by {
            assert(s.subrange(off, off + cel)[k] == s[off + k]);
        }
        let u32b = spec_u32_to_le_bytes(e.info.card_id.len() as u32);
        let idb = e.info.card_id;
        let stb = seq![status_byte(e.info.status)];
        let i64b = spec_i64_to_le_bytes(e.info.linked_at);
        assert(u32b.len() == 4 && stb.len() == 1 && i64b.len() == 8 && e.key.len() == 32);
        assert(enc == e.key + u32b + idb + stb + i64b);
        assert forall|k: int| 0 <= k < elen implies enc[k] == (if k < 32 {
            e.key[k]
        } else if k < 36 {
            u32b[k - 32]
        } else if k < 36 + id_len {
            idb[k - 36]
        } else if k == 36 + id_len {
            stb[0]
        } else {
            i64b[k - 37 - id_len]
        }) by {
            assert(enc[k] == (e.key + u32b + idb + stb + i64b)[k]);
        }
        assert(s.subrange(off, off + 32) =~= e.key);
        assert forall|j: int| 0 <= j < 4 implies s.subrange(off + 32, off + 36)[j]
            == u32b[j] by {
            assert(s.subrange(off + 32, off + 36)[j] == s[off + 32 + j]);
            assert(s[off + (32 + j)] == enc[32 + j]);
            assert(off + 32 + j == off + (32 + j));
        }
        assert(s.subrange(off + 32, off + 36) =~= u32b);
        assert(spec_u32_from_le_bytes(s.subrange(off + 32, off + 36))
            == e.info.card_id.len() as u32);
        assert(spec_u32_from_le_bytes(s.subrange(off + 32, off + 36)) as int == id_len);
        assert forall|j: int| 0 <= j < id_len implies s.subrange(off + 36, off + 36 + id_len)[j]
            == idb[j] by {
            assert(s.subrange(off + 36, off + 36 + id_len)[j] == s[off + 36 + j]);
            assert(s[off + (36 + j)] == enc[36 + j]);
            assert(off + 36 + j == off + (36 + j));
        }
        assert(s.subrange(off + 36, off + 36 + id_len) =~= idb);
        assert(s[off + 36 + id_len] == status_byte(e.info.status)) by {
            assert(s[off + (36 + id_len)] == enc[36 + id_len]);
        }
        assert forall|j: int| 0 <= j < 8 implies s.subrange(off + 37 + id_len,
            off + 45 + id_len)[j] == i64b[j] by {
            assert(s.subrange(off + 37 + id_len, off + 45 + id_len)[j]
                == s[off + 37 + id_len + j]);
            assert(s[off + (37 + id_len + j)] == enc[37 + id_len + j]);
            assert(off + 37 + id_len + j == off + (37 + id_len + j));
        }
        assert(s.subrange(off + 37 + id_len, off + 45 + id_len) =~= i64b);
        assert forall|k: int| 0 <= k < cel_rest implies s[off + elen + k]
            == cards_encoded(rest)[k] by {
            assert(s.subrange(off, off + cel)[elen + k] == s[off + elen + k]);
        }
        assert(s.subrange(off + elen, off + elen + cel_rest) =~= cards_encoded(rest));
        lemma_cards_decode_encode(s, off + elen, rest);
        let sb = s[off + 36 + id_len];
        let decoded = CardEntryModel {
            key: s.subrange(off, off + 32),
            info: CardModel {
                card_id: s.subrange(off + 36, off + 36 + id_len),
                status: if sb == 0 { CardStatus::Linked } else { CardStatus::Unlinked },
                linked_at: spec_i64_from_le_bytes(s.subrange(off + 37 + id_len,
                    off + 45 + id_len)),
            },
        };
        assert(decoded =~= e);
        let (rest_dec, end) = spec_cards_decoded(s, off + elen, rest.len())->Some_0;
        assert(seq![decoded] + rest_dec =~= cards);
    }
}

/// Law: decoding an encoded record gives the record back, for every
/// well-formed record and any padding that fills the buffer out to the
/// fixed record length.
pub proof fn lemma_codec_round_trip(m: PoolModel, tail: Seq<u8>)
    requires
        m.wf(),
        pool_encoded(m).len() + tail.len() >= POOL_RECORD_LEN,
    ensures
        spec_pool_decoded(pool_encoded(m) + tail) == Ok::<PoolModel, StakePoolError>(m),
{
    lemma_auto_spec_u32_to_from_le_bytes();
    lemma_auto_spec_u64_to_from_le_bytes();
    lemma_i64_le_bytes_round_trip(m.last_update_time);
    lemma_cards_encoded_len(m.linked_cards);
    lemma_cards_count_bound(m.linked_cards);
    let cards = m.linked_cards;
    let cel = cards_encoded_len(cards);
    let s = pool_encoded(m) + tail;
    let enc = pool_encoded(m);
    assert(enc.len() == CARDS_ENTRIES_OFFSET + cel);
    assert(cards.len() <= 22) by (nonlinear_arith)
        requires
            cards.len() * CARD_ENTRY_OVERHEAD <= cel,
            cel <= CARDS_CAPACITY,
            CARD_ENTRY_OVERHEAD == 45,
            CARDS_CAPACITY == 996,
    ;
    assert forall|k: int| 0 <= k < enc.len() implies s[k] == enc[k] by {}
    assert(s.subrange(0, 8) =~= spec_u64_to_le_bytes(m.total_staked));
    assert(s.subrange(8, 16) =~= spec_u64_to_le_bytes(m.total_msol));
    assert(s.subrange(16, 24) =~= spec_u64_to_le_bytes(m.reward_rate));
    assert(s.subrange(24, 32) =~= spec_i64_to_le_bytes(m.last_update_time));
    assert(s.subrange(32, 64) =~= m.authority);
    assert(s.subrange(64, 96) =~= m.msol_mint);
    assert(s.subrange(96, 100) =~= spec_u32_to_le_bytes(cards.len() as u32));
    assert(spec_u32_from_le_bytes(s.subrange(96, 100)) == cards.len() as u32);
    assert(s.subrange(CARDS_ENTRIES_OFFSET as int, CARDS_ENTRIES_OFFSET + cel)
        =~= cards_encoded(cards));
    lemma_cards_decode_encode(s, CARDS_ENTRIES_OFFSET as int, cards);
    assert(spec_cards_decoded(s, CARDS_ENTRIES_OFFSET as int,
        spec_u32_from_le_bytes(s.subrange(96, 100)) as nat) == Some(
        (cards, CARDS_ENTRIES_OFFSET + cel)));
    assert(spec_pool_decoded(s)->Ok_0 =~= m);
}

} // verus!
