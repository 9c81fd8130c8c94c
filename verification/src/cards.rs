//! The linked-card registry: per-depositor card records kept as a
//! key-sorted sequence of entries, iterated and serialized in ascending
//! key order. Entries are never removed; unlinking leaves a tombstone.

use vstd::prelude::*;
use crate::ids::{Identity, IDENTITY_LEN, lex_lt, lemma_lex_irrefl, lemma_lex_trichotomy,
    lemma_lex_trans};

verus! {

/// Whether a card record is active or a tombstone.
#[derive(Clone, Copy, Debug, PartialEq, Eq, Structural)]
pub enum CardStatus {
    Linked,
    Unlinked,
}

/// A linked payment instrument: the card identifier, the current status,
/// and the time of the last status change.
#[derive(Clone, Debug)]
pub struct CardInfo {
    pub card_id: Vec<u8>,
    pub status: CardStatus,
    pub linked_at: i64,
}

/// The mathematical value of a card record.
#[verifier::ext_equal]
pub ghost struct CardModel {
    pub card_id: Seq<u8>,
    pub status: CardStatus,
    pub linked_at: i64,
}

impl View for CardInfo {
    type V = CardModel;

    open spec fn view(&self) -> CardModel {
        CardModel { card_id: self.card_id@, status: self.status, linked_at: self.linked_at }
    }
}

impl PartialEq for CardInfo {
    fn eq(&self, other: &Self) -> (r: bool) {
        let r = self.card_id == other.card_id && self.status == other.status
            && self.linked_at == other.linked_at;
        proof {
            if r {
                assert(self.card_id@ =~= other.card_id@);
                assert(self@ =~= other@);
            }
        }
        r
    }
}

impl vstd::std_specs::cmp::PartialEqSpecImpl for CardInfo {
    open spec fn obeys_eq_spec() -> bool {
        true
    }

    open spec fn eq_spec(&self, other: &Self) -> bool {
        self@ == other@
    }
}

/// One registry slot: a depositor identity and that depositor's card.
#[derive(Clone, Debug)]
pub struct CardEntry {
    pub key: Identity,
    pub info: CardInfo,
}

/// The mathematical value of a registry slot.
#[verifier::ext_equal]
pub ghost struct CardEntryModel {
    pub key: Seq<u8>,
    pub info: CardModel,
}

impl View for CardEntry {
    type V = CardEntryModel;

    open spec fn view(&self) -> CardEntryModel {
        CardEntryModel { key: self.key@, info: self.info@ }
    }
}

impl PartialEq for CardEntry {
    fn eq(&self, other: &Self) -> (r: bool) {
        let r = self.key == other.key && self.info == other.info;
        proof {
            if r {
                assert(self@ =~= other@);
            }
        }
        r
    }
}

impl vstd::std_specs::cmp::PartialEqSpecImpl for CardEntry {
    open spec fn obeys_eq_spec() -> bool {
        true
    }

    open spec fn eq_spec(&self, other: &Self) -> bool {
        self@ == other@
    }
}

/// The registry as a sequence of mathematical entries.
pub open spec fn entries_view(v: Seq<CardEntry>) -> Seq<CardEntryModel> {
    v.map_values(|e: CardEntry| e@)
}

/// Keys are 32 bytes long and strictly ascending: no duplicates, and
/// iteration order is key order.
pub open spec fn cards_sorted(cards: Seq<CardEntryModel>) -> bool {
    &&& forall|i: int| 0 <= i < cards.len() ==> (#[trigger] cards[i].key).len() == IDENTITY_LEN
    &&& forall|i: int, j: int|
        0 <= i < j < cards.len() ==> lex_lt(#[trigger] cards[i].key, #[trigger] cards[j].key)
}

/// The index of the entry with the given key, or -1 when absent.
pub open spec fn find_key_idx(cards: Seq<CardEntryModel>, key: Seq<u8>) -> int
    decreases cards.len(),
{
    if cards.len() == 0 {
        -1
    } else if cards[0].key == key {
        0
    } else {
        let r = find_key_idx(cards.drop_first(), key);
        if r < 0 {
            -1
        } else {
            r + 1
        }
    }
}

/// The card recorded for the given key, if any.
pub open spec fn cards_lookup(cards: Seq<CardEntryModel>, key: Seq<u8>) -> Option<CardModel> {
    let i = find_key_idx(cards, key);
    if i >= 0 {
        Some(cards[i].info)
    } else {
        None
    }
}

/// Where a fresh key belongs: just after the entries whose keys precede it.
pub open spec fn insert_pos(cards: Seq<CardEntryModel>, key: Seq<u8>) -> int
    decreases cards.len(),
{
    if cards.len() == 0 {
        0
    } else if lex_lt(cards[0].key, key) {
        1 + insert_pos(cards.drop_first(), key)
    } else {
        0
    }
}

/// Inserts or replaces the card for the given key, keeping key order.
pub open spec fn cards_insert(
    cards: Seq<CardEntryModel>,
    key: Seq<u8>,
    info: CardModel,
) -> Seq<CardEntryModel> {
    let i = find_key_idx(cards, key);
    if i >= 0 {
        cards.update(i, CardEntryModel { key, info })
    } else {
        cards.insert(insert_pos(cards, key), CardEntryModel { key, info })
    }
}

/// `find_key_idx` either reports absence everywhere or the first match.
pub proof fn lemma_find_key_idx(cards: Seq<CardEntryModel>, key: Seq<u8>)
    ensures
        ({
            let r = find_key_idx(cards, key);
            ||| (r == -1 && forall|i: int| 0 <= i < cards.len() ==> (#[trigger] cards[i]).key
                != key)
            ||| (0 <= r < cards.len() && cards[r].key == key && forall|i: int|
                0 <= i < r ==> (#[trigger] cards[i]).key != key)
        }),
    decreases cards.len(),
{
    if cards.len() > 0 && cards[0].key != key {
        lemma_find_key_idx(cards.drop_first(), key);
        assert(forall|i: int| 1 <= i < cards.len() ==> cards[i] == cards.drop_first()[i - 1]);
    }
}

/// `insert_pos` is the boundary between keys before and keys not before.
pub proof fn lemma_insert_pos(cards: Seq<CardEntryModel>, key: Seq<u8>)
    ensures
        ({
            let p = insert_pos(cards, key);
            &&& 0 <= p <= cards.len()
            &&& forall|i: int| 0 <= i < p ==> lex_lt((#[trigger] cards[i]).key, key)
            &&& (p < cards.len() && cards_sorted(cards) ==> !lex_lt(cards[p].key, key))
        }),
    decreases cards.len(),
{
    if cards.len() > 0 && lex_lt(cards[0].key, key) {
        lemma_insert_pos(cards.drop_first(), key);
        assert(forall|i: int| 1 <= i < cards.len() ==> cards[i] == cards.drop_first()[i - 1]);
        let p = insert_pos(cards, key);
        if p < cards.len() {
            assert(cards[p] == cards.drop_first()[p - 1]);
            if cards_sorted(cards) {
                assert(cards_sorted(cards.drop_first())) by {
                    assert(forall|i: int| 0 <= i < cards.drop_first().len()
                        ==> cards.drop_first()[i] == cards[i + 1]);
                }
            }
        }
    }
}

/// Insert keeps the registry sorted.
pub proof fn lemma_cards_insert_sorted(cards: Seq<CardEntryModel>, key: Seq<u8>, info: CardModel)
    requires
        cards_sorted(cards),
        key.len() == IDENTITY_LEN,
    ensures
        cards_sorted(cards_insert(cards, key, info)),
{
    let r = find_key_idx(cards, key);
    lemma_find_key_idx(cards, key);
    if r >= 0 {
        let after = cards.update(r, CardEntryModel { key, info });
        assert forall|i: int, j: int| 0 <= i < j < after.len() implies lex_lt(
            #[trigger] after[i].key, #[trigger] after[j].key) by {
            assert(lex_lt(cards[i].key, cards[j].key));
        }
    } else {
        let p = insert_pos(cards, key);
        lemma_insert_pos(cards, key);
        let after = cards.insert(p, CardEntryModel { key, info });
        assert forall|i: int, j: int| 0 <= i < j < after.len() implies lex_lt(
            #[trigger] after[i].key, #[trigger] after[j].key) by {
            if i == p {
                // after[i] is the new entry; after[j] == cards[j - 1] with j - 1 >= p.
                let cj = cards[j - 1];
                assert(!lex_lt(cj.key, key)) by {
                    if j - 1 > p {
                        assert(lex_lt(cards[p].key, cj.key));
                        if lex_lt(cj.key, key) {
                            lemma_lex_trans(cards[p].key, cj.key, key);
                        }
                    }
                }
                assert(cj.key != key);
                lemma_lex_trichotomy(key, cj.key);
            } else if j == p {
                assert(lex_lt(cards[i].key, key));
            } else if i < p && j > p {
                assert(lex_lt(cards[i].key, cards[j - 1].key));
            } else if i < p && j < p {
                assert(lex_lt(cards[i].key, cards[j].key));
            } else {
                assert(lex_lt(cards[i - 1].key, cards[j - 1].key));
            }
        }
    }
}

/// After an insert, looking up the inserted key finds the new card and
/// every other key reads as before.
pub proof fn lemma_cards_insert_lookup(
    cards: Seq<CardEntryModel>,
    key: Seq<u8>,
    info: CardModel,
    probe: Seq<u8>,
)
    requires
        cards_sorted(cards),
        key.len() == IDENTITY_LEN,
    ensures
        cards_lookup(cards_insert(cards, key, info), key) == Some(info),
        probe != key ==> cards_lookup(cards_insert(cards, key, info), probe)
            == cards_lookup(cards, probe),
{
    let r = find_key_idx(cards, key);
    lemma_find_key_idx(cards, key);
    let after = cards_insert(cards, key, info);
    lemma_find_key_idx(after, key);
    lemma_find_key_idx(after, probe);
    lemma_find_key_idx(cards, probe);
    lemma_cards_insert_sorted(cards, key, info);
    let ra = find_key_idx(after, key);
    // The inserted key is present in `after`, so the lookup hits some index,
    // and that index holds exactly the new entry because keys are unique.
    let at = if r >= 0 { r } else { insert_pos(cards, key) };
    if r < 0 {
        lemma_insert_pos(cards, key);
    }
    assert(after[at].key == key);
    assert(ra >= 0);
    assert(after[ra].key == key);
    lemma_sorted_unique(after, ra, at);
    if probe != key {
        let rp = find_key_idx(cards, probe);
        let rpa = find_key_idx(after, probe);
        let p = insert_pos(cards, key);
        if rp >= 0 {
            assert(cards[rp].key == probe);
            let shifted: int = if r >= 0 { rp } else if rp >= p { rp + 1 } else { rp };
            assert(after[shifted].key == probe && after[shifted].info == cards[rp].info) by {
                if r >= 0 {
                    assert(rp != r);
                }
            }
            assert(rpa >= 0);
            lemma_sorted_unique(after, rpa, shifted);
        } else {
            // A key absent before the insert stays absent after it.
            if rpa >= 0 {
                assert(after[rpa].key == probe);
                if r >= 0 {
                    assert(rpa != r);
                    assert(cards[rpa].key == probe);
                } else {
                    assert(rpa != p);
                    if rpa < p {
                        assert(cards[rpa].key == probe);
                    } else {
                        assert(cards[rpa - 1].key == probe);
                    }
                }
                assert(false);
            }
        }
    }
}

/// In a sorted registry two indices with the same key coincide.
pub proof fn lemma_sorted_unique(cards: Seq<CardEntryModel>, i: int, j: int)
    requires
        cards_sorted(cards),
        0 <= i < cards.len(),
        0 <= j < cards.len(),
        cards[i].key == cards[j].key,
    ensures
        i == j,
{
    if i < j {
        lemma_lex_irrefl(cards[i].key);
    }
    if j < i {
        lemma_lex_irrefl(cards[i].key);
    }
}

/// Inserts or replaces the card for `key`, keeping entries in ascending
/// key order.
pub fn card_map_insert(cards: &mut Vec<CardEntry>, key: Identity, info: CardInfo)
    requires
        cards_sorted(entries_view(old(cards)@)),
        key.wf(),
    ensures
        entries_view(final(cards)@) == cards_insert(
            entries_view(old(cards)@), key@, info@),
        cards_sorted(entries_view(final(cards)@)),
{
    let ghost orig = entries_view(cards@);
    let n = cards.len();
    let mut i: usize = 0;
    proof {
        assert forall|j: int| 0 <= j < n implies (#[trigger] cards@[j]).key@.len()
            == IDENTITY_LEN by {
            assert(entries_view(cards@)[j] == cards@[j]@);
            assert(entries_view(cards@)[j].key.len() == IDENTITY_LEN);
        }
    }
    while i < n && cards[i].key.lt(&key)
        invariant
            n == cards@.len(),
            0 <= i <= n,
            cards_sorted(entries_view(cards@)),
            key.wf(),
            entries_view(cards@) == orig,
            forall|j: int| 0 <= j < n ==> (#[trigger] cards@[j]).key@.len() == IDENTITY_LEN,
            forall|j: int| 0 <= j < i ==> lex_lt((#[trigger] orig[j]).key, key@),
        decreases n - i,
    {
        assert(orig[i as int].key == cards@[i as int]@.key);
        i = i + 1;
    }
    proof {
        lemma_insert_pos(orig, key@);
        lemma_find_key_idx(orig, key@);
        lemma_pos_determined(orig, key@, i as int);
    }
    if i < n && cards[i].key == key {
        proof {
            // A match at the boundary is the match the spec lookup finds.
            let r = find_key_idx(orig, key@);
            assert(orig[i as int].key == key@);
            assert(r >= 0);
            lemma_sorted_unique(orig, r, i as int);
        }
        let slot = vstd::std_specs::vec::vec_index_mut(cards, i);
        *slot = CardEntry { key, info };
        proof {
            assert(entries_view(cards@) =~= cards_insert(orig, key@, info@));
            lemma_cards_insert_sorted(orig, key@, info@);
        }
    } else {
        proof {
            // No entry before `i` matches, and none at or after `i` can:
            // the key at `i` is not below the new key and entries above it
            // are still larger.
            let r = find_key_idx(orig, key@);
            if r >= 0 {
                assert(orig[r].key == key@);
                if r < i as int {
                    lemma_lex_irrefl(key@);
                } else if r > i as int {
                    assert(lex_lt(orig[i as int].key, orig[r].key));
                    lemma_lex_trichotomy(orig[i as int].key, key@);
                    if lex_lt(key@, orig[i as int].key) {
                        lemma_lex_trans(key@, orig[i as int].key, orig[r].key);
                        lemma_lex_irrefl(key@);
                    }
                }
            }
        }
        cards.insert(i, CardEntry { key, info });
        proof {
            assert(entries_view(cards@) =~= cards_insert(orig, key@, info@));
            lemma_cards_insert_sorted(orig, key@, info@);
        }
    }
}

/// A boundary that the scan reaches is exactly the spec insert position.
proof fn lemma_pos_determined(cards: Seq<CardEntryModel>, key: Seq<u8>, i: int)
    requires
        0 <= i <= cards.len(),
        cards_sorted(cards),
        forall|j: int| 0 <= j < i ==> lex_lt((#[trigger] cards[j]).key, key),
        i < cards.len() ==> !lex_lt(cards[i].key, key),
    ensures
        insert_pos(cards, key) == i,
{
    lemma_insert_pos(cards, key);
    let p = insert_pos(cards, key);
    if p < i {
        assert(lex_lt(cards[p].key, key));
    }
    if p > i {
        assert(lex_lt(cards[i as int].key, key));
    }
}

/// Finds the card for `key`, with the spec lookup as its meaning.
pub fn card_map_find(cards: &Vec<CardEntry>, key: &Identity) -> (r: Option<usize>)
    requires
        cards_sorted(entries_view(cards@)),
        key.wf(),
    ensures
        match r {
            Some(i) => i < cards@.len() && find_key_idx(entries_view(cards@), key@) == i
                && cards@[i as int]@.key == key@
                && cards_lookup(entries_view(cards@), key@)
                    == Some(cards@[i as int]@.info),
            None => cards_lookup(entries_view(cards@), key@) is None,
        },
{
    let ghost orig = entries_view(cards@);
    let n = cards.len();
    let mut i: usize = 0;
    while i < n
        invariant
            n == cards@.len(),
            0 <= i <= n,
            cards_sorted(orig),
            orig == entries_view(cards@),
            key.wf(),
            forall|j: int| 0 <= j < i ==> (#[trigger] orig[j]).key != key@,
        decreases n - i,
    {
        if cards[i].key.eq(key) {
            proof {
                let r = find_key_idx(orig, key@);
                lemma_find_key_idx(orig, key@);
                assert(orig[i as int].key == key@);
                assert(r >= 0);
                lemma_sorted_unique(orig, r, i as int);
            }
            return Some(i);
        }
        assert(orig[i as int].key == cards@[i as int]@.key);
        i = i + 1;
    }
    proof {
        lemma_find_key_idx(orig, key@);
        let r = find_key_idx(orig, key@);
        if r >= 0 {
            assert(orig[r].key == key@);
        }
    }
    None
}

} // verus!
