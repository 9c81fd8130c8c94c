//! Principal identities: 32-byte addresses for accounts, programs, and
//! token mints, together with the lexicographic order that fixes the
//! iteration order of the linked-card registry.

use vstd::prelude::*;

verus! {

/// Number of bytes in an identity.
pub const IDENTITY_LEN: usize = 32;

/// A 32-byte principal identity: an account address, a program identity,
/// or a token-mint identity.
#[derive(Clone, Debug)]
pub struct Identity {
    pub bytes: Vec<u8>,
}

impl View for Identity {
    type V = Seq<u8>;

    open spec fn view(&self) -> Seq<u8> {
        self.bytes@
    }
}

impl PartialEq for Identity {
    fn eq(&self, other: &Self) -> (r: bool) {
        let r = self.bytes == other.bytes;
        proof {
            if r {
                assert(self@ =~= other@);
            }
        }
        r
    }
}

impl vstd::std_specs::cmp::PartialEqSpecImpl for Identity {
    open spec fn obeys_eq_spec() -> bool {
        true
    }

    open spec fn eq_spec(&self, other: &Self) -> bool {
        self@ == other@
    }
}

/// The all-zero identity, used as a placeholder before initialization.
pub open spec fn zero_identity() -> Seq<u8> {
    Seq::new(IDENTITY_LEN as nat, |i: int| 0u8)
}

/// Strict lexicographic order on byte sequences; on the equal-length keys
/// of the card registry this is plain dictionary order.
pub open spec fn lex_lt(a: Seq<u8>, b: Seq<u8>) -> bool
    decreases a.len(),
{
    if b.len() == 0 {
        false
    } else if a.len() == 0 {
        true
    } else if a[0] < b[0] {
        true
    } else if a[0] > b[0] {
        false
    } else {
        lex_lt(a.drop_first(), b.drop_first())
    }
}

pub proof fn lemma_lex_irrefl(a: Seq<u8>)
    ensures
        !lex_lt(a, a),
    decreases a.len(),
{
    if a.len() > 0 {
        lemma_lex_irrefl(a.drop_first());
    }
}

pub proof fn lemma_lex_trichotomy(a: Seq<u8>, b: Seq<u8>)
    requires
        a.len() == b.len(),
    ensures
        lex_lt(a, b) || lex_lt(b, a) || a == b,
    decreases a.len(),
{
    if a.len() > 0 && a[0] == b[0] {
        lemma_lex_trichotomy(a.drop_first(), b.drop_first());
        if !lex_lt(a, b) && !lex_lt(b, a) {
            assert(a.drop_first() == b.drop_first());
            assert forall|i: int| 0 <= i < a.len() implies a[i] == b[i] by {
                if i > 0 {
                    assert(a[i] == a.drop_first()[i - 1]);
                    assert(b[i] == b.drop_first()[i - 1]);
                }
            }
            assert(a =~= b);
        }
    }
}

pub proof fn lemma_lex_trans(a: Seq<u8>, b: Seq<u8>, c: Seq<u8>)
    requires
        lex_lt(a, b),
        lex_lt(b, c),
    ensures
        lex_lt(a, c),
    decreases a.len(),
{
    if a.len() > 0 && b.len() > 0 && c.len() > 0 && a[0] == b[0] && b[0] == c[0] {
        lemma_lex_trans(a.drop_first(), b.drop_first(), c.drop_first());
    }
}

impl Identity {
    /// A well-formed identity holds exactly 32 bytes.
    pub open spec fn wf(&self) -> bool {
        self@.len() == IDENTITY_LEN
    }

    /// The all-zero identity.
    pub fn zero() -> (r: Identity)
        ensures
            r.wf(),
            r@ == zero_identity(),
    {
        let bytes: Vec<u8> = vec![0u8; IDENTITY_LEN];
        proof {
            assert(bytes@ =~= zero_identity());
        }
        Identity { bytes }
    }

    /// Builds an identity from exactly 32 bytes.
    pub fn from_bytes(bytes: Vec<u8>) -> (r: Result<Identity, crate::errors::StakePoolError>)
        ensures
            bytes@.len() == IDENTITY_LEN <==> r is Ok,
            r is Ok ==> r->Ok_0@ == bytes@ && r->Ok_0.wf(),
            r is Err ==> r->Err_0 == crate::errors::StakePoolError::InvalidInstructionData,
    {
        if bytes.len() == IDENTITY_LEN {
            Ok(Identity { bytes })
        } else {
            Err(crate::errors::StakePoolError::InvalidInstructionData)
        }
    }

    /// An identical copy of this identity.
    pub fn dup(&self) -> (r: Identity)
        ensures
            r@ == self@,
    {
        Identity { bytes: vstd::slice::slice_to_vec(self.bytes.as_slice()) }
    }

    /// Compares two identities for strict lexicographic order.
    pub fn lt(&self, other: &Identity) -> (r: bool)
        requires
            self.wf(),
            other.wf(),
        ensures
            r == lex_lt(self@, other@),
    {
        let n = self.bytes.len();
        let mut i: usize = 0;
        while i < n
            invariant
                n == IDENTITY_LEN,
                self.wf(),
                other.wf(),
                0 <= i <= n,
                self@.subrange(0, i as int) == other@.subrange(0, i as int),
            decreases n - i,
        {
            let a = self.bytes[i];
            let b = other.bytes[i];
            if a < b {
                proof {
                    lemma_lex_prefix_decides(self@, other@, i as int);
                }
                return true;
            }
            if a > b {
                proof {
                    lemma_lex_prefix_decides(self@, other@, i as int);
                }
                return false;
            }
            proof {
                assert(self@.subrange(0, i + 1) =~= other@.subrange(0, i + 1));
            }
            i = i + 1;
        }
        proof {
            assert(self@.subrange(0, n as int) =~= self@);
            assert(other@.subrange(0, n as int) =~= other@);
            lemma_lex_irrefl(self@);
        }
        false
    }
}

/// If two equal-length sequences agree before position `i` and differ at
/// `i`, the byte at `i` decides their lexicographic order.
proof fn lemma_lex_prefix_decides(a: Seq<u8>, b: Seq<u8>, i: int)
    requires
        a.len() == b.len(),
        0 <= i < a.len(),
        a.subrange(0, i) == b.subrange(0, i),
        a[i] != b[i],
    ensures
        lex_lt(a, b) == (a[i] < b[i]),
    decreases i,
{
    if i == 0 {
    } else {
        assert(a[0] == a.subrange(0, i)[0]);
        assert(b[0] == b.subrange(0, i)[0]);
        assert(a.drop_first().subrange(0, i - 1) =~= a.subrange(0, i).drop_first());
        assert(b.drop_first().subrange(0, i - 1) =~= b.subrange(0, i).drop_first());
        assert(a.drop_first()[i - 1] == a[i]);
        assert(b.drop_first()[i - 1] == b[i]);
        lemma_lex_prefix_decides(a.drop_first(), b.drop_first(), i - 1);
    }
}

} // verus!
