//! The order of strings by their bytes, which is the order of `str`.

use vstd::prelude::*;
use vstd::utf8::{encode_utf8, encode_utf8_decode_utf8};

verus! {

/// `a` comes before `b` in the lexicographic order of byte sequences: at the
/// first place where they differ `a` has the smaller byte, or `a` ends there
/// and `b` goes on.
pub open spec fn lex_lt(a: Seq<u8>, b: Seq<u8>) -> bool {
    exists|k: int| #[trigger] differs_at(a, b, k)
}

/// `a` and `b` agree before place `k`, where `a` ends or has the smaller byte.
pub open spec fn differs_at(a: Seq<u8>, b: Seq<u8>, k: int) -> bool {
    &&& 0 <= k <= a.len()
    &&& k <= b.len()
    &&& forall|m: int| 0 <= m < k ==> a[m] == b[m]
    &&& (k == a.len() && k < b.len()) || (k < a.len() && k < b.len() && a[k] < b[k])
}

/// The order of texts: by the bytes of their UTF-8 encoding.
pub open spec fn text_lt(x: Seq<char>, y: Seq<char>) -> bool {
    lex_lt(encode_utf8(x), encode_utf8(y))
}

/// Nothing comes before itself.
pub proof fn lemma_lex_irreflexive(a: Seq<u8>)
    ensures
        !lex_lt(a, a),
{
}

/// The order is transitive.
pub proof fn lemma_lex_transitive(a: Seq<u8>, b: Seq<u8>, c: Seq<u8>)
    requires
        lex_lt(a, b),
        lex_lt(b, c),
    ensures
        lex_lt(a, c),
{
    let k1 = choose|k: int| #[trigger] differs_at(a, b, k);
    let k2 = choose|k: int| #[trigger] differs_at(b, c, k);
    let k = if k1 <= k2 {
        k1
    } else {
        k2
    };
    assert(differs_at(a, c, k));
}

/// Texts inherit both properties, and no two texts come before each other.
pub proof fn lemma_text_order(x: Seq<char>, y: Seq<char>, z: Seq<char>)
    ensures
        !text_lt(x, x),
        text_lt(x, y) && text_lt(y, z) ==> text_lt(x, z),
        !(text_lt(x, y) && text_lt(y, x)),
{
    if text_lt(x, y) && text_lt(y, z) {
        lemma_lex_transitive(encode_utf8(x), encode_utf8(y), encode_utf8(z));
    }
}

/// How one text stands to another.
#[derive(Debug, Clone, Copy, PartialEq, Eq)]
pub enum Place {
    Before,
    Same,
    After,
}

/// Compares two strings as `str` orders them.
pub fn compare(a: &str, b: &str) -> (r: Place)
    ensures
        r == Place::Before <==> text_lt(a@, b@),
        r == Place::Same <==> a@ == b@,
        r == Place::After <==> text_lt(b@, a@),
{
    let x = a.as_bytes();
    let y = b.as_bytes();
    proof {
        encode_utf8_decode_utf8(a@);
        encode_utf8_decode_utf8(b@);
    }
    let mut i: usize = 0;
    while i < x.len() && i < y.len()
        invariant
            i <= x@.len(),
            i <= y@.len(),
            x@ == encode_utf8(a@),
            y@ == encode_utf8(b@),
            forall|m: int| 0 <= m < i ==> x@[m] == y@[m],
        decreases x.len() - i,
    {
        if x[i] < y[i] {
            assert(differs_at(x@, y@, i as int));
            return Place::Before;
        }
        if x[i] > y[i] {
            assert(differs_at(y@, x@, i as int));
            return Place::After;
        }
        i = i + 1;
    }
    if x.len() < y.len() {
        assert(differs_at(x@, y@, i as int));
        Place::Before
    } else if x.len() > y.len() {
        assert(differs_at(y@, x@, i as int));
        Place::After
    } else {
        assert(x@ =~= y@);
        Place::Same
    }
}

} // verus!
