//! Texts: optional strings and their values, and the order of texts by
//! their UTF-8 bytes, as a store with binary collation sorts them.

use vstd::prelude::*;

verus! {

/// The text behind an optional string.
pub open spec fn text_of(t: Option<String>) -> Option<Seq<char>> {
    match t {
        Some(s) => Some(s@),
        None => None,
    }
}

/// A copy of an optional string.
pub fn copy_text(t: &Option<String>) -> (r: Option<String>)
    ensures
        text_of(r) == text_of(*t),
{
    match t {
        Some(s) => Some(s.clone()),
        None => None,
    }
}

/// Strict lexicographic order of byte strings: at the first position where
/// the two differ `a` has the smaller byte, or `a` ends there and `b` goes on.
pub open spec fn bytes_precede(a: Seq<u8>, b: Seq<u8>) -> bool
    decreases a.len(),
{
    if b.len() == 0 {
        false
    } else if a.len() == 0 {
        true
    } else if a[0] != b[0] {
        a[0] < b[0]
    } else {
        bytes_precede(a.drop_first(), b.drop_first())
    }
}

/// No byte string precedes itself.
pub proof fn lemma_bytes_order_irreflexive(a: Seq<u8>)
    ensures
        !bytes_precede(a, a),
    decreases a.len(),
{
    if a.len() > 0 {
        lemma_bytes_order_irreflexive(a.drop_first());
    }
}

/// Of two byte strings either one precedes the other or they are equal, and
/// never both precede each other.
pub proof fn lemma_bytes_order_total(a: Seq<u8>, b: Seq<u8>)
    ensures
        bytes_precede(a, b) || bytes_precede(b, a) || a == b,
        !(bytes_precede(a, b) && bytes_precede(b, a)),
    decreases a.len(),
{
    if a.len() == 0 || b.len() == 0 {
        if a.len() == 0 && b.len() == 0 {
            assert(a =~= b);
        }
    } else {
        lemma_bytes_order_total(a.drop_first(), b.drop_first());
        if a[0] == b[0] && a.drop_first() == b.drop_first() {
            assert(a =~= seq![a[0]] + a.drop_first());
            assert(b =~= seq![b[0]] + b.drop_first());
        }
    }
}

/// The order of byte strings is transitive.
pub proof fn lemma_bytes_order_transitive(a: Seq<u8>, b: Seq<u8>, c: Seq<u8>)
    requires
        bytes_precede(a, b),
        bytes_precede(b, c),
    ensures
        bytes_precede(a, c),
    decreases a.len(),
{
    if a.len() > 0 && a[0] == b[0] && b[0] == c[0] {
        lemma_bytes_order_transitive(a.drop_first(), b.drop_first(), c.drop_first());
    }
}

/// The order of byte strings of one length, read off position by position
/// from `i` on: the first position where the two differ decides.
pub open spec fn differs_first_below(a: Seq<u8>, b: Seq<u8>, i: int) -> bool
    decreases a.len() - i,
{
    if i < 0 || i >= a.len() {
        false
    } else {
        a[i] < b[i] || (a[i] == b[i] && differs_first_below(a, b, i + 1))
    }
}

/// Byte strings of one length are ordered by the first position where they
/// differ.
pub proof fn lemma_bytes_order_by_position(a: Seq<u8>, b: Seq<u8>, i: int)
    requires
        a.len() == b.len(),
        0 <= i <= a.len(),
    ensures
        bytes_precede(a.skip(i), b.skip(i)) == differs_first_below(a, b, i),
    decreases a.len() - i,
{
    if i < a.len() {
        lemma_bytes_order_by_position(a, b, i + 1);
        assert(a.skip(i).drop_first() =~= a.skip(i + 1));
        assert(b.skip(i).drop_first() =~= b.skip(i + 1));
    }
}

/// Whether `a` comes strictly before `b` in the order of bytes.
pub fn bytes_before(a: &[u8], b: &[u8]) -> (r: bool)
    ensures
        r == bytes_precede(a@, b@),
{
    let mut i: usize = 0;
    proof {
        assert(a@.skip(0) =~= a@);
        assert(b@.skip(0) =~= b@);
    }
    while i < a.len() && i < b.len()
        invariant
            i <= a.len(),
            i <= b.len(),
            bytes_precede(a@, b@) == bytes_precede(a@.skip(i as int), b@.skip(i as int)),
        decreases a.len() - i,
    {
        proof {
            assert(a@.skip(i as int).drop_first() =~= a@.skip(i + 1));
            assert(b@.skip(i as int).drop_first() =~= b@.skip(i + 1));
        }
        if a[i] != b[i] {
            return a[i] < b[i];
        }
        i = i + 1;
    }
    a.len() < b.len()
}

/// The order of texts: that of their UTF-8 bytes.
pub open spec fn text_precedes(a: Seq<char>, b: Seq<char>) -> bool {
    bytes_precede(vstd::utf8::encode_utf8(a), vstd::utf8::encode_utf8(b))
}

/// Whether `a` comes strictly before `b` in the order of texts.
pub fn text_before(a: &str, b: &str) -> (r: bool)
    ensures
        r == text_precedes(a@, b@),
{
    bytes_before(a.as_bytes(), b.as_bytes())
}

} // verus!
