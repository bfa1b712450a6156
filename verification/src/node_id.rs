//! Node identifiers: equality and the order that breaks routing ties.
//!
//! A node identifier is a string. Its model is the sequence of its
//! characters; two identifiers are ordered as Rust orders strings, byte by
//! byte over their UTF-8 encodings.

use vstd::prelude::*;
use vstd::utf8::*;

verus! {

/// The model of a node identifier.
pub type NodeIdView = Seq<char>;

/// Lexicographic "strictly before" on byte sequences, looking only at
/// positions `i` and later.
pub open spec fn bytes_before_from(a: Seq<u8>, b: Seq<u8>, i: int) -> bool
    decreases a.len() - i,
{
    if i < 0 || i >= b.len() {
        false
    } else if i >= a.len() {
        true
    } else if a[i] != b[i] {
        a[i] < b[i]
    } else {
        bytes_before_from(a, b, i + 1)
    }
}

/// Lexicographic "strictly before" on byte sequences.
pub open spec fn bytes_before(a: Seq<u8>, b: Seq<u8>) -> bool {
    bytes_before_from(a, b, 0)
}

/// `a` sorts strictly before `b`, as `a < b` does on Rust strings.
pub open spec fn id_before(a: NodeIdView, b: NodeIdView) -> bool {
    bytes_before(encode_utf8(a), encode_utf8(b))
}

proof fn lemma_bytes_irreflexive_from(a: Seq<u8>, i: int)
    requires
        0 <= i,
    ensures
        !bytes_before_from(a, a, i),
    decreases a.len() - i,
{
    if i < a.len() {
        lemma_bytes_irreflexive_from(a, i + 1);
    }
}

proof fn lemma_bytes_transitive_from(a: Seq<u8>, b: Seq<u8>, c: Seq<u8>, i: int)
    requires
        0 <= i,
        bytes_before_from(a, b, i),
        bytes_before_from(b, c, i),
    ensures
        bytes_before_from(a, c, i),
    decreases a.len() - i,
{
    if i < a.len() && a[i] == b[i] && b[i] == c[i] {
        lemma_bytes_transitive_from(a, b, c, i + 1);
    }
}

proof fn lemma_bytes_connected_from(a: Seq<u8>, b: Seq<u8>, i: int)
    requires
        0 <= i <= a.len(),
        i <= b.len(),
        forall|j: int| 0 <= j < i ==> a[j] == b[j],
    ensures
        a == b || bytes_before_from(a, b, i) || bytes_before_from(b, a, i),
    decreases a.len() - i,
{
    if i >= a.len() && i >= b.len() {
        assert(a =~= b);
    } else if i < a.len() && i < b.len() && a[i] == b[i] {
        lemma_bytes_connected_from(a, b, i + 1);
    }
}

/// No identifier sorts before itself.
pub proof fn lemma_id_before_irreflexive(a: NodeIdView)
    ensures
        !id_before(a, a),
{
    lemma_bytes_irreflexive_from(encode_utf8(a), 0);
}

/// The order on identifiers is transitive.
pub proof fn lemma_id_before_transitive(a: NodeIdView, b: NodeIdView, c: NodeIdView)
    requires
        id_before(a, b),
        id_before(b, c),
    ensures
        id_before(a, c),
{
    lemma_bytes_transitive_from(encode_utf8(a), encode_utf8(b), encode_utf8(c), 0);
}

/// Two different identifiers are always ordered one way or the other.
pub proof fn lemma_id_before_connected(a: NodeIdView, b: NodeIdView)
    ensures
        a == b || id_before(a, b) || id_before(b, a),
{
    lemma_bytes_connected_from(encode_utf8(a), encode_utf8(b), 0);
    if encode_utf8(a) == encode_utf8(b) {
        encode_utf8_decode_utf8(a);
        encode_utf8_decode_utf8(b);
    }
}

/// Whether two texts, identifiers or others, hold the same characters.
pub fn same_text(a: &str, b: &str) -> (same: bool)
    ensures
        same == (a@ == b@),
{
    let x = a.as_bytes();
    let y = b.as_bytes();
    proof {
        encode_utf8_decode_utf8(a@);
        encode_utf8_decode_utf8(b@);
    }
    if x.len() != y.len() {
        return false;
    }
    let mut i: usize = 0;
    while i < x.len()
        invariant
            i <= x.len(),
            x.len() == y.len(),
            forall|j: int| 0 <= j < i ==> x@[j] == y@[j],
            x@ == encode_utf8(a@),
            y@ == encode_utf8(b@),
            decode_utf8(encode_utf8(a@)) == a@,
            decode_utf8(encode_utf8(b@)) == b@,
        decreases x.len() - i,
    {
        if x[i] != y[i] {
            return false;
        }
        i += 1;
    }
    assert(x@ =~= y@);
    true
}

/// Whether `a` sorts strictly before `b`.
pub fn sorts_before(a: &str, b: &str) -> (before: bool)
    ensures
        before == id_before(a@, b@),
{
    let x = a.as_bytes();
    let y = b.as_bytes();
    let mut i: usize = 0;
    while i < x.len() && i < y.len()
        invariant
            i <= x.len(),
            i <= y.len(),
            x@ == encode_utf8(a@),
            y@ == encode_utf8(b@),
            id_before(a@, b@) == bytes_before_from(x@, y@, i as int),
        decreases x.len() - i,
    {
        if x[i] != y[i] {
            return x[i] < y[i];
        }
        i += 1;
    }
    i < y.len()
}

} // verus!
