//! Lexicographic order over byte sequences, and its basic laws.

use vstd::prelude::*;

verus! {

/// Lexicographic order: the sequence with the smaller byte at the first
/// differing position comes first; a proper prefix comes before any
/// extension of it.
pub open spec fn lex_lt(a: Seq<u8>, b: Seq<u8>) -> bool
    decreases a.len(),
{
    if b.len() == 0 {
        false
    } else if a.len() == 0 {
        true
    } else if a[0] != b[0] {
        a[0] < b[0]
    } else {
        lex_lt(a.subrange(1, a.len() as int), b.subrange(1, b.len() as int))
    }
}

/// Lexicographic order over characters, code point by code point.
pub open spec fn lex_lt_chars(a: Seq<char>, b: Seq<char>) -> bool
    decreases a.len(),
{
    if b.len() == 0 {
        false
    } else if a.len() == 0 {
        true
    } else if a[0] != b[0] {
        a[0] < b[0]
    } else {
        lex_lt_chars(a.subrange(1, a.len() as int), b.subrange(1, b.len() as int))
    }
}

/// Byte sequences of equal length compare exactly as the character
/// sequences made of their values do.
pub proof fn lemma_lex_chars_of_bytes(a: Seq<u8>, b: Seq<u8>)
    requires
        a.len() == b.len(),
    ensures
        lex_lt_chars(a.map_values(|c: u8| c as char), b.map_values(|c: u8| c as char)) <==> lex_lt(
            a,
            b,
        ),
    decreases a.len(),
{
    let ca = a.map_values(|c: u8| c as char);
    let cb = b.map_values(|c: u8| c as char);
    if a.len() == 0 || b.len() == 0 {
    } else if a[0] != b[0] {
        assert(ca[0] == a[0] as char && cb[0] == b[0] as char);
    } else {
        let a1 = a.subrange(1, a.len() as int);
        let b1 = b.subrange(1, b.len() as int);
        lemma_lex_chars_of_bytes(a1, b1);
        assert(a1.map_values(|c: u8| c as char) =~= ca.subrange(1, ca.len() as int));
        assert(b1.map_values(|c: u8| c as char) =~= cb.subrange(1, cb.len() as int));
    }
}

/// Sequences of equal length that agree before position `k` and differ
/// there compare by the bytes at `k`.
pub proof fn lemma_lex_from_diff(a: Seq<u8>, b: Seq<u8>, k: int)
    requires
        a.len() == b.len(),
        0 <= k < a.len(),
        forall|j: int| 0 <= j < k ==> a[j] == b[j],
        a[k] < b[k],
    ensures
        lex_lt(a, b),
    decreases k,
{
    if k == 0 {
    } else {
        let a1 = a.subrange(1, a.len() as int);
        let b1 = b.subrange(1, b.len() as int);
        lemma_lex_from_diff(a1, b1, k - 1);
    }
}

/// No sequence comes before itself.
pub proof fn lemma_lex_irrefl(a: Seq<u8>)
    ensures
        !lex_lt(a, a),
    decreases a.len(),
{
    if a.len() > 0 {
        lemma_lex_irrefl(a.subrange(1, a.len() as int));
    }
}

/// For sequences of equal length the order is asymmetric.
pub proof fn lemma_lex_asym(a: Seq<u8>, b: Seq<u8>)
    requires
        a.len() == b.len(),
        lex_lt(a, b),
    ensures
        !lex_lt(b, a),
    decreases a.len(),
{
    if a.len() > 0 && a[0] == b[0] {
        lemma_lex_asym(a.subrange(1, a.len() as int), b.subrange(1, b.len() as int));
    }
}

/// Sequences of equal length are ordered one way or the other, or equal.
pub proof fn lemma_lex_trichotomy(a: Seq<u8>, b: Seq<u8>)
    requires
        a.len() == b.len(),
    ensures
        lex_lt(a, b) || lex_lt(b, a) || a =~= b,
    decreases a.len(),
{
    if a.len() == 0 {
        assert(a =~= b);
    } else if a[0] == b[0] {
        let a1 = a.subrange(1, a.len() as int);
        let b1 = b.subrange(1, b.len() as int);
        lemma_lex_trichotomy(a1, b1);
        if !lex_lt(a1, b1) && !lex_lt(b1, a1) {
            assert(forall|i: int| 1 <= i < a.len() ==> a[i] == a1[i - 1] && b[i] == b1[i - 1]);
            assert(a =~= b);
        }
    }
}

/// For sequences of equal length, order means a first differing position
/// whose bytes compare accordingly.
pub proof fn lemma_lex_first_diff(a: Seq<u8>, b: Seq<u8>)
    requires
        a.len() == b.len(),
        lex_lt(a, b),
    ensures
        exists|k: int|
            0 <= k < a.len() && a[k] < b[k] && (forall|j: int| 0 <= j < k ==> a[j] == b[j]),
    decreases a.len(),
{
    if a.len() == 0 {
    } else if a[0] != b[0] {
        assert(0 <= 0 < a.len() && a[0] < b[0] && (forall|j: int| 0 <= j < 0 ==> a[j] == b[j]));
    } else {
        let a1 = a.subrange(1, a.len() as int);
        let b1 = b.subrange(1, b.len() as int);
        lemma_lex_first_diff(a1, b1);
        let k1 = choose|k: int|
            0 <= k < a1.len() && a1[k] < b1[k] && (forall|j: int| 0 <= j < k ==> a1[j] == b1[j]);
        assert(a[k1 + 1] == a1[k1] && b[k1 + 1] == b1[k1]);
        assert(forall|j: int| 0 <= j < k1 + 1 ==> a[j] == b[j]) by {
            assert(forall|j: int| 1 <= j < k1 + 1 ==> a[j] == a1[j - 1] && b[j] == b1[j - 1]);
        }
        assert(0 <= k1 + 1 < a.len() && a[k1 + 1] < b[k1 + 1] && (forall|j: int|
            0 <= j < k1 + 1 ==> a[j] == b[j]));
    }
}

} // verus!
