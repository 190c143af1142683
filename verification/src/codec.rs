//! The fixed-width textual codec: 96 bits packed into 20 five-bit symbols,
//! each symbol drawn from the alphabet `0123456789abcdefghijklmnopqrstuv`.

use vstd::prelude::*;

verus! {

use crate::order::lex_lt;
use crate::order::lemma_lex_from_diff;
use crate::order::lemma_lex_first_diff;
use crate::order::lemma_lex_asym;
use crate::order::lemma_lex_trichotomy;

/// The character of the 32-symbol alphabet for a 5-bit value: digits for
/// 0 through 9, lowercase letters for 10 through 31.
pub open spec fn alpha(v: u8) -> u8 {
    if v < 10 {
        (0x30 + v) as u8
    } else if v < 32 {
        (0x57 + v) as u8
    } else {
        0
    }
}

/// The inverse alphabet lookup: the 5-bit value of an alphabet character,
/// or the sentinel 0xFF for any byte outside the alphabet.
pub open spec fn dec_val(c: u8) -> u8 {
    if 0x30 <= c && c <= 0x39 {
        (c - 0x30) as u8
    } else if 0x61 <= c && c <= 0x76 {
        (c - 0x57) as u8
    } else {
        0xFF
    }
}

/// Looks up the alphabet character for a 5-bit value.
pub fn alphabet_char(v: u8) -> (c: u8)
    requires
        v < 32,
    ensures
        c == alpha(v),
{
    if v < 10 {
        0x30 + v
    } else {
        0x57 + v
    }
}

/// Looks up the 5-bit value of an alphabet character, or the sentinel 0xFF
/// for a byte outside the alphabet.
pub fn decode_char(c: u8) -> (v: u8)
    ensures
        v == dec_val(c),
{
    if 0x30 <= c && c <= 0x39 {
        c - 0x30
    } else if 0x61 <= c && c <= 0x76 {
        c - 0x57
    } else {
        0xFF
    }
}

/// The inverse lookup recovers every 5-bit value from its alphabet character.
pub proof fn lemma_alpha_inverse(v: u8)
    requires
        v < 32,
    ensures
        dec_val(alpha(v)) == v,
{
}

/// The alphabet is monotonic: characters compare as their 5-bit values do.
pub proof fn lemma_alpha_mono(v1: u8, v2: u8)
    requires
        v1 < 32,
        v2 < 32,
    ensures
        alpha(v1) < alpha(v2) <==> v1 < v2,
        alpha(v1) == alpha(v2) <==> v1 == v2,
{
}

/// Symbol `i` of the textual form: the `i`-th five-bit group of the 96-bit
/// string read most-significant-first, the last group padded with four
/// zero bits at its low end.
pub open spec fn sym(b: Seq<u8>, i: int) -> u8 {
    if i == 0 {
        b[0] >> 3
    } else if i == 1 {
        ((b[1] >> 6) & 0x1F) | ((b[0] << 2) & 0x1F)
    } else if i == 2 {
        (b[1] >> 1) & 0x1F
    } else if i == 3 {
        ((b[2] >> 4) & 0x1F) | ((b[1] << 4) & 0x1F)
    } else if i == 4 {
        (b[3] >> 7) | ((b[2] << 1) & 0x1F)
    } else if i == 5 {
        (b[3] >> 2) & 0x1F
    } else if i == 6 {
        (b[4] >> 5) | ((b[3] << 3) & 0x1F)
    } else if i == 7 {
        b[4] & 0x1F
    } else if i == 8 {
        b[5] >> 3
    } else if i == 9 {
        ((b[6] >> 6) & 0x1F) | ((b[5] << 2) & 0x1F)
    } else if i == 10 {
        (b[6] >> 1) & 0x1F
    } else if i == 11 {
        ((b[7] >> 4) & 0x1F) | ((b[6] << 4) & 0x1F)
    } else if i == 12 {
        (b[8] >> 7) | ((b[7] << 1) & 0x1F)
    } else if i == 13 {
        (b[8] >> 2) & 0x1F
    } else if i == 14 {
        (b[9] >> 5) | ((b[8] << 3) & 0x1F)
    } else if i == 15 {
        b[9] & 0x1F
    } else if i == 16 {
        b[10] >> 3
    } else if i == 17 {
        ((b[11] >> 6) & 0x1F) | ((b[10] << 2) & 0x1F)
    } else if i == 18 {
        (b[11] >> 1) & 0x1F
    } else {
        (b[11] << 4) & 0x1F
    }
}

/// The textual form of 12 bytes: 20 alphabet characters, one per five-bit
/// symbol.
pub open spec fn encode_seq(b: Seq<u8>) -> Seq<u8> {
    Seq::new(20, |i: int| alpha(sym(b, i)))
}

/// Byte `i` reassembled from the five-bit values of the 20 input
/// characters; a character outside the alphabet contributes the low bits
/// of the sentinel.
pub open spec fn dbyte(s: Seq<u8>, i: int) -> u8 {
    if i == 0 {
        (dec_val(s[0]) << 3) | (dec_val(s[1]) >> 2)
    } else if i == 1 {
        (dec_val(s[1]) << 6) | (dec_val(s[2]) << 1) | (dec_val(s[3]) >> 4)
    } else if i == 2 {
        (dec_val(s[3]) << 4) | (dec_val(s[4]) >> 1)
    } else if i == 3 {
        (dec_val(s[4]) << 7) | (dec_val(s[5]) << 2) | (dec_val(s[6]) >> 3)
    } else if i == 4 {
        (dec_val(s[6]) << 5) | dec_val(s[7])
    } else if i == 5 {
        (dec_val(s[8]) << 3) | (dec_val(s[9]) >> 2)
    } else if i == 6 {
        (dec_val(s[9]) << 6) | (dec_val(s[10]) << 1) | (dec_val(s[11]) >> 4)
    } else if i == 7 {
        (dec_val(s[11]) << 4) | (dec_val(s[12]) >> 1)
    } else if i == 8 {
        (dec_val(s[12]) << 7) | (dec_val(s[13]) << 2) | (dec_val(s[14]) >> 3)
    } else if i == 9 {
        (dec_val(s[14]) << 5) | dec_val(s[15])
    } else if i == 10 {
        (dec_val(s[16]) << 3) | (dec_val(s[17]) >> 2)
    } else {
        (dec_val(s[17]) << 6) | (dec_val(s[18]) << 1) | (dec_val(s[19]) >> 4)
    }
}

/// The 12 bytes reassembled from a 20-character textual form.
pub open spec fn decode_seq(s: Seq<u8>) -> Seq<u8> {
    Seq::new(12, |i: int| dbyte(s, i))
}

/// Every five-bit symbol is below 32.
pub proof fn lemma_sym_bound(b: Seq<u8>, i: int)
    requires
        0 <= i < 20,
    ensures
        sym(b, i) < 32,
{
    let b0 = b[0];
    let b1 = b[1];
    let b2 = b[2];
    let b3 = b[3];
    let b4 = b[4];
    let b5 = b[5];
    let b6 = b[6];
    let b7 = b[7];
    let b8 = b[8];
    let b9 = b[9];
    let b10 = b[10];
    let b11 = b[11];
    assert((b0 >> 3) < 32 && (((b1 >> 6) & 0x1F) | ((b0 << 2) & 0x1F)) < 32
        && ((b1 >> 1) & 0x1F) < 32 && ((((b2 >> 4) & 0x1F)) | ((b1 << 4) & 0x1F)) < 32
        && ((b3 >> 7) | ((b2 << 1) & 0x1F)) < 32 && ((b3 >> 2) & 0x1F) < 32
        && ((b4 >> 5) | ((b3 << 3) & 0x1F)) < 32 && (b4 & 0x1F) < 32 && (b5 >> 3) < 32
        && ((((b6 >> 6) & 0x1F)) | ((b5 << 2) & 0x1F)) < 32 && ((b6 >> 1) & 0x1F) < 32
        && ((((b7 >> 4) & 0x1F)) | ((b6 << 4) & 0x1F)) < 32 && ((b8 >> 7) | ((b7 << 1) & 0x1F))
        < 32 && ((b8 >> 2) & 0x1F) < 32 && ((b9 >> 5) | ((b8 << 3) & 0x1F)) < 32 && (b9 & 0x1F)
        < 32 && (b10 >> 3) < 32 && ((((b11 >> 6) & 0x1F)) | ((b10 << 2) & 0x1F)) < 32 && ((b11
        >> 1) & 0x1F) < 32 && ((b11 << 4) & 0x1F) < 32) by (bit_vector);
}

/// Round trip: decoding the textual form of any 12 bytes recovers them
/// exactly.
pub proof fn lemma_round_trip(b: Seq<u8>)
    requires
        b.len() == 12,
    ensures
        decode_seq(encode_seq(b)) == b,
{
    let e = encode_seq(b);
    assert forall|j: int| 0 <= j < 20 implies dec_val(e[j]) == sym(b, j) by {
        lemma_sym_bound(b, j);
        lemma_alpha_inverse(sym(b, j));
    }
    let b0 = b[0];
    let b1 = b[1];
    let b2 = b[2];
    let b3 = b[3];
    let b4 = b[4];
    let b5 = b[5];
    let b6 = b[6];
    let b7 = b[7];
    let b8 = b[8];
    let b9 = b[9];
    let b10 = b[10];
    let b11 = b[11];
    assert(((b0 >> 3) << 3) | ((((b1 >> 6) & 0x1F) | ((b0 << 2) & 0x1F)) >> 2) == b0)
        by (bit_vector);
    assert(((((b1 >> 6) & 0x1F) | ((b0 << 2) & 0x1F)) << 6) | (((b1 >> 1) & 0x1F) << 1) | ((((b2
        >> 4) & 0x1F) | ((b1 << 4) & 0x1F)) >> 4) == b1) by (bit_vector);
    assert(((((b2 >> 4) & 0x1F) | ((b1 << 4) & 0x1F)) << 4) | (((b3 >> 7) | ((b2 << 1) & 0x1F))
        >> 1) == b2) by (bit_vector);
    assert((((b3 >> 7) | ((b2 << 1) & 0x1F)) << 7) | (((b3 >> 2) & 0x1F) << 2) | (((b4 >> 5) | ((
    b3 << 3) & 0x1F)) >> 3) == b3) by (bit_vector);
    assert((((b4 >> 5) | ((b3 << 3) & 0x1F)) << 5) | (b4 & 0x1F) == b4) by (bit_vector);
    assert(((b5 >> 3) << 3) | ((((b6 >> 6) & 0x1F) | ((b5 << 2) & 0x1F)) >> 2) == b5)
        by (bit_vector);
    assert(((((b6 >> 6) & 0x1F) | ((b5 << 2) & 0x1F)) << 6) | (((b6 >> 1) & 0x1F) << 1) | ((((b7
        >> 4) & 0x1F) | ((b6 << 4) & 0x1F)) >> 4) == b6) by (bit_vector);
    assert(((((b7 >> 4) & 0x1F) | ((b6 << 4) & 0x1F)) << 4) | (((b8 >> 7) | ((b7 << 1) & 0x1F))
        >> 1) == b7) by (bit_vector);
    assert((((b8 >> 7) | ((b7 << 1) & 0x1F)) << 7) | (((b8 >> 2) & 0x1F) << 2) | (((b9 >> 5) | ((
    b8 << 3) & 0x1F)) >> 3) == b8) by (bit_vector);
    assert((((b9 >> 5) | ((b8 << 3) & 0x1F)) << 5) | (b9 & 0x1F) == b9) by (bit_vector);
    assert(((b10 >> 3) << 3) | ((((b11 >> 6) & 0x1F) | ((b10 << 2) & 0x1F)) >> 2) == b10)
        by (bit_vector);
    assert(((((b11 >> 6) & 0x1F) | ((b10 << 2) & 0x1F)) << 6) | (((b11 >> 1) & 0x1F) << 1) | (((
    b11 << 4) & 0x1F) >> 4) == b11) by (bit_vector);
    assert(decode_seq(encode_seq(b)) =~= b);
}

/// When the symbols agree before position `j` and differ there, the
/// textual forms compare by the symbols at `j`.
proof fn lemma_enc_from_sym_diff(a: Seq<u8>, b: Seq<u8>, j: int)
    requires
        a.len() == 12,
        b.len() == 12,
        0 <= j < 20,
        forall|i: int| 0 <= i < j ==> sym(a, i) == sym(b, i),
        sym(a, j) < sym(b, j),
    ensures
        lex_lt(encode_seq(a), encode_seq(b)),
{
    let ea = encode_seq(a);
    let eb = encode_seq(b);
    lemma_sym_bound(a, j);
    lemma_sym_bound(b, j);
    lemma_alpha_mono(sym(a, j), sym(b, j));
    assert(forall|i: int| 0 <= i < j ==> ea[i] == eb[i]);
    lemma_lex_from_diff(ea, eb, j);
}

/// The codec is strictly monotonic: of two 12-byte values the smaller one
/// has the smaller textual form.
pub proof fn lemma_encode_lt(a: Seq<u8>, b: Seq<u8>)
    requires
        a.len() == 12,
        b.len() == 12,
        lex_lt(a, b),
    ensures
        lex_lt(encode_seq(a), encode_seq(b)),
{
    lemma_lex_first_diff(a, b);
    let k = choose|k: int|
        0 <= k < a.len() && a[k] < b[k] && (forall|j: int| 0 <= j < k ==> a[j] == b[j]);
    let a0 = a[0];
    let a1 = a[1];
    let a2 = a[2];
    let a3 = a[3];
    let a4 = a[4];
    let a5 = a[5];
    let a6 = a[6];
    let a7 = a[7];
    let a8 = a[8];
    let a9 = a[9];
    let a10 = a[10];
    let a11 = a[11];
    let b0 = b[0];
    let b1 = b[1];
    let b2 = b[2];
    let b3 = b[3];
    let b4 = b[4];
    let b5 = b[5];
    let b6 = b[6];
    let b7 = b[7];
    let b8 = b[8];
    let b9 = b[9];
    let b10 = b[10];
    let b11 = b[11];
    if k == 0 {
        assert((a0 >> 3 < b0 >> 3) || (a0 >> 3 == b0 >> 3 && (((a1 >> 6) & 0x1F) | ((a0 << 2)
            & 0x1F)) < (((b1 >> 6) & 0x1F) | ((b0 << 2) & 0x1F)))) by (bit_vector)
            requires
                a0 < b0,
        ;
        if sym(a, 0) < sym(b, 0) {
            lemma_enc_from_sym_diff(a, b, 0);
        } else {
            lemma_enc_from_sym_diff(a, b, 1);
        }
    } else if k == 1 {
        assert((((((a1 >> 6) & 0x1F) | ((a0 << 2) & 0x1F)) < (((b1 >> 6) & 0x1F) | ((b0 << 2)
            & 0x1F))) || ((((a1 >> 6) & 0x1F) | ((a0 << 2) & 0x1F)) == (((b1 >> 6) & 0x1F) | ((b0
            << 2) & 0x1F)) && (((a1 >> 1) & 0x1F) < ((b1 >> 1) & 0x1F) || (((a1 >> 1) & 0x1F) == ((
        b1 >> 1) & 0x1F) && (((a2 >> 4) & 0x1F) | ((a1 << 4) & 0x1F)) < (((b2 >> 4) & 0x1F) | ((b1
            << 4) & 0x1F))))))) by (bit_vector)
            requires
                a0 == b0,
                a1 < b1,
        ;
        assert(forall|i: int| 0 <= i < 1 ==> sym(a, i) == sym(b, i));
        if sym(a, 1) < sym(b, 1) {
            lemma_enc_from_sym_diff(a, b, 1);
        } else if sym(a, 2) < sym(b, 2) {
            lemma_enc_from_sym_diff(a, b, 2);
        } else {
            lemma_enc_from_sym_diff(a, b, 3);
        }
    } else if k == 2 {
        assert(((((a2 >> 4) & 0x1F) | ((a1 << 4) & 0x1F)) < (((b2 >> 4) & 0x1F) | ((b1 << 4)
            & 0x1F)) || ((((a2 >> 4) & 0x1F) | ((a1 << 4) & 0x1F)) == (((b2 >> 4) & 0x1F) | ((b1
            << 4) & 0x1F)) && ((a3 >> 7) | ((a2 << 1) & 0x1F)) < ((b3 >> 7) | ((b2 << 1)
            & 0x1F))))) by (bit_vector)
            requires
                a1 == b1,
                a2 < b2,
        ;
        assert(forall|i: int| 0 <= i < 3 ==> sym(a, i) == sym(b, i));
        if sym(a, 3) < sym(b, 3) {
            lemma_enc_from_sym_diff(a, b, 3);
        } else {
            lemma_enc_from_sym_diff(a, b, 4);
        }
    } else if k == 3 {
        assert((((a3 >> 7) | ((a2 << 1) & 0x1F)) < ((b3 >> 7) | ((b2 << 1) & 0x1F)) || (((a3 >> 7)
            | ((a2 << 1) & 0x1F)) == ((b3 >> 7) | ((b2 << 1) & 0x1F)) && (((a3 >> 2) & 0x1F) < ((b3
            >> 2) & 0x1F) || (((a3 >> 2) & 0x1F) == ((b3 >> 2) & 0x1F) && ((a4 >> 5) | ((a3 << 3)
            & 0x1F)) < ((b4 >> 5) | ((b3 << 3) & 0x1F)))))) ) by (bit_vector)
            requires
                a2 == b2,
                a3 < b3,
        ;
        assert(forall|i: int| 0 <= i < 4 ==> sym(a, i) == sym(b, i));
        if sym(a, 4) < sym(b, 4) {
            lemma_enc_from_sym_diff(a, b, 4);
        } else if sym(a, 5) < sym(b, 5) {
            lemma_enc_from_sym_diff(a, b, 5);
        } else {
            lemma_enc_from_sym_diff(a, b, 6);
        }
    } else if k == 4 {
        assert((((a4 >> 5) | ((a3 << 3) & 0x1F)) < ((b4 >> 5) | ((b3 << 3) & 0x1F)) || (((a4 >> 5)
            | ((a3 << 3) & 0x1F)) == ((b4 >> 5) | ((b3 << 3) & 0x1F)) && (a4 & 0x1F) < (b4
            & 0x1F)))) by (bit_vector)
            requires
                a3 == b3,
                a4 < b4,
        ;
        assert(forall|i: int| 0 <= i < 6 ==> sym(a, i) == sym(b, i));
        if sym(a, 6) < sym(b, 6) {
            lemma_enc_from_sym_diff(a, b, 6);
        } else {
            lemma_enc_from_sym_diff(a, b, 7);
        }
    } else if k == 5 {
        assert((a5 >> 3 < b5 >> 3) || (a5 >> 3 == b5 >> 3 && (((a6 >> 6) & 0x1F) | ((a5 << 2)
            & 0x1F)) < (((b6 >> 6) & 0x1F) | ((b5 << 2) & 0x1F)))) by (bit_vector)
            requires
                a5 < b5,
        ;
        assert(forall|i: int| 0 <= i < 8 ==> sym(a, i) == sym(b, i));
        if sym(a, 8) < sym(b, 8) {
            lemma_enc_from_sym_diff(a, b, 8);
        } else {
            lemma_enc_from_sym_diff(a, b, 9);
        }
    } else if k == 6 {
        assert((((((a6 >> 6) & 0x1F) | ((a5 << 2) & 0x1F)) < (((b6 >> 6) & 0x1F) | ((b5 << 2)
            & 0x1F))) || ((((a6 >> 6) & 0x1F) | ((a5 << 2) & 0x1F)) == (((b6 >> 6) & 0x1F) | ((b5
            << 2) & 0x1F)) && (((a6 >> 1) & 0x1F) < ((b6 >> 1) & 0x1F) || (((a6 >> 1) & 0x1F) == ((
        b6 >> 1) & 0x1F) && (((a7 >> 4) & 0x1F) | ((a6 << 4) & 0x1F)) < (((b7 >> 4) & 0x1F) | ((b6
            << 4) & 0x1F))))))) by (bit_vector)
            requires
                a5 == b5,
                a6 < b6,
        ;
        assert(forall|i: int| 0 <= i < 9 ==> sym(a, i) == sym(b, i));
        if sym(a, 9) < sym(b, 9) {
            lemma_enc_from_sym_diff(a, b, 9);
        } else if sym(a, 10) < sym(b, 10) {
            lemma_enc_from_sym_diff(a, b, 10);
        } else {
            lemma_enc_from_sym_diff(a, b, 11);
        }
    } else if k == 7 {
        assert(((((a7 >> 4) & 0x1F) | ((a6 << 4) & 0x1F)) < (((b7 >> 4) & 0x1F) | ((b6 << 4)
            & 0x1F)) || ((((a7 >> 4) & 0x1F) | ((a6 << 4) & 0x1F)) == (((b7 >> 4) & 0x1F) | ((b6
            << 4) & 0x1F)) && ((a8 >> 7) | ((a7 << 1) & 0x1F)) < ((b8 >> 7) | ((b7 << 1)
            & 0x1F))))) by (bit_vector)
            requires
                a6 == b6,
                a7 < b7,
        ;
        assert(forall|i: int| 0 <= i < 11 ==> sym(a, i) == sym(b, i));
        if sym(a, 11) < sym(b, 11) {
            lemma_enc_from_sym_diff(a, b, 11);
        } else {
            lemma_enc_from_sym_diff(a, b, 12);
        }
    } else if k == 8 {
        assert((((a8 >> 7) | ((a7 << 1) & 0x1F)) < ((b8 >> 7) | ((b7 << 1) & 0x1F)) || (((a8 >> 7)
            | ((a7 << 1) & 0x1F)) == ((b8 >> 7) | ((b7 << 1) & 0x1F)) && (((a8 >> 2) & 0x1F) < ((b8
            >> 2) & 0x1F) || (((a8 >> 2) & 0x1F) == ((b8 >> 2) & 0x1F) && ((a9 >> 5) | ((a8 << 3)
            & 0x1F)) < ((b9 >> 5) | ((b8 << 3) & 0x1F)))))) ) by (bit_vector)
            requires
                a7 == b7,
                a8 < b8,
        ;
        assert(forall|i: int| 0 <= i < 12 ==> sym(a, i) == sym(b, i));
        if sym(a, 12) < sym(b, 12) {
            lemma_enc_from_sym_diff(a, b, 12);
        } else if sym(a, 13) < sym(b, 13) {
            lemma_enc_from_sym_diff(a, b, 13);
        } else {
            lemma_enc_from_sym_diff(a, b, 14);
        }
    } else if k == 9 {
        assert((((a9 >> 5) | ((a8 << 3) & 0x1F)) < ((b9 >> 5) | ((b8 << 3) & 0x1F)) || (((a9 >> 5)
            | ((a8 << 3) & 0x1F)) == ((b9 >> 5) | ((b8 << 3) & 0x1F)) && (a9 & 0x1F) < (b9
            & 0x1F)))) by (bit_vector)
            requires
                a8 == b8,
                a9 < b9,
        ;
        assert(forall|i: int| 0 <= i < 14 ==> sym(a, i) == sym(b, i));
        if sym(a, 14) < sym(b, 14) {
            lemma_enc_from_sym_diff(a, b, 14);
        } else {
            lemma_enc_from_sym_diff(a, b, 15);
        }
    } else if k == 10 {
        assert((a10 >> 3 < b10 >> 3) || (a10 >> 3 == b10 >> 3 && (((a11 >> 6) & 0x1F) | ((a10 << 2)
            & 0x1F)) < (((b11 >> 6) & 0x1F) | ((b10 << 2) & 0x1F)))) by (bit_vector)
            requires
                a10 < b10,
        ;
        assert(forall|i: int| 0 <= i < 16 ==> sym(a, i) == sym(b, i));
        if sym(a, 16) < sym(b, 16) {
            lemma_enc_from_sym_diff(a, b, 16);
        } else {
            lemma_enc_from_sym_diff(a, b, 17);
        }
    } else {
        assert((((((a11 >> 6) & 0x1F) | ((a10 << 2) & 0x1F)) < (((b11 >> 6) & 0x1F) | ((b10 << 2)
            & 0x1F))) || ((((a11 >> 6) & 0x1F) | ((a10 << 2) & 0x1F)) == (((b11 >> 6) & 0x1F) | ((
        b10 << 2) & 0x1F)) && (((a11 >> 1) & 0x1F) < ((b11 >> 1) & 0x1F) || (((a11 >> 1) & 0x1F)
            == ((b11 >> 1) & 0x1F) && ((a11 << 4) & 0x1F) < ((b11 << 4) & 0x1F))))))
            by (bit_vector)
            requires
                a10 == b10,
                a11 < b11,
        ;
        assert(forall|i: int| 0 <= i < 17 ==> sym(a, i) == sym(b, i));
        if sym(a, 17) < sym(b, 17) {
            lemma_enc_from_sym_diff(a, b, 17);
        } else if sym(a, 18) < sym(b, 18) {
            lemma_enc_from_sym_diff(a, b, 18);
        } else {
            lemma_enc_from_sym_diff(a, b, 19);
        }
    }
}

/// The codec preserves order exactly: two 12-byte values and their
/// textual forms always compare the same way.
pub proof fn lemma_encode_order(a: Seq<u8>, b: Seq<u8>)
    requires
        a.len() == 12,
        b.len() == 12,
    ensures
        lex_lt(encode_seq(a), encode_seq(b)) <==> lex_lt(a, b),
{
    if lex_lt(a, b) {
        lemma_encode_lt(a, b);
    } else {
        lemma_lex_trichotomy(a, b);
        if lex_lt(b, a) {
            lemma_encode_lt(b, a);
            lemma_lex_asym(encode_seq(b), encode_seq(a));
        } else {
            assert(encode_seq(a) =~= encode_seq(b));
            crate::order::lemma_lex_irrefl(encode_seq(a));
        }
    }
}

} // verus!
