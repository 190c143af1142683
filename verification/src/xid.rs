//! The 12-byte identifier: a big-endian timestamp, a machine fingerprint,
//! a process fingerprint and a 24-bit counter, packed contiguously.

use vstd::prelude::*;

verus! {

use crate::codec::alphabet_char;
use crate::codec::decode_char;
use crate::codec::decode_seq;
use crate::codec::encode_seq;
use crate::identity::IdentityContext;
use crate::identity::wrap_inc;
use crate::order::lex_lt;
use crate::order::lemma_lex_from_diff;
use crate::order::lemma_lex_irrefl;
use crate::order::lemma_lex_asym;

/// The timestamp field: bytes 0 through 3, big-endian.
pub open spec fn ts_of(b: Seq<u8>) -> u32 {
    ((b[0] as u32) << 24) | ((b[1] as u32) << 16) | ((b[2] as u32) << 8) | (b[3] as u32)
}

/// The machine fingerprint field: bytes 4 through 6.
pub open spec fn machine_of(b: Seq<u8>) -> Seq<u8> {
    b.subrange(4, 7)
}

/// The process fingerprint field: bytes 7 and 8, big-endian.
pub open spec fn pid_of(b: Seq<u8>) -> u32 {
    ((b[7] as u32) << 8) | (b[8] as u32)
}

/// The counter field: bytes 9 through 11, big-endian.
pub open spec fn cnt_of(b: Seq<u8>) -> u32 {
    ((b[9] as u32) << 16) | ((b[10] as u32) << 8) | (b[11] as u32)
}

/// The 12-byte layout: 4 bytes of timestamp, 3 of machine fingerprint,
/// the low 16 bits of the process fingerprint, the low 24 bits of the
/// counter, all big-endian.
pub open spec fn pack(ts: u32, m: Seq<u8>, pid: u32, cnt: u32) -> Seq<u8> {
    seq![
        (ts >> 24) as u8,
        (ts >> 16) as u8,
        (ts >> 8) as u8,
        ts as u8,
        m[0],
        m[1],
        m[2],
        (pid >> 8) as u8,
        pid as u8,
        (cnt >> 16) as u8,
        (cnt >> 8) as u8,
        cnt as u8,
    ]
}

/// Packing followed by field extraction recovers the timestamp and the
/// machine fingerprint exactly, and the serialized low bits of the
/// process fingerprint and the counter.
pub proof fn lemma_pack_fields(ts: u32, m: Seq<u8>, pid: u32, cnt: u32)
    requires
        m.len() == 3,
    ensures
        pack(ts, m, pid, cnt).len() == 12,
        ts_of(pack(ts, m, pid, cnt)) == ts,
        machine_of(pack(ts, m, pid, cnt)) == m,
        pid_of(pack(ts, m, pid, cnt)) == pid & 0xFFFF,
        cnt_of(pack(ts, m, pid, cnt)) == cnt & 0xFFFFFF,
{
    let p = pack(ts, m, pid, cnt);
    assert(((((ts >> 24) as u8) as u32) << 24) | ((((ts >> 16) as u8) as u32) << 16)
        | ((((ts >> 8) as u8) as u32) << 8) | ((ts as u8) as u32) == ts) by (bit_vector);
    assert(((((pid >> 8) as u8) as u32) << 8) | ((pid as u8) as u32) == pid & 0xFFFF)
        by (bit_vector);
    assert(((((cnt >> 16) as u8) as u32) << 16) | ((((cnt >> 8) as u8) as u32) << 8)
        | ((cnt as u8) as u32) == cnt & 0xFFFFFF) by (bit_vector);
    assert(machine_of(p) =~= m);
}

/// Uniqueness: identifiers carrying the same fingerprints are distinct
/// whenever their timestamps differ or their serialized counters differ.
pub proof fn lemma_uniqueness(t1: u32, t2: u32, m: Seq<u8>, p: u32, c1: u32, c2: u32)
    requires
        m.len() == 3,
        t1 != t2 || c1 & 0xFFFFFF != c2 & 0xFFFFFF,
    ensures
        pack(t1, m, p, c1) != pack(t2, m, p, c2),
{
    let a = pack(t1, m, p, c1);
    let b = pack(t2, m, p, c2);
    if t1 != t2 {
        assert(!((t1 >> 24) as u8 == (t2 >> 24) as u8 && (t1 >> 16) as u8 == (t2 >> 16) as u8 && (
        t1 >> 8) as u8 == (t2 >> 8) as u8 && t1 as u8 == t2 as u8)) by (bit_vector)
            requires
                t1 != t2,
        ;
        if a == b {
            assert(a[0] == b[0] && a[1] == b[1] && a[2] == b[2] && a[3] == b[3]);
        }
    } else {
        assert(!((c1 >> 16) as u8 == (c2 >> 16) as u8 && (c1 >> 8) as u8 == (c2 >> 8) as u8 && c1
            as u8 == c2 as u8)) by (bit_vector)
            requires
                c1 & 0xFFFFFF != c2 & 0xFFFFFF,
        ;
        if a == b {
            assert(a[9] == b[9] && a[10] == b[10] && a[11] == b[11]);
        }
    }
}

/// Two identifiers cut from consecutive counter values of one identity
/// are distinct, whatever their timestamps: one counter step always moves
/// the serialized low 24 bits.
pub proof fn lemma_successive_distinct(t1: u32, t2: u32, m: Seq<u8>, p: u32, c: u32)
    requires
        m.len() == 3,
    ensures
        pack(t1, m, p, wrap_inc(c)) != pack(t2, m, p, wrap_inc(wrap_inc(c))),
{
    assert(wrap_inc(c) & 0xFFFFFF != wrap_inc(wrap_inc(c)) & 0xFFFFFF) by (bit_vector);
    lemma_uniqueness(t1, t2, m, p, wrap_inc(c), wrap_inc(wrap_inc(c)));
}

/// Ordering in time: of two identifiers the one with the smaller
/// timestamp comes first, both as raw bytes and in textual form.
pub proof fn lemma_timestamp_order(a: Seq<u8>, b: Seq<u8>)
    requires
        a.len() == 12,
        b.len() == 12,
        ts_of(a) < ts_of(b),
    ensures
        lex_lt(a, b),
        lex_lt(encode_seq(a), encode_seq(b)),
{
    let a0 = a[0];
    let a1 = a[1];
    let a2 = a[2];
    let a3 = a[3];
    let b0 = b[0];
    let b1 = b[1];
    let b2 = b[2];
    let b3 = b[3];
    assert((a0 < b0) || (a0 == b0 && (a1 < b1 || (a1 == b1 && (a2 < b2 || (a2 == b2 && a3 < b3))))))
        by (bit_vector)
        requires
            (((a0 as u32) << 24) | ((a1 as u32) << 16) | ((a2 as u32) << 8) | (a3 as u32)) < (((
            b0 as u32) << 24) | ((b1 as u32) << 16) | ((b2 as u32) << 8) | (b3 as u32)),
    ;
    if a0 < b0 {
        crate::order::lemma_lex_from_diff(a, b, 0);
    } else if a1 < b1 {
        crate::order::lemma_lex_from_diff(a, b, 1);
    } else if a2 < b2 {
        crate::order::lemma_lex_from_diff(a, b, 2);
    } else {
        crate::order::lemma_lex_from_diff(a, b, 3);
    }
    crate::codec::lemma_encode_lt(a, b);
}

/// Ordering within one second: identifiers sharing timestamp, machine and
/// process fingerprints compare by their counters, both as raw bytes and
/// in textual form.
pub proof fn lemma_counter_order(a: Seq<u8>, b: Seq<u8>)
    requires
        a.len() == 12,
        b.len() == 12,
        ts_of(a) == ts_of(b),
        machine_of(a) == machine_of(b),
        pid_of(a) == pid_of(b),
        cnt_of(a) < cnt_of(b),
    ensures
        lex_lt(a, b),
        lex_lt(encode_seq(a), encode_seq(b)),
{
    let a0 = a[0];
    let a1 = a[1];
    let a2 = a[2];
    let a3 = a[3];
    let b0 = b[0];
    let b1 = b[1];
    let b2 = b[2];
    let b3 = b[3];
    assert(a0 == b0 && a1 == b1 && a2 == b2 && a3 == b3) by (bit_vector)
        requires
            (((a0 as u32) << 24) | ((a1 as u32) << 16) | ((a2 as u32) << 8) | (a3 as u32)) == (((
            b0 as u32) << 24) | ((b1 as u32) << 16) | ((b2 as u32) << 8) | (b3 as u32)),
    ;
    assert(a[4] == machine_of(a)[0] && a[5] == machine_of(a)[1] && a[6] == machine_of(a)[2]);
    assert(b[4] == machine_of(b)[0] && b[5] == machine_of(b)[1] && b[6] == machine_of(b)[2]);
    let a7 = a[7];
    let a8 = a[8];
    let b7 = b[7];
    let b8 = b[8];
    assert(a7 == b7 && a8 == b8) by (bit_vector)
        requires
            (((a7 as u32) << 8) | (a8 as u32)) == (((b7 as u32) << 8) | (b8 as u32)),
    ;
    let a9 = a[9];
    let a10 = a[10];
    let a11 = a[11];
    let b9 = b[9];
    let b10 = b[10];
    let b11 = b[11];
    assert((a9 < b9) || (a9 == b9 && (a10 < b10 || (a10 == b10 && a11 < b11)))) by (bit_vector)
        requires
            (((a9 as u32) << 16) | ((a10 as u32) << 8) | (a11 as u32)) < (((b9 as u32) << 16) | ((
            b10 as u32) << 8) | (b11 as u32)),
    ;
    if a9 < b9 {
        crate::order::lemma_lex_from_diff(a, b, 9);
    } else if a10 < b10 {
        crate::order::lemma_lex_from_diff(a, b, 10);
    } else {
        crate::order::lemma_lex_from_diff(a, b, 11);
    }
    crate::codec::lemma_encode_lt(a, b);
}

/// Ordering of the textual forms as character strings: the string views
/// of two identifiers compare exactly as their raw bytes do.
pub proof fn lemma_string_order(a: Seq<u8>, b: Seq<u8>)
    requires
        a.len() == 12,
        b.len() == 12,
    ensures
        crate::order::lex_lt_chars(
            encode_seq(a).map_values(|c: u8| c as char),
            encode_seq(b).map_values(|c: u8| c as char),
        ) <==> lex_lt(a, b),
{
    crate::order::lemma_lex_chars_of_bytes(encode_seq(a), encode_seq(b));
    crate::codec::lemma_encode_order(a, b);
}

/// A globally unique, sortable identifier of exactly 12 bytes.
#[derive(Clone, Copy, Debug, Hash, Eq, Ord)]
pub struct Xid {
    bytes: [u8; 12],
}

impl View for Xid {
    type V = Seq<u8>;

    closed spec fn view(&self) -> Seq<u8> {
        self.bytes@
    }
}

impl PartialEq for Xid {
    fn eq(&self, other: &Xid) -> (r: bool) {
        let r = self.bytes[0] == other.bytes[0] && self.bytes[1] == other.bytes[1]
            && self.bytes[2] == other.bytes[2] && self.bytes[3] == other.bytes[3]
            && self.bytes[4] == other.bytes[4] && self.bytes[5] == other.bytes[5]
            && self.bytes[6] == other.bytes[6] && self.bytes[7] == other.bytes[7]
            && self.bytes[8] == other.bytes[8] && self.bytes[9] == other.bytes[9]
            && self.bytes[10] == other.bytes[10] && self.bytes[11] == other.bytes[11];
        proof {
            if r {
                assert(self.bytes@ =~= other.bytes@);
            } else {
                if self.bytes@ == other.bytes@ {
                    assert(forall|i: int| 0 <= i < 12 ==> self.bytes@[i] == other.bytes@[i]);
                }
            }
        }
        r
    }
}

impl vstd::std_specs::cmp::PartialEqSpecImpl for Xid {
    open spec fn obeys_eq_spec() -> bool {
        true
    }

    open spec fn eq_spec(&self, other: &Xid) -> bool {
        self@ == other@
    }
}

impl PartialOrd for Xid {
    fn partial_cmp(&self, other: &Xid) -> (r: Option<core::cmp::Ordering>) {
        let mut i: usize = 0;
        while i < 12
            invariant
                0 <= i <= 12,
                forall|j: int| 0 <= j < i ==> self.bytes@[j] == other.bytes@[j],
            decreases 12 - i,
        {
            if self.bytes[i] < other.bytes[i] {
                proof {
                    lemma_lex_from_diff(self@, other@, i as int);
                    lemma_lex_asym(self@, other@);
                }
                return Some(core::cmp::Ordering::Less);
            }
            if self.bytes[i] > other.bytes[i] {
                proof {
                    lemma_lex_from_diff(other@, self@, i as int);
                    lemma_lex_asym(other@, self@);
                }
                return Some(core::cmp::Ordering::Greater);
            }
            i = i + 1;
        }
        proof {
            assert(self.bytes@ =~= other.bytes@);
            lemma_lex_irrefl(self@);
        }
        Some(core::cmp::Ordering::Equal)
    }
}

impl vstd::std_specs::cmp::PartialOrdSpecImpl for Xid {
    open spec fn obeys_partial_cmp_spec() -> bool {
        true
    }

    open spec fn partial_cmp_spec(&self, other: &Xid) -> Option<core::cmp::Ordering> {
        if lex_lt(self@, other@) {
            Some(core::cmp::Ordering::Less)
        } else if lex_lt(other@, self@) {
            Some(core::cmp::Ordering::Greater)
        } else {
            Some(core::cmp::Ordering::Equal)
        }
    }
}

impl Default for Xid {
    /// The all-zero identifier.
    fn default() -> (r: Xid)
        ensures
            r@ == Seq::new(12, |i: int| 0u8),
    {
        let r = Xid { bytes: [0; 12] };
        proof {
            assert(r@ =~= Seq::new(12, |i: int| 0u8));
        }
        r
    }
}

impl From<[u8; 12]> for Xid {
    /// An identifier holding exactly the given 12 bytes.
    fn from(data: [u8; 12]) -> (r: Xid)
        ensures
            r@ == data@,
    {
        Xid { bytes: data }
    }
}

impl vstd::std_specs::convert::FromSpecImpl<[u8; 12]> for Xid {
    open spec fn obeys_from_spec() -> bool {
        true
    }

    closed spec fn from_spec(data: [u8; 12]) -> Xid {
        Xid { bytes: data }
    }
}

impl Xid {
    /// A fresh identifier for the current wall-clock second, drawn from
    /// the given identity: the context's fingerprints and its next
    /// counter value, packed with a timestamp that the clock supplies.
    pub fn new(ctx: &mut IdentityContext) -> (r: Xid)
        ensures
            old(ctx).machine_spec().len() == 3,
            final(ctx).machine_spec() == old(ctx).machine_spec(),
            final(ctx).process_spec() == old(ctx).process_spec(),
            final(ctx).counter_spec() == wrap_inc(old(ctx).counter_spec()),
            exists|t: u32|
                r@ == pack(
                    t,
                    old(ctx).machine_spec(),
                    old(ctx).process_spec(),
                    wrap_inc(old(ctx).counter_spec()),
                ),
    {
        let now = unix_now();
        let r = Xid::generate(now, ctx);
        proof {
            assert(r@ == pack(
                now,
                old(ctx).machine_spec(),
                old(ctx).process_spec(),
                wrap_inc(old(ctx).counter_spec()),
            ));
        }
        r
    }

    /// A fresh identifier for the given second: the context's
    /// fingerprints and its next counter value, packed into the 12-byte
    /// layout.
    pub fn generate(now: u32, ctx: &mut IdentityContext) -> (r: Xid)
        ensures
            old(ctx).machine_spec().len() == 3,
            final(ctx).machine_spec() == old(ctx).machine_spec(),
            final(ctx).process_spec() == old(ctx).process_spec(),
            final(ctx).counter_spec() == wrap_inc(old(ctx).counter_spec()),
            r@ == pack(
                now,
                old(ctx).machine_spec(),
                old(ctx).process_spec(),
                wrap_inc(old(ctx).counter_spec()),
            ),
    {
        proof {
            old(ctx).lemma_machine_len();
        }
        let c = ctx.next_counter();
        let m = ctx.machine();
        let p = ctx.process();
        Xid::from_parts(now, m, p, c)
    }

    /// Packs the four fields into the 12-byte layout: the timestamp and
    /// machine fingerprint whole, the low 16 bits of the process
    /// fingerprint and the low 24 bits of the counter.
    pub fn from_parts(ts: u32, mid: [u8; 3], pid: u32, obj: u32) -> (r: Xid)
        ensures
            r@ == pack(ts, mid@, pid, obj),
            ts_of(r@) == ts,
            machine_of(r@) == mid@,
            pid_of(r@) == pid & 0xFFFF,
            cnt_of(r@) == obj & 0xFFFFFF,
    {
        let mut bytes: [u8; 12] = [0; 12];
        bytes[0] = #[verifier::truncate] ((ts >> 24) as u8);
        bytes[1] = #[verifier::truncate] ((ts >> 16) as u8);
        bytes[2] = #[verifier::truncate] ((ts >> 8) as u8);
        bytes[3] = #[verifier::truncate] (ts as u8);
        bytes[4] = mid[0];
        bytes[5] = mid[1];
        bytes[6] = mid[2];
        bytes[7] = #[verifier::truncate] ((pid >> 8) as u8);
        bytes[8] = #[verifier::truncate] (pid as u8);
        bytes[9] = #[verifier::truncate] ((obj >> 16) as u8);
        bytes[10] = #[verifier::truncate] ((obj >> 8) as u8);
        bytes[11] = #[verifier::truncate] (obj as u8);
        let r = Xid { bytes };
        proof {
            assert(r@ =~= pack(ts, mid@, pid, obj));
            lemma_pack_fields(ts, mid@, pid, obj);
        }
        r
    }

    /// The raw 12 bytes.
    pub fn bytes(&self) -> (r: &[u8])
        ensures
            r@ == self@,
    {
        self.bytes.as_slice()
    }

    /// The timestamp field, seconds since the Unix epoch.
    pub fn timestamp(&self) -> (r: u32)
        ensures
            r == ts_of(self@),
    {
        ((self.bytes[0] as u32) << 24) | ((self.bytes[1] as u32) << 16)
            | ((self.bytes[2] as u32) << 8) | (self.bytes[3] as u32)
    }

    /// The machine fingerprint field.
    pub fn machine(&self) -> (r: [u8; 3])
        ensures
            r@ == machine_of(self@),
    {
        let mut m: [u8; 3] = [0; 3];
        m[0] = self.bytes[4];
        m[1] = self.bytes[5];
        m[2] = self.bytes[6];
        proof {
            assert(m@ =~= machine_of(self@));
        }
        m
    }

    /// The process fingerprint field.
    pub fn process(&self) -> (r: u32)
        ensures
            r == pid_of(self@),
    {
        ((self.bytes[7] as u32) << 8) | (self.bytes[8] as u32)
    }

    /// The counter field.
    pub fn counter(&self) -> (r: u32)
        ensures
            r == cnt_of(self@),
    {
        ((self.bytes[9] as u32) << 16) | ((self.bytes[10] as u32) << 8) | (self.bytes[11] as u32)
    }

    /// Writes the 20-character textual form into the caller's buffer:
    /// each five-bit group of the 96 input bits, most-significant-first,
    /// becomes one alphabet character.
    pub fn encode(&self, dst: &mut Vec<u8>)
        requires
            old(dst)@.len() == 20,
        ensures
            final(dst)@ == encode_seq(self@),
    {
        let b0 = self.bytes[0];
        let b1 = self.bytes[1];
        let b2 = self.bytes[2];
        let b3 = self.bytes[3];
        let b4 = self.bytes[4];
        let b5 = self.bytes[5];
        let b6 = self.bytes[6];
        let b7 = self.bytes[7];
        let b8 = self.bytes[8];
        let b9 = self.bytes[9];
        let b10 = self.bytes[10];
        let b11 = self.bytes[11];
        proof {
            assert((b0 >> 3) < 32 && (((b1 >> 6) & 0x1F) | ((b0 << 2) & 0x1F)) < 32 && ((b1 >> 1)
                & 0x1F) < 32 && ((((b2 >> 4) & 0x1F)) | ((b1 << 4) & 0x1F)) < 32 && ((b3 >> 7) | ((
            b2 << 1) & 0x1F)) < 32 && ((b3 >> 2) & 0x1F) < 32 && ((b4 >> 5) | ((b3 << 3) & 0x1F))
                < 32 && (b4 & 0x1F) < 32 && (b5 >> 3) < 32 && ((((b6 >> 6) & 0x1F)) | ((b5 << 2)
                & 0x1F)) < 32 && ((b6 >> 1) & 0x1F) < 32 && ((((b7 >> 4) & 0x1F)) | ((b6 << 4)
                & 0x1F)) < 32 && ((b8 >> 7) | ((b7 << 1) & 0x1F)) < 32 && ((b8 >> 2) & 0x1F) < 32
                && ((b9 >> 5) | ((b8 << 3) & 0x1F)) < 32 && (b9 & 0x1F) < 32 && (b10 >> 3) < 32
                && ((((b11 >> 6) & 0x1F)) | ((b10 << 2) & 0x1F)) < 32 && ((b11 >> 1) & 0x1F) < 32
                && ((b11 << 4) & 0x1F) < 32) by (bit_vector);
        }
        dst[0] = alphabet_char(b0 >> 3);
        dst[1] = alphabet_char(((b1 >> 6) & 0x1F) | ((b0 << 2) & 0x1F));
        dst[2] = alphabet_char((b1 >> 1) & 0x1F);
        dst[3] = alphabet_char(((b2 >> 4) & 0x1F) | ((b1 << 4) & 0x1F));
        dst[4] = alphabet_char((b3 >> 7) | ((b2 << 1) & 0x1F));
        dst[5] = alphabet_char((b3 >> 2) & 0x1F);
        dst[6] = alphabet_char((b4 >> 5) | ((b3 << 3) & 0x1F));
        dst[7] = alphabet_char(b4 & 0x1F);
        dst[8] = alphabet_char(b5 >> 3);
        dst[9] = alphabet_char(((b6 >> 6) & 0x1F) | ((b5 << 2) & 0x1F));
        dst[10] = alphabet_char((b6 >> 1) & 0x1F);
        dst[11] = alphabet_char(((b7 >> 4) & 0x1F) | ((b6 << 4) & 0x1F));
        dst[12] = alphabet_char((b8 >> 7) | ((b7 << 1) & 0x1F));
        dst[13] = alphabet_char((b8 >> 2) & 0x1F);
        dst[14] = alphabet_char((b9 >> 5) | ((b8 << 3) & 0x1F));
        dst[15] = alphabet_char(b9 & 0x1F);
        dst[16] = alphabet_char(b10 >> 3);
        dst[17] = alphabet_char(((b11 >> 6) & 0x1F) | ((b10 << 2) & 0x1F));
        dst[18] = alphabet_char((b11 >> 1) & 0x1F);
        dst[19] = alphabet_char((b11 << 4) & 0x1F);
        proof {
            assert(dst@ =~= encode_seq(self@));
        }
    }

    /// Overwrites this identifier with the 12 bytes reassembled from a
    /// 20-character textual form; a character outside the alphabet
    /// contributes the low bits of the sentinel.
    pub fn decode(&mut self, src: &[u8])
        requires
            src@.len() == 20,
        ensures
            final(self)@ == decode_seq(src@),
    {
        let d0 = decode_char(src[0]);
        let d1 = decode_char(src[1]);
        let d2 = decode_char(src[2]);
        let d3 = decode_char(src[3]);
        let d4 = decode_char(src[4]);
        let d5 = decode_char(src[5]);
        let d6 = decode_char(src[6]);
        let d7 = decode_char(src[7]);
        let d8 = decode_char(src[8]);
        let d9 = decode_char(src[9]);
        let d10 = decode_char(src[10]);
        let d11 = decode_char(src[11]);
        let d12 = decode_char(src[12]);
        let d13 = decode_char(src[13]);
        let d14 = decode_char(src[14]);
        let d15 = decode_char(src[15]);
        let d16 = decode_char(src[16]);
        let d17 = decode_char(src[17]);
        let d18 = decode_char(src[18]);
        let d19 = decode_char(src[19]);
        let mut bytes: [u8; 12] = [0; 12];
        bytes[0] = (d0 << 3) | (d1 >> 2);
        bytes[1] = (d1 << 6) | (d2 << 1) | (d3 >> 4);
        bytes[2] = (d3 << 4) | (d4 >> 1);
        bytes[3] = (d4 << 7) | (d5 << 2) | (d6 >> 3);
        bytes[4] = (d6 << 5) | d7;
        bytes[5] = (d8 << 3) | (d9 >> 2);
        bytes[6] = (d9 << 6) | (d10 << 1) | (d11 >> 4);
        bytes[7] = (d11 << 4) | (d12 >> 1);
        bytes[8] = (d12 << 7) | (d13 << 2) | (d14 >> 3);
        bytes[9] = (d14 << 5) | d15;
        bytes[10] = (d16 << 3) | (d17 >> 2);
        bytes[11] = (d17 << 6) | (d18 << 1) | (d19 >> 4);
        proof {
            assert(bytes@ =~= decode_seq(src@));
        }
        self.bytes = bytes;
    }

    /// The textual form as a string of 20 alphabet characters.
    pub fn to_string(&self) -> (s: String)
        ensures
            s@ == encode_seq(self@).map_values(|c: u8| c as char),
            s@.len() == 20,
    {
        let mut buf: Vec<u8> = vec![0u8; 20];
        self.encode(&mut buf);
        proof {
            assert(forall|i: int| 0 <= i < 20 ==> encode_seq(self@)[i] < 0x80);
        }
        ascii_to_string(buf)
    }
}

/// Relies on std::time::SystemTime::now and duration_since: the current
/// wall-clock time in whole seconds since the Unix epoch, truncated to
/// 32 bits, or zero for a clock before the epoch; nothing is promised of
/// the result.
#[verifier::external_body]
fn unix_now() -> u32 {
    match std::time::SystemTime::now().duration_since(std::time::UNIX_EPOCH) {
        Ok(d) => d.as_secs() as u32,
        Err(_) => 0,
    }
}

/// Relies on String::from_utf8: bytes below 0x80 are ASCII, hence valid
/// UTF-8, and become the characters with the same values, one per byte.
#[verifier::external_body]
fn ascii_to_string(bytes: Vec<u8>) -> (s: String)
    requires
        forall|i: int| 0 <= i < bytes@.len() ==> bytes@[i] < 0x80,
    ensures
        s@ == bytes@.map_values(|c: u8| c as char),
{
    match String::from_utf8(bytes) {
        Ok(s) => s,
        Err(_) => String::new(),
    }
}

} // verus!
