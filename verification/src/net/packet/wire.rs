//! The byte-level model of packet headers: big-endian fields, in-place
//! rewrites of a buffer, and the Internet checksum (RFC 1071).
use vstd::prelude::*;
use vstd::arithmetic::div_mod::lemma_fundamental_div_mod;
use vstd::arithmetic::div_mod::lemma_mod_multiples_vanish;
use vstd::arithmetic::div_mod::lemma_mod_multiples_basic;

verus! {

/// The big-endian 16-bit value stored at `off` in `s`.
pub open spec fn be16(s: Seq<u8>, off: int) -> int {
    s[off] as int * 256 + s[off + 1] as int
}

/// The big-endian 32-bit value stored at `off` in `s`.
pub open spec fn be32(s: Seq<u8>, off: int) -> int {
    s[off] as int * 0x100_0000 + s[off + 1] as int * 0x1_0000 + s[off + 2] as int * 256
        + s[off + 3] as int
}

/// The two bytes of `v` in network (big-endian) order.
pub open spec fn u16_bytes(v: int) -> Seq<u8> {
    seq![(v / 256) as u8, (v % 256) as u8]
}

/// The four bytes of `v` in network (big-endian) order.
pub open spec fn u32_bytes(v: int) -> Seq<u8> {
    seq![
        (v / 0x100_0000) as u8,
        ((v / 0x1_0000) % 256) as u8,
        ((v / 256) % 256) as u8,
        (v % 256) as u8,
    ]
}

/// `s` with the bytes from `off` on replaced by `v`; its length is that of `s`.
pub open spec fn splice(s: Seq<u8>, off: int, v: Seq<u8>) -> Seq<u8> {
    Seq::new(s.len(), |i: int| if off <= i < off + v.len() { v[i - off] } else { s[i] })
}

/// `s` with the big-endian 16-bit value `v` written at `off`.
pub open spec fn put16(s: Seq<u8>, off: int, v: int) -> Seq<u8> {
    splice(s, off, u16_bytes(v))
}

/// `s` with the big-endian 32-bit value `v` written at `off`.
pub open spec fn put32(s: Seq<u8>, off: int, v: int) -> Seq<u8> {
    splice(s, off, u32_bytes(v))
}

/// The sum of the big-endian 16-bit words of `s`; an odd last byte counts
/// as the high byte of a word whose low byte is zero.
pub open spec fn word_sum(s: Seq<u8>) -> nat
    decreases s.len(),
{
    if s.len() == 0 {
        0
    } else if s.len() == 1 {
        (s[0] as nat) * 256
    } else {
        (s[0] as nat) * 256 + (s[1] as nat) + word_sum(s.skip(2))
    }
}

/// One's-complement folding of a sum into 16 bits: the carries above bit 15
/// are added back until none is left.
pub open spec fn fold16(x: nat) -> nat
    decreases x,
    via fold16_decreases
{
    if x < 0x1_0000 {
        x
    } else {
        fold16(x % 0x1_0000 + x / 0x1_0000)
    }
}

#[via_fn]
proof fn fold16_decreases(x: nat) {
    if x >= 0x1_0000 {
        lemma_fundamental_div_mod(x as int, 0x1_0000);
    }
}

/// The checksum field value that makes a sum `sum` of the covered words
/// check: the one's complement of its folded value.
pub open spec fn checksum_of(sum: nat) -> int {
    0xffff - fold16(sum)
}

/// Whether words summing to `sum` carry a correct Internet checksum.
pub open spec fn checksum_ok(sum: nat) -> bool {
    fold16(sum) == 0xffff
}

/// The sum of the 16-bit words of an IPv4 address.
pub open spec fn addr_sum(ip: int) -> nat {
    (ip / 0x1_0000 + ip % 0x1_0000) as nat
}

/// The sum of the words of the TCP/UDP pseudo header: source and
/// destination address, protocol number, and segment length.
pub open spec fn pseudo_sum(src: int, dst: int, proto: int, len: int) -> nat {
    (addr_sum(src) + addr_sum(dst) + proto + len) as nat
}

pub proof fn lemma_fold16_props(x: nat)
    ensures
        fold16(x) < 0x1_0000,
        fold16(x) % 0xffff == x % 0xffff,
        x > 0 ==> fold16(x) > 0,
        x == 0 ==> fold16(x) == 0,
    decreases x,
{
    if x >= 0x1_0000 {
        let q = x / 0x1_0000;
        let r = x % 0x1_0000;
        lemma_fundamental_div_mod(x as int, 0x1_0000);
        assert(x == 0xffff * q + (q + r));
        lemma_mod_multiples_vanish(q as int, (q + r) as int, 0xffff);
        lemma_fold16_props((r + q) as nat);
    }
}

/// Writing the complement of the folded sum into a field that held zero
/// makes the words check.
pub proof fn lemma_checksum_of_checks(sum: nat)
    ensures
        0 <= checksum_of(sum) <= 0xffff,
        checksum_ok((sum + checksum_of(sum)) as nat),
{
    lemma_fold16_props(sum);
    let f = fold16(sum);
    let t = (sum + 0xffff - f) as nat;
    lemma_fold16_props(t);
    if sum > 0 {
        lemma_fundamental_div_mod(sum as int, 0xffff);
        lemma_fundamental_div_mod(f as int, 0xffff);
        let a = sum as int / 0xffff;
        let b = f as int / 0xffff;
        assert(t == 0xffff * (a - b + 1));
        lemma_mod_multiples_basic(a - b + 1, 0xffff);
        lemma_fundamental_div_mod(fold16(t) as int, 0xffff);
    }
}

/// Two writes at adjacent offsets are one write of the concatenation.
pub proof fn lemma_splice_adjacent(s: Seq<u8>, off: int, x: Seq<u8>, y: Seq<u8>)
    requires
        0 <= off,
        off + x.len() + y.len() <= s.len(),
    ensures
        splice(splice(s, off, x), off + x.len(), y) == splice(s, off, x + y),
{
    assert(splice(splice(s, off, x), off + x.len(), y) =~= splice(s, off, x + y));
}

/// A correct checksum stays correct when 0xffff (negative zero) is added.
pub proof fn lemma_checksum_ok_add_ffff(sum: nat)
    requires
        checksum_ok(sum),
    ensures
        checksum_ok(sum + 0xffff),
{
    lemma_fold16_props(sum);
    lemma_fold16_props(sum + 0xffff);
    lemma_fundamental_div_mod(sum as int, 0xffff);
    lemma_fundamental_div_mod(0xffff, 0xffff);
    let a = sum as int / 0xffff;
    assert(sum + 0xffff == 0xffff * (a + 1));
    lemma_mod_multiples_basic(a + 1, 0xffff);
    lemma_fundamental_div_mod(fold16((sum + 0xffff) as nat) as int, 0xffff);
}

pub proof fn lemma_u16_bytes(v: int)
    requires
        0 <= v < 0x1_0000,
    ensures
        u16_bytes(v).len() == 2,
        u16_bytes(v)[0] as int * 256 + u16_bytes(v)[1] as int == v,
{
    lemma_fundamental_div_mod(v, 256);
}

pub proof fn lemma_u32_bytes(v: int)
    requires
        0 <= v < 0x1_0000_0000,
    ensures
        u32_bytes(v).len() == 4,
        be32(u32_bytes(v), 0) == v,
        be16(u32_bytes(v), 0) == v / 0x1_0000,
        be16(u32_bytes(v), 2) == v % 0x1_0000,
{
    lemma_fundamental_div_mod(v, 0x1_0000);
    lemma_fundamental_div_mod(v / 0x1_0000, 256);
    lemma_fundamental_div_mod(v % 0x1_0000, 256);
    lemma_fundamental_div_mod(v, 256);
    lemma_fundamental_div_mod(v, 0x100_0000);
    lemma_fundamental_div_mod(v / 256, 256);
    assert(v / 0x100_0000 == (v / 0x1_0000) / 256) by {
        vstd::arithmetic::div_mod::lemma_div_denominator(v, 0x1_0000, 256);
    }
    assert(v / 256 % 256 == (v % 0x1_0000) / 256) by {
        vstd::arithmetic::div_mod::lemma_div_denominator(v, 256, 256);
        vstd::arithmetic::div_mod::lemma_breakdown(v, 256, 256);
    }
    assert((v / 0x1_0000) % 256 == (v / 0x1_0000) % 256);
}

/// A sequence of two bytes sums to its big-endian value.
pub proof fn lemma_word_sum_two(s: Seq<u8>)
    requires
        s.len() == 2,
    ensures
        word_sum(s) == be16(s, 0),
{
    assert(word_sum(s.skip(2)) == 0);
}

/// The word sum of a concatenation whose first part has even length.
pub proof fn lemma_word_sum_concat(a: Seq<u8>, b: Seq<u8>)
    requires
        a.len() % 2 == 0,
    ensures
        word_sum(a + b) == word_sum(a) + word_sum(b),
    decreases a.len(),
{
    if a.len() == 0 {
        assert(a + b =~= b);
    } else {
        assert((a + b).skip(2) =~= a.skip(2) + b);
        lemma_word_sum_concat(a.skip(2), b);
    }
}

/// Rewriting the 16-bit word at an even offset changes the word sum by the
/// difference of the two values.
pub proof fn lemma_word_sum_put16(s: Seq<u8>, off: int, v: int)
    requires
        0 <= off,
        off + 2 <= s.len(),
        off % 2 == 0,
        0 <= v < 0x1_0000,
    ensures
        word_sum(put16(s, off, v)) + be16(s, off) == word_sum(s) + v,
    decreases off,
{
    lemma_u16_bytes(v);
    let t = put16(s, off, v);
    if off == 0 {
        assert(t.skip(2) =~= s.skip(2));
    } else {
        assert(t.skip(2) =~= put16(s.skip(2), off - 2, v));
        lemma_word_sum_put16(s.skip(2), off - 2, v);
    }
}

/// Every word sum is small enough to be added up in 32 bits for buffers
/// of IP packet size.
pub proof fn lemma_word_sum_bound(s: Seq<u8>)
    ensures
        word_sum(s) <= 0x8000 * (s.len() + 1),
    decreases s.len(),
{
    if s.len() >= 2 {
        lemma_word_sum_bound(s.skip(2));
    }
}

/// The four bytes of an address sum to its two words.
pub proof fn lemma_word_sum_u32_bytes(v: int)
    requires
        0 <= v < 0x1_0000_0000,
    ensures
        word_sum(u32_bytes(v)) == addr_sum(v),
        v / 0x1_0000 < 0x1_0000,
{
    let b = u32_bytes(v);
    lemma_u32_bytes(v);
    lemma_word_sum_take_skip(b, 2);
    lemma_word_sum_two(b.take(2));
    lemma_word_sum_two(b.skip(2));
}

/// An address contributes less than 0x20000 to a sum.
pub proof fn lemma_addr_sum_bound(v: int)
    requires
        0 <= v < 0x1_0000_0000,
    ensures
        addr_sum(v) < 0x2_0000,
{
    lemma_fundamental_div_mod(v, 0x1_0000);
}

/// The word sum of the first `n` bytes, `n` even, when the rest is dropped.
pub proof fn lemma_word_sum_take_skip(s: Seq<u8>, n: int)
    requires
        0 <= n <= s.len(),
        n % 2 == 0,
    ensures
        word_sum(s) == word_sum(s.take(n)) + word_sum(s.skip(n)),
{
    assert(s =~= s.take(n) + s.skip(n));
    lemma_word_sum_concat(s.take(n), s.skip(n));
}

} // verus!
