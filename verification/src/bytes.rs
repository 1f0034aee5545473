//! Verified helpers on fixed-width byte strings: lexicographic ordering,
//! equality, zero tests, big/little-endian integer encodings and
//! concatenation. Every hash call site in this crate concatenates
//! fixed-width fields with these helpers, so the exact byte layout of each
//! preimage is part of the verified contracts.
use vstd::prelude::*;

verus! {

/// Strict lexicographic order on byte sequences (on equal lengths this is
/// the order that `[u8; 32]` keys of the tree are compared by).
pub open spec fn lex_lt(a: Seq<u8>, b: Seq<u8>) -> bool
    decreases a.len(),
{
    if a.len() == 0 {
        b.len() > 0
    } else if b.len() == 0 {
        false
    } else if a[0] < b[0] {
        true
    } else if a[0] > b[0] {
        false
    } else {
        lex_lt(a.drop_first(), b.drop_first())
    }
}

/// A byte sequence consisting only of zero bytes.
pub open spec fn all_zero(s: Seq<u8>) -> bool {
    forall|i: int| 0 <= i < s.len() ==> s[i] == 0u8
}

/// Equality of two 32-byte strings.
pub fn eq32(a: &[u8; 32], b: &[u8; 32]) -> (r: bool)
    ensures
        r == (a@ == b@),
{
    let mut i: usize = 0;
    while i < 32
        invariant
            i <= 32,
            forall|j: int| 0 <= j < i ==> a@[j] == b@[j],
        decreases 32 - i,
    {
        if a[i] != b[i] {
            assert(a@ != b@);
            return false;
        }
        i += 1;
    }
    proof {
        assert(a@ =~= b@);
    }
    true
}

/// Equality of two 64-byte strings.
pub fn eq64(a: &[u8; 64], b: &[u8; 64]) -> (r: bool)
    ensures
        r == (a@ == b@),
{
    let mut i: usize = 0;
    while i < 64
        invariant
            i <= 64,
            forall|j: int| 0 <= j < i ==> a@[j] == b@[j],
        decreases 64 - i,
    {
        if a[i] != b[i] {
            assert(a@ != b@);
            return false;
        }
        i += 1;
    }
    proof {
        assert(a@ =~= b@);
    }
    true
}

/// Strict lexicographic comparison of two 32-byte strings.
pub fn lt32(a: &[u8; 32], b: &[u8; 32]) -> (r: bool)
    ensures
        r == lex_lt(a@, b@),
{
    let mut i: usize = 0;
    proof {
        assert(a@.skip(0) =~= a@);
        assert(b@.skip(0) =~= b@);
    }
    while i < 32
        invariant
            i <= 32,
            forall|j: int| 0 <= j < i ==> a@[j] == b@[j],
            lex_lt(a@, b@) == lex_lt(a@.skip(i as int), b@.skip(i as int)),
        decreases 32 - i,
    {
        let ghost pre = i as int;
        if a[i] < b[i] {
            return true;
        }
        if a[i] > b[i] {
            return false;
        }
        i += 1;
        proof {
            assert(a@.skip(pre).drop_first() =~= a@.skip(pre + 1));
            assert(b@.skip(pre).drop_first() =~= b@.skip(pre + 1));
        }
    }
    proof {
        assert(a@.skip(32) =~= Seq::<u8>::empty());
    }
    false
}

/// Whether a 32-byte string is all zeroes (the sentinel key).
pub fn is_zero32(a: &[u8; 32]) -> (r: bool)
    ensures
        r == all_zero(a@),
{
    let mut i: usize = 0;
    while i < 32
        invariant
            i <= 32,
            forall|j: int| 0 <= j < i ==> a@[j] == 0u8,
        decreases 32 - i,
    {
        if a[i] != 0 {
            return false;
        }
        i += 1;
    }
    true
}

/// The 8-byte big-endian encoding of a 64-bit integer.
pub open spec fn spec_u64_be(x: u64) -> Seq<u8> {
    seq![
        ((x >> 56) & 0xff) as u8,
        ((x >> 48) & 0xff) as u8,
        ((x >> 40) & 0xff) as u8,
        ((x >> 32) & 0xff) as u8,
        ((x >> 24) & 0xff) as u8,
        ((x >> 16) & 0xff) as u8,
        ((x >> 8) & 0xff) as u8,
        (x & 0xff) as u8,
    ]
}

pub fn u64_to_be_bytes(x: u64) -> (r: Vec<u8>)
    ensures
        r@ == spec_u64_be(x),
{
    let mut r: Vec<u8> = Vec::new();
    r.push(((x >> 56) & 0xff) as u8);
    r.push(((x >> 48) & 0xff) as u8);
    r.push(((x >> 40) & 0xff) as u8);
    r.push(((x >> 32) & 0xff) as u8);
    r.push(((x >> 24) & 0xff) as u8);
    r.push(((x >> 16) & 0xff) as u8);
    r.push(((x >> 8) & 0xff) as u8);
    r.push((x & 0xff) as u8);
    proof {
        assert(r@ =~= spec_u64_be(x));
    }
    r
}

/// The big-endian encoding is injective: two distinct integers never
/// share an encoding.
pub proof fn lemma_u64_be_injective(x: u64, y: u64)
    requires
        x != y,
    ensures
        spec_u64_be(x) != spec_u64_be(y),
{
    if spec_u64_be(x) == spec_u64_be(y) {
        assert(spec_u64_be(x)[0] == spec_u64_be(y)[0]);
        assert(spec_u64_be(x)[1] == spec_u64_be(y)[1]);
        assert(spec_u64_be(x)[2] == spec_u64_be(y)[2]);
        assert(spec_u64_be(x)[3] == spec_u64_be(y)[3]);
        assert(spec_u64_be(x)[4] == spec_u64_be(y)[4]);
        assert(spec_u64_be(x)[5] == spec_u64_be(y)[5]);
        assert(spec_u64_be(x)[6] == spec_u64_be(y)[6]);
        assert(spec_u64_be(x)[7] == spec_u64_be(y)[7]);
        assert(false) by (bit_vector)
            requires
                x != y,
                ((x >> 56) & 0xff) as u8 == ((y >> 56) & 0xff) as u8,
                ((x >> 48) & 0xff) as u8 == ((y >> 48) & 0xff) as u8,
                ((x >> 40) & 0xff) as u8 == ((y >> 40) & 0xff) as u8,
                ((x >> 32) & 0xff) as u8 == ((y >> 32) & 0xff) as u8,
                ((x >> 24) & 0xff) as u8 == ((y >> 24) & 0xff) as u8,
                ((x >> 16) & 0xff) as u8 == ((y >> 16) & 0xff) as u8,
                ((x >> 8) & 0xff) as u8 == ((y >> 8) & 0xff) as u8,
                (x & 0xff) as u8 == (y & 0xff) as u8,
        ;
    }
}

/// The 4-byte little-endian encoding of a 32-bit integer.
pub open spec fn spec_u32_le(x: u32) -> Seq<u8> {
    seq![
        (x & 0xff) as u8,
        ((x >> 8) & 0xff) as u8,
        ((x >> 16) & 0xff) as u8,
        ((x >> 24) & 0xff) as u8,
    ]
}

/// The 32-bit integer read from 4 bytes in big-endian order.
pub open spec fn spec_u32_from_be(b0: u8, b1: u8, b2: u8, b3: u8) -> u32 {
    (((b0 as u32) << 24) | ((b1 as u32) << 16) | ((b2 as u32) << 8) | (b3 as u32)) as u32
}

/// Append the bytes of a fixed-width array to a byte vector.
pub fn extend_bytes<const N: usize>(out: &mut Vec<u8>, b: &[u8; N])
    ensures
        final(out)@ == old(out)@ + b@,
{
    let mut i: usize = 0;
    while i < N
        invariant
            i <= N,
            out@ == old(out)@ + b@.take(i as int),
        decreases N - i,
    {
        out.push(b[i]);
        proof {
            assert(old(out)@ + b@.take(i as int) + seq![b@[i as int]] =~= old(out)@ + b@.take(
                i as int + 1,
            ));
        }
        i += 1;
    }
    proof {
        assert(b@.take(N as int) =~= b@);
    }
}

/// Append the contents of a byte vector to another byte vector.
pub fn extend_vec(out: &mut Vec<u8>, b: &Vec<u8>)
    ensures
        final(out)@ == old(out)@ + b@,
{
    let mut i: usize = 0;
    while i < b.len()
        invariant
            i <= b@.len(),
            out@ == old(out)@ + b@.take(i as int),
        decreases b@.len() - i,
    {
        out.push(b[i]);
        proof {
            assert(old(out)@ + b@.take(i as int) + seq![b@[i as int]] =~= old(out)@ + b@.take(
                i as int + 1,
            ));
        }
        i += 1;
    }
    proof {
        assert(b@.take(b@.len() as int) =~= b@);
    }
}

/// The unsigned integer a byte string denotes in big-endian order.
pub open spec fn be_value(s: Seq<u8>) -> nat
    decreases s.len(),
{
    if s.len() == 0 {
        0
    } else {
        (be_value(s.drop_last()) * 256 + s.last()) as nat
    }
}

/// An all-zero byte string denotes zero.
pub proof fn lemma_be_value_zero(s: Seq<u8>)
    requires
        all_zero(s),
    ensures
        be_value(s) == 0,
    decreases s.len(),
{
    if s.len() > 0 {
        lemma_be_value_zero(s.drop_last());
    }
}

/// A nonzero byte at position `k` puts the denoted value at or above the
/// place value of that position.
pub proof fn lemma_be_value_high_byte(s: Seq<u8>, k: int)
    requires
        0 <= k < s.len(),
        s[k] != 0,
    ensures
        be_value(s) >= vstd::arithmetic::power::pow(256, (s.len() - 1 - k) as nat),
    decreases s.len(),
{
    reveal(vstd::arithmetic::power::pow);
    vstd::arithmetic::power::lemma_pow_positive(256, (s.len() - 1 - k) as nat);
    if k == s.len() - 1 {
        assert(be_value(s) == be_value(s.drop_last()) * 256 + s.last());
        assert(be_value(s.drop_last()) * 256 >= 0) by (nonlinear_arith);
        assert(vstd::arithmetic::power::pow(256, 0) == 1);
    } else {
        lemma_be_value_high_byte(s.drop_last(), k);
        let e = (s.len() - 2 - k) as nat;
        let p = vstd::arithmetic::power::pow(256, e);
        vstd::arithmetic::power::lemma_pow_positive(256, e);
        assert(be_value(s.drop_last()) >= p);
        assert(be_value(s.drop_last()) * 256 >= p * 256) by (nonlinear_arith)
            requires
                be_value(s.drop_last()) >= p,
                p >= 0,
        ;
        assert(vstd::arithmetic::power::pow(256, e + 1) == 256 * p);
    }
}

/// Splitting a byte string splits its value by place: the prefix's value
/// scaled by the suffix's width, plus the suffix's value.
pub proof fn lemma_be_value_split(s: Seq<u8>, k: int)
    requires
        0 <= k <= s.len(),
    ensures
        be_value(s) == be_value(s.take(k)) * vstd::arithmetic::power::pow(
            256,
            (s.len() - k) as nat,
        ) + be_value(s.skip(k)),
    decreases s.len() - k,
{
    reveal(vstd::arithmetic::power::pow);
    if k == s.len() {
        assert(s.take(k) =~= s);
        assert(s.skip(k) =~= Seq::<u8>::empty());
        assert(vstd::arithmetic::power::pow(256, 0) == 1);
    } else {
        lemma_be_value_split(s.drop_last(), k);
        assert(s.drop_last().take(k) =~= s.take(k));
        assert(s.drop_last().skip(k) =~= s.skip(k).drop_last());
        assert(s.skip(k).len() > 0);
        assert(s.skip(k).last() == s.last());
        let a = be_value(s.take(k));
        let b = be_value(s.skip(k).drop_last());
        let e = (s.len() - 1 - k) as nat;
        let p = vstd::arithmetic::power::pow(256, e);
        assert(be_value(s.drop_last()) == a * p + b);
        assert(be_value(s) == (a * p + b) * 256 + s.last());
        assert((a * p + b) * 256 == a * (p * 256) + b * 256) by (nonlinear_arith);
        assert(vstd::arithmetic::power::pow(256, e + 1) == 256 * p);
        assert(be_value(s.skip(k)) == b * 256 + s.last());
    }
}

/// The place value of the ninth byte from the right.
pub proof fn lemma_pow256_8()
    ensures
        vstd::arithmetic::power::pow(256, 8) == 0x10000000000000000,
{
    reveal(vstd::arithmetic::power::pow);
    assert(vstd::arithmetic::power::pow(256, 0) == 1);
    assert(vstd::arithmetic::power::pow(256, 1) == 256);
    assert(vstd::arithmetic::power::pow(256, 2) == 0x10000);
    assert(vstd::arithmetic::power::pow(256, 3) == 0x1000000);
    assert(vstd::arithmetic::power::pow(256, 4) == 0x100000000);
    assert(vstd::arithmetic::power::pow(256, 5) == 0x10000000000);
    assert(vstd::arithmetic::power::pow(256, 6) == 0x1000000000000);
    assert(vstd::arithmetic::power::pow(256, 7) == 0x100000000000000);
}

/// The value of an 8-byte string, spelled out byte by byte.
proof fn lemma_be_value_8(b0: u8, b1: u8, b2: u8, b3: u8, b4: u8, b5: u8, b6: u8, b7: u8)
    ensures
        be_value(seq![b0, b1, b2, b3, b4, b5, b6, b7]) == (((((((b0 as nat) * 256 + b1) * 256
            + b2) * 256 + b3) * 256 + b4) * 256 + b5) * 256 + b6) * 256 + b7,
{
    let s = seq![b0, b1, b2, b3, b4, b5, b6, b7];
    assert(s.drop_last() =~= seq![b0, b1, b2, b3, b4, b5, b6]);
    assert(seq![b0, b1, b2, b3, b4, b5, b6].drop_last() =~= seq![b0, b1, b2, b3, b4, b5]);
    assert(seq![b0, b1, b2, b3, b4, b5].drop_last() =~= seq![b0, b1, b2, b3, b4]);
    assert(seq![b0, b1, b2, b3, b4].drop_last() =~= seq![b0, b1, b2, b3]);
    assert(seq![b0, b1, b2, b3].drop_last() =~= seq![b0, b1, b2]);
    assert(seq![b0, b1, b2].drop_last() =~= seq![b0, b1]);
    assert(seq![b0, b1].drop_last() =~= seq![b0]);
    assert(seq![b0].drop_last() =~= Seq::<u8>::empty());
    assert(be_value(Seq::<u8>::empty()) == 0);
    assert(be_value(seq![b0]) == b0);
    assert(be_value(seq![b0, b1]) == be_value(seq![b0]) * 256 + b1);
    assert(be_value(seq![b0, b1, b2]) == be_value(seq![b0, b1]) * 256 + b2);
    assert(be_value(seq![b0, b1, b2, b3]) == be_value(seq![b0, b1, b2]) * 256 + b3);
    assert(be_value(seq![b0, b1, b2, b3, b4]) == be_value(seq![b0, b1, b2, b3]) * 256 + b4);
    assert(be_value(seq![b0, b1, b2, b3, b4, b5]) == be_value(seq![b0, b1, b2, b3, b4]) * 256 + b5);
    assert(be_value(seq![b0, b1, b2, b3, b4, b5, b6]) == be_value(seq![b0, b1, b2, b3, b4, b5])
        * 256 + b6);
    assert(be_value(s) == be_value(seq![b0, b1, b2, b3, b4, b5, b6]) * 256 + b7);
}

/// The big-endian encoding round-trips: the 8 encoded bytes denote the
/// encoded integer.
pub proof fn lemma_be_value_u64_be(x: u64)
    ensures
        be_value(spec_u64_be(x)) == x,
{
    lemma_be_value_8(
        ((x >> 56) & 0xff) as u8,
        ((x >> 48) & 0xff) as u8,
        ((x >> 40) & 0xff) as u8,
        ((x >> 32) & 0xff) as u8,
        ((x >> 24) & 0xff) as u8,
        ((x >> 16) & 0xff) as u8,
        ((x >> 8) & 0xff) as u8,
        (x & 0xff) as u8,
    );
    let t0 = (x >> 56) & 0xff;
    let t1 = (x >> 48) & 0xff;
    let t2 = (x >> 40) & 0xff;
    let t3 = (x >> 32) & 0xff;
    let t4 = (x >> 24) & 0xff;
    let t5 = (x >> 16) & 0xff;
    let t6 = (x >> 8) & 0xff;
    let t7 = x & 0xff;
    assert(t0 <= 255 && t1 <= 255 && t2 <= 255 && t3 <= 255 && t4 <= 255 && t5 <= 255 && t6 <= 255
        && t7 <= 255) by (bit_vector)
        requires
            t0 == (x >> 56) & 0xff,
            t1 == (x >> 48) & 0xff,
            t2 == (x >> 40) & 0xff,
            t3 == (x >> 32) & 0xff,
            t4 == (x >> 24) & 0xff,
            t5 == (x >> 16) & 0xff,
            t6 == (x >> 8) & 0xff,
            t7 == x & 0xff,
    ;
    assert(x == ((((((t0 * 256 + t1) * 256 + t2) * 256 + t3) * 256 + t4) * 256 + t5) * 256 + t6)
        * 256 + t7) by (bit_vector)
        requires
            t0 == (x >> 56) & 0xff,
            t1 == (x >> 48) & 0xff,
            t2 == (x >> 40) & 0xff,
            t3 == (x >> 32) & 0xff,
            t4 == (x >> 24) & 0xff,
            t5 == (x >> 16) & 0xff,
            t6 == (x >> 8) & 0xff,
            t7 == x & 0xff,
    ;
}

/// The 64-bit integer read from 8 bytes in big-endian order.
pub fn u64_from_be_8(b0: u8, b1: u8, b2: u8, b3: u8, b4: u8, b5: u8, b6: u8, b7: u8) -> (r: u64)
    ensures
        r == be_value(seq![b0, b1, b2, b3, b4, b5, b6, b7]),
{
    let r = (((((((b0 as u64) * 256 + (b1 as u64)) * 256 + (b2 as u64)) * 256 + (b3 as u64)) * 256
        + (b4 as u64)) * 256 + (b5 as u64)) * 256 + (b6 as u64)) * 256 + (b7 as u64);
    proof {
        let s = seq![b0, b1, b2, b3, b4, b5, b6, b7];
        assert(s.drop_last() =~= seq![b0, b1, b2, b3, b4, b5, b6]);
        assert(seq![b0, b1, b2, b3, b4, b5, b6].drop_last() =~= seq![b0, b1, b2, b3, b4, b5]);
        assert(seq![b0, b1, b2, b3, b4, b5].drop_last() =~= seq![b0, b1, b2, b3, b4]);
        assert(seq![b0, b1, b2, b3, b4].drop_last() =~= seq![b0, b1, b2, b3]);
        assert(seq![b0, b1, b2, b3].drop_last() =~= seq![b0, b1, b2]);
        assert(seq![b0, b1, b2].drop_last() =~= seq![b0, b1]);
        assert(seq![b0, b1].drop_last() =~= seq![b0]);
        assert(seq![b0].drop_last() =~= Seq::<u8>::empty());
        assert(be_value(Seq::<u8>::empty()) == 0);
        assert(be_value(seq![b0]) == b0);
        assert(be_value(seq![b0, b1]) == be_value(seq![b0]) * 256 + b1);
        assert(be_value(seq![b0, b1, b2]) == be_value(seq![b0, b1]) * 256 + b2);
        assert(be_value(seq![b0, b1, b2, b3]) == be_value(seq![b0, b1, b2]) * 256 + b3);
        assert(be_value(seq![b0, b1, b2, b3, b4]) == be_value(seq![b0, b1, b2, b3]) * 256 + b4);
        assert(be_value(seq![b0, b1, b2, b3, b4, b5]) == be_value(seq![b0, b1, b2, b3, b4]) * 256
            + b5);
        assert(be_value(seq![b0, b1, b2, b3, b4, b5, b6]) == be_value(seq![b0, b1, b2, b3, b4, b5])
            * 256 + b6);
        assert(be_value(s) == be_value(seq![b0, b1, b2, b3, b4, b5, b6]) * 256 + b7);
    }
    r
}

/// Copy a verified-length byte vector into a 32-byte array.
pub fn to_array32(v: &Vec<u8>) -> (r: [u8; 32])
    requires
        v@.len() == 32,
    ensures
        r@ == v@,
{
    let mut r: [u8; 32] = [0; 32];
    let mut i: usize = 0;
    while i < 32
        invariant
            i <= 32,
            v@.len() == 32,
            forall|j: int| 0 <= j < i ==> r@[j] == v@[j],
        decreases 32 - i,
    {
        r[i] = v[i];
        i += 1;
    }
    proof {
        assert(r@ =~= v@);
    }
    r
}

} // verus!
