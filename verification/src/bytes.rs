//! Integers as bytes, least or most significant byte first.

use vstd::prelude::*;

verus! {

/// Two bytes, least significant first.
pub open spec fn le16(n: nat) -> Seq<u8> {
    seq![(n % 256) as u8, (n / 256 % 256) as u8]
}

/// Four bytes, least significant first.
pub open spec fn le32(n: nat) -> Seq<u8> {
    seq![
        (n % 256) as u8,
        (n / 256 % 256) as u8,
        (n / 65536 % 256) as u8,
        (n / 16777216 % 256) as u8,
    ]
}

/// Eight bytes, least significant first.
pub open spec fn le64(n: nat) -> Seq<u8> {
    le32(n % 0x1_0000_0000) + le32(n / 0x1_0000_0000)
}

/// Two bytes, most significant first.
pub open spec fn be16(n: nat) -> Seq<u8> {
    seq![(n / 256 % 256) as u8, (n % 256) as u8]
}

/// Four bytes, most significant first.
pub open spec fn be32(n: nat) -> Seq<u8> {
    be16(n / 65536) + be16(n % 65536)
}

/// Eight bytes, most significant first.
pub open spec fn be64(n: nat) -> Seq<u8> {
    be32(n / 0x1_0000_0000) + be32(n % 0x1_0000_0000)
}

/// The number whose four bytes stand at `i`, least significant first.
pub open spec fn le32_at(b: Seq<u8>, i: int) -> nat {
    (b[i] as nat) + 256 * (b[i + 1] as nat) + 65536 * (b[i + 2] as nat) + 16777216 * (b[i
        + 3] as nat)
}

/// The number whose two bytes stand at `i`, least significant first.
pub open spec fn le16_at(b: Seq<u8>, i: int) -> nat {
    (b[i] as nat) + 256 * (b[i + 1] as nat)
}

/// The number whose two bytes stand at `i`, most significant first.
pub open spec fn be16_at(b: Seq<u8>, i: int) -> nat {
    256 * (b[i] as nat) + (b[i + 1] as nat)
}

/// The four bytes of a number denote it.
pub proof fn lemma_le32(n: nat)
    requires
        n <= u32::MAX,
    ensures
        le32_at(le32(n), 0) == n,
{
    let a = n % 256;
    let q = n / 256;
    let b = q % 256;
    let r = q / 256;
    let c = r % 256;
    let d = r / 256;
    assert(n == q * 256 + a && q == r * 256 + b && r == d * 256 + c);
    assert(n / 65536 == r) by {
        assert(n == r * 65536 + (b * 256 + a));
    }
    assert(n / 16777216 == d) by {
        assert(n == d * 16777216 + (c * 65536 + b * 256 + a));
    }
    assert(d < 256);
    let s = le32(n);
    assert(s[0] == a && s[1] == b && s[2] == c && s[3] == d);
}

/// The number of the signed 16-bit sample whose bits are `n`.
pub open spec fn signed16(n: nat) -> int {
    if n >= 0x8000 {
        n - 0x1_0000
    } else {
        n as int
    }
}

/// The bits of a signed 32-bit number.
pub open spec fn bits32(i: int) -> nat {
    (if i < 0 {
        i + 0x1_0000_0000
    } else {
        i
    }) as nat
}

/// The signed 32-bit number whose bits are `n`.
pub open spec fn signed32(n: nat) -> int {
    if n >= 0x8000_0000 {
        n - 0x1_0000_0000
    } else {
        n as int
    }
}

pub fn push_le16(out: &mut Vec<u8>, n: u16)
    ensures
        final(out)@ == old(out)@ + le16(n as nat),
{
    out.push((n % 256) as u8);
    out.push((n / 256) as u8);
    assert(out@ =~= old(out)@ + le16(n as nat));
}

pub fn push_le32(out: &mut Vec<u8>, n: u32)
    ensures
        final(out)@ == old(out)@ + le32(n as nat),
{
    out.push((n % 256) as u8);
    out.push((n / 256 % 256) as u8);
    out.push((n / 65536 % 256) as u8);
    out.push((n / 16777216) as u8);
    assert(out@ =~= old(out)@ + le32(n as nat));
}

pub fn push_le64(out: &mut Vec<u8>, n: u64)
    ensures
        final(out)@ == old(out)@ + le64(n as nat),
{
    push_le32(out, (n % 0x1_0000_0000) as u32);
    push_le32(out, (n / 0x1_0000_0000) as u32);
    assert(out@ =~= old(out)@ + le64(n as nat));
}

pub fn push_be16(out: &mut Vec<u8>, n: u16)
    ensures
        final(out)@ == old(out)@ + be16(n as nat),
{
    out.push((n / 256) as u8);
    out.push((n % 256) as u8);
    assert(out@ =~= old(out)@ + be16(n as nat));
}

pub fn push_be32(out: &mut Vec<u8>, n: u32)
    ensures
        final(out)@ == old(out)@ + be32(n as nat),
{
    push_be16(out, (n / 65536) as u16);
    push_be16(out, (n % 65536) as u16);
    assert(out@ =~= old(out)@ + be32(n as nat));
}

pub fn push_be64(out: &mut Vec<u8>, n: u64)
    ensures
        final(out)@ == old(out)@ + be64(n as nat),
{
    push_be32(out, (n / 0x1_0000_0000) as u32);
    push_be32(out, (n % 0x1_0000_0000) as u32);
    assert(out@ =~= old(out)@ + be64(n as nat));
}

pub fn read_le32(b: &[u8], i: usize) -> (n: u32)
    requires
        i + 4 <= b@.len(),
    ensures
        n == le32_at(b@, i as int),
{
    (b[i] as u32) + 256 * (b[i + 1] as u32) + 65536 * (b[i + 2] as u32) + 16777216 * (b[i
        + 3] as u32)
}

pub fn read_le16(b: &[u8], i: usize) -> (n: u16)
    requires
        i + 2 <= b@.len(),
    ensures
        n == le16_at(b@, i as int),
{
    (b[i] as u16) + 256 * (b[i + 1] as u16)
}

pub fn read_be16(b: &[u8], i: usize) -> (n: u16)
    requires
        i + 2 <= b@.len(),
    ensures
        n == be16_at(b@, i as int),
{
    256 * (b[i] as u16) + (b[i + 1] as u16)
}

/// Appends `src`.
pub fn push_all(out: &mut Vec<u8>, src: &[u8])
    ensures
        final(out)@ == old(out)@ + src@,
{
    out.extend_from_slice(src);
    assert(out@ =~= old(out)@ + src@);
}

/// Appends `n` zero bytes.
pub fn push_zeros(out: &mut Vec<u8>, n: usize)
    ensures
        final(out)@ == old(out)@ + Seq::new(n as nat, |i: int| 0u8),
{
    let mut k: usize = 0;
    while k < n
        invariant
            k <= n,
            out@ =~= old(out)@ + Seq::new(k as nat, |i: int| 0u8),
        decreases n - k,
    {
        out.push(0);
        k = k + 1;
    }
}

/// The bytes of a number weigh what they stand for, the least significant first.
pub proof fn law_little_endian(n: nat)
    ensures
        n < 0x1_0000 ==> le16(n).len() == 2 && le16(n)[0] + 256 * le16(n)[1] == n,
        n < 0x1_0000_0000 ==> le32(n).len() == 4 && le32(n)[0] + 256 * le32(n)[1] + 65536 * le32(n)[2]
            + 16777216 * le32(n)[3] == n,
{
    if n < 0x1_0000_0000 {
        lemma_le32(n);
    }
}

/// The same for eight bytes.
pub proof fn law_little_endian_wide(n: nat)
    requires
        n < 0x1_0000_0000_0000_0000,
    ensures
        le64(n).len() == 8,
        le64(n)[0] + 256 * le64(n)[1] + 65536 * le64(n)[2] + 16777216 * le64(n)[3] == n
            % 0x1_0000_0000,
        le64(n)[4] + 256 * le64(n)[5] + 65536 * le64(n)[6] + 16777216 * le64(n)[7] == n
            / 0x1_0000_0000,
{
    let lo = n % 0x1_0000_0000;
    let hi = n / 0x1_0000_0000;
    lemma_le32(lo);
    lemma_le32(hi);
    let b = le64(n);
    assert(b[0] == le32(lo)[0] && b[1] == le32(lo)[1] && b[2] == le32(lo)[2] && b[3] == le32(lo)[3]);
    assert(b[4] == le32(hi)[0] && b[5] == le32(hi)[1] && b[6] == le32(hi)[2] && b[7] == le32(hi)[3]);
}

/// The same for the most significant first.
pub proof fn law_big_endian(n: nat)
    ensures
        n < 0x1_0000 ==> be16(n).len() == 2 && 256 * be16(n)[0] + be16(n)[1] == n,
        n < 0x1_0000_0000 ==> be32(n).len() == 4 && 16777216 * be32(n)[0] + 65536 * be32(n)[1] + 256
            * be32(n)[2] + be32(n)[3] == n,
{
}

/// The same for eight bytes.
pub proof fn law_big_endian_wide(n: nat)
    requires
        n < 0x1_0000_0000_0000_0000,
    ensures
        be64(n).len() == 8,
        16777216 * be64(n)[0] + 65536 * be64(n)[1] + 256 * be64(n)[2] + be64(n)[3] == n
            / 0x1_0000_0000,
        16777216 * be64(n)[4] + 65536 * be64(n)[5] + 256 * be64(n)[6] + be64(n)[7] == n
            % 0x1_0000_0000,
{
    let lo = n % 0x1_0000_0000;
    let hi = n / 0x1_0000_0000;
    law_big_endian(lo);
    law_big_endian(hi);
    let b = be64(n);
    assert(b[0] == be32(hi)[0] && b[1] == be32(hi)[1] && b[2] == be32(hi)[2] && b[3] == be32(hi)[3]);
    assert(b[4] == be32(lo)[0] && b[5] == be32(lo)[1] && b[6] == be32(lo)[2] && b[7] == be32(lo)[3]);
}

/// A number that was written is read where it was put.
pub proof fn law_numbers_read_back(a: Seq<u8>, n: nat, b: Seq<u8>)
    ensures
        n < 0x1_0000 ==> le16_at(a + le16(n) + b, a.len() as int) == n,
        n < 0x1_0000_0000 ==> le32_at(a + le32(n) + b, a.len() as int) == n,
        n < 0x1_0000 ==> be16_at(a + be16(n) + b, a.len() as int) == n,
{
}

/// A sign is read from the top half of the range, and what is read differs from what stands there by
/// a whole turn at most.
pub proof fn law_signs(n: nat, i: int)
    ensures
        n < 0x8000 ==> signed16(n) == n,
        0x8000 <= n < 0x1_0000 ==> signed16(n) == n - 0x1_0000,
        n < 0x8000_0000 ==> signed32(n) == n,
        0x8000_0000 <= n < 0x1_0000_0000 ==> signed32(n) == n - 0x1_0000_0000,
        -0x8000_0000 <= i < 0x8000_0000 ==> bits32(i) < 0x1_0000_0000 && signed32(bits32(i)) == i,
        n < 0x1_0000_0000 ==> bits32(signed32(n)) == n,
{
}

/// Eight bytes at the end of a sequence are found there.
pub proof fn lemma_last_eight(x: Seq<u8>, t: Seq<u8>)
    requires
        t.len() == 8,
    ensures
        ({
            let p = x + t;
            let n = p.len() as int;
            &&& n == x.len() + 8
            &&& p[n - 8] == t[0] && p[n - 7] == t[1] && p[n - 6] == t[2] && p[n - 5] == t[3]
            &&& p[n - 4] == t[4] && p[n - 3] == t[5] && p[n - 2] == t[6] && p[n - 1] == t[7]
        }),
{
}

} // verus!
