//! The MD5 digest (RFC 1321).

use vstd::arithmetic::div_mod::lemma_small_mod;
use vstd::prelude::*;

use crate::bytes::{le32, le32_at, le64, push_all, push_le64, push_zeros, read_le32};
use crate::number::{hex_encode, hex_of};

verus! {

/// Per-round left-rotate amounts.
pub const S: [u32; 64] = [
    7, 12, 17, 22, 7, 12, 17, 22, 7, 12, 17, 22, 7, 12, 17, 22,
    5, 9, 14, 20, 5, 9, 14, 20, 5, 9, 14, 20, 5, 9, 14, 20,
    4, 11, 16, 23, 4, 11, 16, 23, 4, 11, 16, 23, 4, 11, 16, 23,
    6, 10, 15, 21, 6, 10, 15, 21, 6, 10, 15, 21, 6, 10, 15, 21,
];

/// `K[i] = floor(abs(sin(i + 1)) * 2^32)`.
pub const K: [u32; 64] = [
    0xd76aa478, 0xe8c7b756, 0x242070db, 0xc1bdceee, 0xf57c0faf, 0x4787c62a, 0xa8304613, 0xfd469501,
    0x698098d8, 0x8b44f7af, 0xffff5bb1, 0x895cd7be, 0x6b901122, 0xfd987193, 0xa679438e, 0x49b40821,
    0xf61e2562, 0xc040b340, 0x265e5a51, 0xe9b6c7aa, 0xd62f105d, 0x02441453, 0xd8a1e681, 0xe7d3fbc8,
    0x21e1cde6, 0xc33707d6, 0xf4d50d87, 0x455a14ed, 0xa9e3e905, 0xfcefa3f8, 0x676f02d9, 0x8d2a4c8a,
    0xfffa3942, 0x8771f681, 0x6d9d6122, 0xfde5380c, 0xa4beea44, 0x4bdecfa9, 0xf6bb4b60, 0xbebfbc70,
    0x289b7ec6, 0xeaa127fa, 0xd4ef3085, 0x04881d05, 0xd9d4d039, 0xe6db99e5, 0x1fa27cf8, 0xc4ac5665,
    0xf4292244, 0x432aff97, 0xab9423a7, 0xfc93a039, 0x655b59c3, 0x8f0ccc92, 0xffeff47d, 0x85845dd1,
    0x6fa87e4f, 0xfe2ce6e0, 0xa3014314, 0x4e0811a1, 0xf7537e82, 0xbd3af235, 0x2ad7d2bb, 0xeb86d391,
];

/// The chaining value.
#[derive(Clone, Copy)]
pub struct State {
    pub a: u32,
    pub b: u32,
    pub c: u32,
    pub d: u32,
}

/// The chaining value before the first block.
pub open spec fn init() -> State {
    State { a: 0x67452301, b: 0xefcdab89, c: 0x98badcfe, d: 0x10325476 }
}

pub open spec fn rotl(x: u32, s: u32) -> u32 {
    (x << s) | (x >> ((32 - s) as u32))
}

/// The round function of operation `i`.
pub open spec fn mix(i: int, b: u32, c: u32, d: u32) -> u32 {
    if i < 16 {
        (b & c) | (!b & d)
    } else if i < 32 {
        (d & b) | (!d & c)
    } else if i < 48 {
        b ^ c ^ d
    } else {
        c ^ (b | !d)
    }
}

/// Which word of the block operation `i` takes.
pub open spec fn pick(i: int) -> int {
    if i < 16 {
        i
    } else if i < 32 {
        (5 * i + 1) % 16
    } else if i < 48 {
        (3 * i + 5) % 16
    } else {
        (7 * i) % 16
    }
}

/// Operation `i` on the block of 64 bytes at `at`.
pub open spec fn operation(st: State, msg: Seq<u8>, at: int, i: int) -> State {
    let word = le32_at(msg, at + 4 * pick(i)) as u32;
    let f = mix(i, st.b, st.c, st.d).wrapping_add(st.a).wrapping_add(K@[i]).wrapping_add(word);
    State { a: st.d, b: st.b.wrapping_add(rotl(f, S@[i])), c: st.b, d: st.c }
}

/// The first `n` operations on a block.
pub open spec fn operations(st: State, msg: Seq<u8>, at: int, n: int) -> State
    decreases n,
{
    if n <= 0 {
        st
    } else {
        operation(operations(st, msg, at, n - 1), msg, at, n - 1)
    }
}

/// The chaining value behind the block of 64 bytes at `at`.
pub open spec fn absorb(st: State, msg: Seq<u8>, at: int) -> State {
    let r = operations(st, msg, at, 64);
    State {
        a: st.a.wrapping_add(r.a),
        b: st.b.wrapping_add(r.b),
        c: st.c.wrapping_add(r.c),
        d: st.d.wrapping_add(r.d),
    }
}

/// The chaining value behind the first `n` blocks.
pub open spec fn absorb_all(msg: Seq<u8>, n: int) -> State
    decreases n,
{
    if n <= 0 {
        init()
    } else {
        absorb(absorb_all(msg, n - 1), msg, 64 * (n - 1))
    }
}

/// How many zeros stand between the marker and the length.
pub open spec fn zero_fill(len: nat) -> nat {
    (119 - len % 64) as nat % 64
}

/// The message with its padding: one marker byte, zeros up to a length of 56 modulo 64, and the
/// length in bits as eight bytes.
pub open spec fn pad(input: Seq<u8>) -> Seq<u8> {
    input.push(0x80) + Seq::new(zero_fill(input.len()), |i: int| 0u8) + le64(
        input.len() * 8 % 0x1_0000_0000_0000_0000,
    )
}

/// The MD5 digest of `input`.
pub open spec fn digest_of(input: Seq<u8>) -> Seq<u8> {
    let msg = pad(input);
    let st = absorb_all(msg, msg.len() as int / 64);
    le32(st.a as nat) + le32(st.b as nat) + le32(st.c as nat) + le32(st.d as nat)
}

fn rotate_left(x: u32, s: u32) -> (r: u32)
    requires
        0 < s < 32,
    ensures
        r == rotl(x, s),
{
    (x << s) | (x >> (32 - s))
}

proof fn lemma_rotations_in_range()
    ensures
        forall|i: int| 0 <= i < 64 ==> 0 < #[trigger] S@[i] < 32,
{
}

/// The chaining value behind the block at `at`.
fn absorb_block(st: State, msg: &Vec<u8>, at: usize) -> (out: State)
    requires
        at + 64 <= msg.len(),
    ensures
        out == absorb(st, msg@, at as int),
{
    let mut r: State = st;
    let mut i: usize = 0;
    proof {
        lemma_rotations_in_range();
    }
    while i < 64
        invariant
            i <= 64,
            at + 64 <= msg.len(),
            r == operations(st, msg@, at as int, i as int),
            forall|j: int| 0 <= j < 64 ==> 0 < #[trigger] S@[j] < 32,
        decreases 64 - i,
    {
        let (f, g): (u32, usize) = if i < 16 {
            ((r.b & r.c) | (!r.b & r.d), i)
        } else if i < 32 {
            ((r.d & r.b) | (!r.d & r.c), (5 * i + 1) % 16)
        } else if i < 48 {
            (r.b ^ r.c ^ r.d, (3 * i + 5) % 16)
        } else {
            (r.c ^ (r.b | !r.d), (7 * i) % 16)
        };
        let word: u32 = read_le32(msg.as_slice(), at + 4 * g);
        let f: u32 = f.wrapping_add(r.a).wrapping_add(K[i]).wrapping_add(word);
        let s: u32 = S[i];
        assert(s == S@[i as int]);
        r = State { a: r.d, b: r.b.wrapping_add(rotate_left(f, s)), c: r.b, d: r.c };
        i = i + 1;
    }
    State {
        a: st.a.wrapping_add(r.a),
        b: st.b.wrapping_add(r.b),
        c: st.c.wrapping_add(r.c),
        d: st.d.wrapping_add(r.d),
    }
}

fn byte(n: u32, k: u32) -> (b: u8)
    requires
        k == 1 || k == 256 || k == 65536 || k == 16777216,
    ensures
        b == (n as nat / k as nat % 256) as u8,
{
    (n / k % 256) as u8
}

/// The 16-byte MD5 digest of `input`.
#[verifier::rlimit(40)]
pub fn digest(input: &[u8]) -> (out: [u8; 16])
    ensures
        out@ == digest_of(input@),
{
    let mut msg: Vec<u8> = Vec::new();
    push_all(&mut msg, input);
    assert(msg@ =~= input@);
    msg.push(0x80);
    let fill: usize = (119 - input.len() % 64) % 64;
    push_zeros(&mut msg, fill);
    let bit_len: u64 = (input.len() as u64).wrapping_mul(8);
    push_le64(&mut msg, bit_len);
    assert(msg@ =~= pad(input@));
    let mut st: State = State { a: 0x67452301, b: 0xefcdab89, c: 0x98badcfe, d: 0x10325476 };
    let blocks: usize = msg.len() / 64;
    let mut n: usize = 0;
    while n < blocks
        invariant
            n <= blocks,
            64 * blocks <= msg.len(),
            st == absorb_all(msg@, n as int),
        decreases blocks - n,
    {
        st = absorb_block(st, &msg, 64 * n);
        n = n + 1;
    }
    let out: [u8; 16] = [
        byte(st.a, 1), byte(st.a, 256), byte(st.a, 65536), byte(st.a, 16777216),
        byte(st.b, 1), byte(st.b, 256), byte(st.b, 65536), byte(st.b, 16777216),
        byte(st.c, 1), byte(st.c, 256), byte(st.c, 65536), byte(st.c, 16777216),
        byte(st.d, 1), byte(st.d, 256), byte(st.d, 65536), byte(st.d, 16777216),
    ];
    assert(out@ =~= digest_of(input@));
    out
}

/// Lowercase 32-character hex encoding of `digest(input)`.
pub fn hex(input: &[u8]) -> (s: String)
    ensures
        s@ == hex_of(digest_of(input@)),
{
    let d: [u8; 16] = digest(input);
    hex_encode(d.as_slice())
}

/// The padded message is whole blocks, starts with the input, and keeps its length.
pub proof fn law_padding_is_whole_blocks(input: Seq<u8>)
    ensures
        pad(input).len() % 64 == 0,
        pad(input).len() >= input.len() + 9,
        pad(input).len() < input.len() + 73,
        pad(input).subrange(0, input.len() as int) == input,
        pad(input)[input.len() as int] == 0x80,
{
    let n = input.len();
    let r = n % 64;
    let z = zero_fill(n);
    assert(z == if r <= 55 {
        55 - r
    } else {
        119 - r
    });
    let tail = le64(n * 8 % 0x1_0000_0000_0000_0000);
    assert(tail.len() == 8);
    assert(pad(input).len() == n + 1 + z + 8);
    assert(n == 64 * (n / 64) + r);
    assert(pad(input).subrange(0, n as int) =~= input);
}

/// The digest is 16 bytes and its hexadecimal form 32 characters, whatever the input.
pub proof fn law_digest_size(input: Seq<u8>)
    ensures
        digest_of(input).len() == 16,
        hex_of(digest_of(input)).len() == 32,
{
    crate::number::lemma_hex_of(digest_of(input));
}

/// Between the input and its length there are zeros alone, and the length is given in bits, the least
/// significant byte first.
pub proof fn law_padding_gives_the_length(input: Seq<u8>, i: int)
    requires
        input.len() < 0x2000_0000_0000_0000,
        input.len() < i < pad(input).len() - 8,
    ensures
        pad(input)[i] == 0,
        ({
            let p = pad(input);
            let n = p.len() as int;
            p[n - 8] + 256 * p[n - 7] + 65536 * p[n - 6] + 16777216 * p[n - 5] + 0x1_0000_0000 * (p[n
                - 4] + 256 * p[n - 3] + 65536 * p[n - 2] + 16777216 * p[n - 1]) == 8 * input.len()
        }),
{
    let bits = input.len() * 8;
    let z = Seq::new(zero_fill(input.len()), |k: int| 0u8);
    let x = input.push(0x80) + z;
    let t = le64(bits);
    crate::bytes::law_little_endian_wide(bits);
    lemma_small_mod(bits, 0x1_0000_0000_0000_0000);
    crate::bytes::lemma_last_eight(x, t);
    assert(pad(input) == x + t);
    assert(x[i] == z[i - input.len() - 1]);
}

} // verus!
