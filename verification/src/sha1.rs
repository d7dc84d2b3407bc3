//! The SHA-1 digest (RFC 3174), for the WebSocket handshake.

use vstd::arithmetic::div_mod::lemma_small_mod;
use vstd::prelude::*;

use crate::bytes::{be32, be64, push_all, push_be32, push_be64, push_zeros};
use crate::md5::zero_fill;

verus! {

/// The chaining value.
#[derive(Clone, Copy)]
pub struct State {
    pub a: u32,
    pub b: u32,
    pub c: u32,
    pub d: u32,
    pub e: u32,
}

pub open spec fn init() -> State {
    State { a: 0x67452301, b: 0xefcdab89, c: 0x98badcfe, d: 0x10325476, e: 0xc3d2e1f0 }
}

pub open spec fn rotl(x: u32, s: u32) -> u32 {
    (x << s) | (x >> ((32 - s) as u32))
}

/// The word whose four bytes stand at `i`, most significant first.
pub open spec fn be32_at(b: Seq<u8>, i: int) -> nat {
    16777216 * (b[i] as nat) + 65536 * (b[i + 1] as nat) + 256 * (b[i + 2] as nat) + (b[i
        + 3] as nat)
}

/// Word `t` of the schedule of the block at `at`.
pub open spec fn word(msg: Seq<u8>, at: int, t: int) -> u32
    decreases t,
{
    if t < 16 {
        be32_at(msg, at + 4 * t) as u32
    } else {
        rotl(
            word(msg, at, t - 3) ^ word(msg, at, t - 8) ^ word(msg, at, t - 14) ^ word(
                msg,
                at,
                t - 16,
            ),
            1,
        )
    }
}

/// The round function of operation `t`.
pub open spec fn mix(t: int, b: u32, c: u32, d: u32) -> u32 {
    if t < 20 {
        (b & c) | (!b & d)
    } else if 40 <= t < 60 {
        (b & c) | (b & d) | (c & d)
    } else {
        b ^ c ^ d
    }
}

/// The constant of operation `t`.
pub open spec fn key(t: int) -> u32 {
    if t < 20 {
        0x5a827999
    } else if t < 40 {
        0x6ed9eba1
    } else if t < 60 {
        0x8f1bbcdc
    } else {
        0xca62c1d6
    }
}

pub open spec fn operation(st: State, w: u32, t: int) -> State {
    State {
        a: rotl(st.a, 5).wrapping_add(mix(t, st.b, st.c, st.d)).wrapping_add(st.e).wrapping_add(
            w,
        ).wrapping_add(key(t)),
        b: st.a,
        c: rotl(st.b, 30),
        d: st.c,
        e: st.d,
    }
}

/// The first `n` operations on the block at `at`.
pub open spec fn operations(st: State, msg: Seq<u8>, at: int, n: int) -> State
    decreases n,
{
    if n <= 0 {
        st
    } else {
        operation(operations(st, msg, at, n - 1), word(msg, at, n - 1), n - 1)
    }
}

/// The chaining value behind the block at `at`.
pub open spec fn absorb(st: State, msg: Seq<u8>, at: int) -> State {
    let r = operations(st, msg, at, 80);
    State {
        a: st.a.wrapping_add(r.a),
        b: st.b.wrapping_add(r.b),
        c: st.c.wrapping_add(r.c),
        d: st.d.wrapping_add(r.d),
        e: st.e.wrapping_add(r.e),
    }
}

pub open spec fn absorb_all(msg: Seq<u8>, n: int) -> State
    decreases n,
{
    if n <= 0 {
        init()
    } else {
        absorb(absorb_all(msg, n - 1), msg, 64 * (n - 1))
    }
}

/// The message with its padding: one marker byte, zeros, and the length in bits.
pub open spec fn pad(input: Seq<u8>) -> Seq<u8> {
    input.push(0x80) + Seq::new(zero_fill(input.len()), |i: int| 0u8) + be64(
        input.len() * 8 % 0x1_0000_0000_0000_0000,
    )
}

/// The SHA-1 digest of `input`.
pub open spec fn digest_of(input: Seq<u8>) -> Seq<u8> {
    let msg = pad(input);
    let st = absorb_all(msg, msg.len() as int / 64);
    be32(st.a as nat) + be32(st.b as nat) + be32(st.c as nat) + be32(st.d as nat) + be32(
        st.e as nat,
    )
}

fn rotate_left(x: u32, s: u32) -> (r: u32)
    requires
        0 < s < 32,
    ensures
        r == rotl(x, s),
{
    (x << s) | (x >> (32 - s))
}

fn read_word(msg: &Vec<u8>, i: usize) -> (w: u32)
    requires
        i + 4 <= msg.len(),
    ensures
        w == be32_at(msg@, i as int),
{
    16777216 * (msg[i] as u32) + 65536 * (msg[i + 1] as u32) + 256 * (msg[i + 2] as u32) + (msg[i
        + 3] as u32)
}

/// The 80 words of the schedule of the block at `at`.
fn schedule(msg: &Vec<u8>, at: usize) -> (w: Vec<u32>)
    requires
        at + 64 <= msg.len(),
    ensures
        w@.len() == 80,
        forall|t: int| 0 <= t < 80 ==> #[trigger] w@[t] == word(msg@, at as int, t),
{
    let mut w: Vec<u32> = Vec::new();
    let mut t: usize = 0;
    while t < 80
        invariant
            t <= 80,
            at + 64 <= msg.len(),
            w@.len() == t,
            forall|k: int| 0 <= k < t ==> #[trigger] w@[k] == word(msg@, at as int, k),
        decreases 80 - t,
    {
        let x: u32 = if t < 16 {
            read_word(msg, at + 4 * t)
        } else {
            rotate_left(w[t - 3] ^ w[t - 8] ^ w[t - 14] ^ w[t - 16], 1)
        };
        w.push(x);
        t = t + 1;
    }
    w
}

fn absorb_block(st: State, msg: &Vec<u8>, at: usize) -> (out: State)
    requires
        at + 64 <= msg.len(),
    ensures
        out == absorb(st, msg@, at as int),
{
    let w: Vec<u32> = schedule(msg, at);
    let mut r: State = st;
    let mut t: usize = 0;
    while t < 80
        invariant
            t <= 80,
            w@.len() == 80,
            forall|k: int| 0 <= k < 80 ==> #[trigger] w@[k] == word(msg@, at as int, k),
            r == operations(st, msg@, at as int, t as int),
        decreases 80 - t,
    {
        let (f, k): (u32, u32) = if t < 20 {
            ((r.b & r.c) | (!r.b & r.d), 0x5a827999)
        } else if t < 40 {
            (r.b ^ r.c ^ r.d, 0x6ed9eba1)
        } else if t < 60 {
            ((r.b & r.c) | (r.b & r.d) | (r.c & r.d), 0x8f1bbcdc)
        } else {
            (r.b ^ r.c ^ r.d, 0xca62c1d6)
        };
        let a: u32 = rotate_left(r.a, 5).wrapping_add(f).wrapping_add(r.e).wrapping_add(
            w[t],
        ).wrapping_add(k);
        r = State { a, b: r.a, c: rotate_left(r.b, 30), d: r.c, e: r.d };
        t = t + 1;
    }
    State {
        a: st.a.wrapping_add(r.a),
        b: st.b.wrapping_add(r.b),
        c: st.c.wrapping_add(r.c),
        d: st.d.wrapping_add(r.d),
        e: st.e.wrapping_add(r.e),
    }
}

/// The message with its padding.
fn padded(input: &[u8]) -> (msg: Vec<u8>)
    ensures
        msg@ == pad(input@),
{
    let mut msg: Vec<u8> = Vec::new();
    push_all(&mut msg, input);
    assert(msg@ =~= input@);
    msg.push(0x80);
    let fill: usize = (119 - input.len() % 64) % 64;
    push_zeros(&mut msg, fill);
    assert(fill == zero_fill(input@.len()));
    let bit_len: u64 = (input.len() as u64).wrapping_mul(8);
    assert(bit_len as nat == input@.len() * 8 % 0x1_0000_0000_0000_0000);
    push_be64(&mut msg, bit_len);
    msg
}

/// The 20-byte SHA-1 digest of `input`.
pub fn digest(input: &[u8]) -> (out: Vec<u8>)
    ensures
        out@ == digest_of(input@),
{
    let msg: Vec<u8> = padded(input);
    let mut st: State = State {
        a: 0x67452301,
        b: 0xefcdab89,
        c: 0x98badcfe,
        d: 0x10325476,
        e: 0xc3d2e1f0,
    };
    let blocks: usize = msg.len() / 64;
    let mut n: usize = 0;
    while n < blocks
        invariant
            n <= blocks,
            64 * blocks <= msg.len(),
            st == absorb_all(msg@, n as int),
        decreases blocks - n,
    {
        st = absorb_block(st, &msg, 64 * n);
        n = n + 1;
    }
    let mut out: Vec<u8> = Vec::new();
    push_be32(&mut out, st.a);
    assert(out@ =~= be32(st.a as nat));
    push_be32(&mut out, st.b);
    push_be32(&mut out, st.c);
    push_be32(&mut out, st.d);
    push_be32(&mut out, st.e);
    out
}

proof fn lemma_five_words(a: nat, b: nat, c: nat, d: nat, e: nat)
    ensures
        (be32(a) + be32(b) + be32(c) + be32(d) + be32(e)).len() == 20,
{
}

/// The digest is 20 bytes, whatever the input.
pub proof fn law_digest_size(input: Seq<u8>)
    ensures
        digest_of(input).len() == 20,
{
    let msg = pad(input);
    let st = absorb_all(msg, msg.len() as int / 64);
    lemma_five_words(st.a as nat, st.b as nat, st.c as nat, st.d as nat, st.e as nat);
}

/// The padded message starts with the input and a one bit. Zeros alone follow, up to the length in
/// bits, the most significant byte first.
pub proof fn law_padding_gives_the_length(input: Seq<u8>, i: int)
    requires
        input.len() < 0x2000_0000_0000_0000,
        input.len() < i < pad(input).len() - 8,
    ensures
        pad(input).len() % 64 == 0,
        pad(input).subrange(0, input.len() as int) == input,
        pad(input)[input.len() as int] == 0x80,
        pad(input)[i] == 0,
        ({
            let p = pad(input);
            let n = p.len() as int;
            0x1_0000_0000 * (16777216 * p[n - 8] + 65536 * p[n - 7] + 256 * p[n - 6] + p[n - 5])
                + 16777216 * p[n - 4] + 65536 * p[n - 3] + 256 * p[n - 2] + p[n - 1] == 8
                * input.len()
        }),
{
    let bits = input.len() * 8;
    let z = Seq::new(zero_fill(input.len()), |k: int| 0u8);
    let x = input.push(0x80) + z;
    let t = be64(bits);
    crate::bytes::law_big_endian_wide(bits);
    lemma_small_mod(bits, 0x1_0000_0000_0000_0000);
    crate::bytes::lemma_last_eight(x, t);
    assert(pad(input) == x + t);
    assert(x[i] == z[i - input.len() - 1]);
    crate::md5::law_padding_is_whole_blocks(input);
    assert(pad(input).len() == crate::md5::pad(input).len());
    assert(pad(input).subrange(0, input.len() as int) =~= input);
}

} // verus!
