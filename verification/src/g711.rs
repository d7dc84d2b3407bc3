//! G.711 decoding and upsampling for the talkback path.
//!
//! Clients send mu-law or A-law at 8 kHz; the speaker takes 16-bit samples at 16 kHz.

use vstd::prelude::*;

verus! {

/// Two to the power of `e`.
pub open spec fn two_to(e: nat) -> nat
    decreases e,
{
    if e == 0 {
        1
    } else {
        2 * two_to((e - 1) as nat)
    }
}

/// The sample of a mu-law byte. The byte is the complement of a code word: one bit of sign, three
/// of exponent, four of mantissa.
pub open spec fn ulaw_sample(byte: u8) -> int {
    let u = 255 - byte;
    let magnitude = (u % 16 * 8 + 132) * two_to((u / 16 % 8) as nat) - 132;
    if u >= 128 {
        -magnitude
    } else {
        magnitude
    }
}

/// The sample of an A-law byte. The byte is a code word with every other bit inverted.
pub open spec fn alaw_sample(byte: u8) -> int {
    let a = byte ^ 0x55;
    let mantissa = (a % 16) * 16;
    let segment = (a / 16) as int % 8;
    let magnitude = if segment == 0 {
        mantissa + 8
    } else {
        (mantissa + 264) * two_to((segment - 1) as nat)
    };
    if a >= 128 {
        magnitude
    } else {
        -magnitude
    }
}

/// The mean of two samples, rounded towards zero.
pub open spec fn mean(a: int, b: int) -> int {
    if a + b >= 0 {
        (a + b) / 2
    } else {
        -(-(a + b) / 2)
    }
}

/// The sample after the one at `i`, or that one again where it is the last.
pub open spec fn next_sample(s: Seq<i16>, i: int) -> i16 {
    if i + 1 < s.len() {
        s[i + 1]
    } else {
        s[i]
    }
}

/// Twice as many samples: each one, then the mean of it and the next.
pub open spec fn doubled(s: Seq<i16>) -> Seq<i16> {
    Seq::new(
        2 * s.len(),
        |k: int|
            if k % 2 == 0 {
                s[k / 2]
            } else {
                mean(s[k / 2] as int, next_sample(s, k / 2) as int) as i16
            },
    )
}

fn power(e: u8) -> (p: i32)
    requires
        e < 8,
    ensures
        p == two_to(e as nat),
        1 <= p <= 128,
{
    reveal_with_fuel(two_to, 8);
    match e {
        0 => 1,
        1 => 2,
        2 => 4,
        3 => 8,
        4 => 16,
        5 => 32,
        6 => 64,
        _ => 128,
    }
}

/// Decode one mu-law byte (payload type 0) to a signed 16-bit sample.
pub fn ulaw_decode(byte: u8) -> (r: i16)
    ensures
        r == ulaw_sample(byte),
        -32124 <= r <= 32124,
{
    let u: u8 = 255 - byte;
    let p: i32 = power(u / 16 % 8);
    let m: i32 = (u % 16) as i32 * 8 + 132;
    assert(132 <= m * p <= 252 * 128) by (nonlinear_arith)
        requires
            132 <= m <= 252,
            1 <= p <= 128,
    ;
    let magnitude: i32 = m * p - 132;
    (if u >= 128 {
        -magnitude
    } else {
        magnitude
    }) as i16
}

/// Decode one A-law byte (payload type 8) to a signed 16-bit sample.
pub fn alaw_decode(byte: u8) -> (r: i16)
    ensures
        r == alaw_sample(byte),
        -32256 <= r <= 32256,
{
    let a: u8 = byte ^ 0x55;
    let mantissa: i32 = (a % 16) as i32 * 16;
    let segment: u8 = a / 16 % 8;
    let magnitude: i32 = if segment == 0 {
        mantissa + 8
    } else {
        let p: i32 = power(segment - 1);
        assert(p <= 64) by {
            reveal_with_fuel(two_to, 8);
        }
        let m: i32 = mantissa + 264;
        assert(0 <= m * p <= 504 * 64) by (nonlinear_arith)
            requires
                264 <= m <= 504,
                1 <= p <= 64,
        ;
        m * p
    };
    (if a >= 128 {
        magnitude
    } else {
        -magnitude
    }) as i16
}

pub fn midpoint(a: i16, b: i16) -> (r: i16)
    ensures
        r == mean(a as int, b as int),
{
    let sum: i32 = a as i32 + b as i32;
    if sum >= 0 {
        (sum as u32 / 2) as i16
    } else {
        let half: u32 = (-sum) as u32 / 2;
        (-(half as i32)) as i16
    }
}

/// Upsample 8 kHz to 16 kHz by linear interpolation.
pub fn upsample_2x_linear(input: &[i16]) -> (out: Vec<i16>)
    ensures
        out@ == doubled(input@),
{
    let mut out: Vec<i16> = Vec::new();
    let mut i: usize = 0;
    while i < input.len()
        invariant
            i <= input@.len(),
            out@ == doubled(input@).subrange(0, 2 * i),
        decreases input@.len() - i,
    {
        let s: i16 = input[i];
        let next: i16 = if i + 1 < input.len() {
            input[i + 1]
        } else {
            s
        };
        out.push(s);
        out.push(midpoint(s, next));
        assert(out@ =~= doubled(input@).subrange(0, 2 * (i + 1)));
        i = i + 1;
    }
    assert(out@ =~= doubled(input@));
    out
}

/// Flipping the sign bit of a mu-law byte negates the sample.
pub proof fn law_ulaw_sign(byte: u8)
    requires
        byte < 128,
    ensures
        ulaw_sample((byte + 128) as u8) == -ulaw_sample(byte),
{
}

proof fn lemma_power_positive(e: nat)
    ensures
        two_to(e) > 0,
    decreases e,
{
    if e > 0 {
        lemma_power_positive((e - 1) as nat);
    }
}

/// Flipping the sign bit of an A-law byte negates the sample, and no A-law sample is zero.
pub proof fn law_alaw_sign(byte: u8)
    requires
        byte < 128,
    ensures
        alaw_sample((byte + 128) as u8) == -alaw_sample(byte),
        alaw_sample(byte) != 0,
{
    assert(byte < 128 ==> ((byte + 128) as u8) ^ 0x55 == ((byte ^ 0x55) + 128) as u8 && (
    byte ^ 0x55) < 128) by (bit_vector);
    let a = byte ^ 0x55;
    let b = ((byte + 128) as u8) ^ 0x55;
    assert(b == a + 128);
    assert(b % 16 == a % 16);
    assert((b / 16) as int % 8 == (a / 16) as int % 8);
    let segment = (a / 16) as int % 8;
    if segment != 0 {
        let p = two_to((segment - 1) as nat);
        lemma_power_positive((segment - 1) as nat);
        let m = a % 16 * 16 + 264;
        assert(m * p > 0) by (nonlinear_arith)
            requires
                m > 0,
                p > 0,
        ;
    }
}

/// Upsampling doubles the length and keeps every sample at its place.
pub proof fn law_upsampling_keeps_samples(s: Seq<i16>, i: int)
    requires
        0 <= i < s.len(),
    ensures
        doubled(s).len() == 2 * s.len(),
        doubled(s)[2 * i] == s[i],
        s[i] as int <= next_sample(s, i) as int ==> s[i] <= doubled(s)[2 * i + 1] <= next_sample(s, i),
{
}

/// The sample put between two others lies halfway, whichever way the signal goes, up to the half
/// that an odd sum leaves, which is rounded towards zero.
pub proof fn law_mean_lies_halfway(a: int, b: int)
    ensures
        mean(a, b) == mean(b, a),
        a <= b ==> a <= mean(a, b) <= b,
        b <= a ==> b <= mean(a, b) <= a,
        -1 <= 2 * mean(a, b) - (a + b) <= 1,
        a + b >= 0 ==> 0 <= 2 * mean(a, b) <= a + b,
        a + b <= 0 ==> a + b <= 2 * mean(a, b) <= 0,
        mean(-a, -b) == -mean(a, b),
{
}

/// Upsampling puts the mean of two neighbours between them, and the last sample twice.
pub proof fn law_upsampling_joins_samples(s: Seq<i16>, i: int)
    requires
        0 <= i < s.len(),
    ensures
        doubled(s).len() == 2 * s.len(),
        doubled(s)[2 * i] == s[i],
        i + 1 < s.len() ==> -1 <= 2 * doubled(s)[2 * i + 1] - (s[i] + s[i + 1]) <= 1,
        i + 1 < s.len() && s[i] <= s[i + 1] ==> s[i] <= doubled(s)[2 * i + 1] <= s[i + 1],
        i + 1 < s.len() && s[i] >= s[i + 1] ==> s[i] >= doubled(s)[2 * i + 1] >= s[i + 1],
        i + 1 == s.len() ==> doubled(s)[2 * i + 1] == s[i],
{
    law_mean_lies_halfway(s[i] as int, next_sample(s, i) as int);
}

/// The mu-law scale starts at zero, and going up one code word goes up by eight in the first
/// segment, twice as much in each next one, and by one and a half times the step from one segment to
/// the next.
pub proof fn law_ulaw_steps(byte: u8)
    requires
        128 <= byte < 255,
    ensures
        ulaw_sample(255) == 0,
        ulaw_sample(byte) - ulaw_sample((byte + 1) as u8) == ({
            let p = two_to(((254 - byte) / 16) as nat) as int;
            if (254 - byte) % 16 == 15 {
                12 * p
            } else {
                8 * p
            }
        }),
{
    let u = 255 - byte;
    law_powers();
    lemma_times(132, 0);
    assert(ulaw_sample(255) == 132 * two_to(0) - 132);
    lemma_times(u % 16 * 8 + 132, u / 16);
    lemma_times((u - 1) % 16 * 8 + 132, (u - 1) / 16);
    assert(u % 16 == if (u - 1) % 16 == 15 { 0 } else { (u - 1) % 16 + 1 });
}

/// A product with a power, for each segment there is.
proof fn lemma_times(m: int, e: int)
    requires
        0 <= e < 8,
    ensures
        m * two_to(e as nat) == (if e == 0 {
            m
        } else if e == 1 {
            2 * m
        } else if e == 2 {
            4 * m
        } else if e == 3 {
            8 * m
        } else if e == 4 {
            16 * m
        } else if e == 5 {
            32 * m
        } else if e == 6 {
            64 * m
        } else {
            128 * m
        }),
{
    law_powers();
    let p = two_to(e as nat) as int;
    if e == 0 {
        assert(m * p == 1 * m) by (nonlinear_arith)
            requires
                p == 1,
        ;
    } else if e == 1 {
        assert(m * p == 2 * m) by (nonlinear_arith)
            requires
                p == 2,
        ;
    } else if e == 2 {
        assert(m * p == 4 * m) by (nonlinear_arith)
            requires
                p == 4,
        ;
    } else if e == 3 {
        assert(m * p == 8 * m) by (nonlinear_arith)
            requires
                p == 8,
        ;
    } else if e == 4 {
        assert(m * p == 16 * m) by (nonlinear_arith)
            requires
                p == 16,
        ;
    } else if e == 5 {
        assert(m * p == 32 * m) by (nonlinear_arith)
            requires
                p == 32,
        ;
    } else if e == 6 {
        assert(m * p == 64 * m) by (nonlinear_arith)
            requires
                p == 64,
        ;
    } else if e == 7 {
        assert(m * p == 128 * m) by (nonlinear_arith)
            requires
                p == 128,
        ;
    }
}

/// The powers by which the segments of the two scales grow.
pub proof fn law_powers()
    ensures
        two_to(0) == 1,
        two_to(1) == 2,
        two_to(2) == 4,
        two_to(3) == 8,
        two_to(4) == 16,
        two_to(5) == 32,
        two_to(6) == 64,
        two_to(7) == 128,
{
    reveal_with_fuel(two_to, 9);
}

/// The A-law scale starts at eight, and going up one code word goes up by sixteen in the first two
/// segments, twice as much in each next one, and by one and a half times the step from one segment
/// to the next from the second on. A code word is the byte with every other bit inverted.
pub proof fn law_alaw_steps(code: u8)
    requires
        128 <= code < 255,
    ensures
        alaw_sample(128u8 ^ 0x55) == 8,
        alaw_sample((code + 1) as u8 ^ 0x55) - alaw_sample(code ^ 0x55) == ({
            let segment = (code - 128) / 16;
            let p = (if segment == 0 {
                1
            } else {
                two_to((segment - 1) as nat)
            }) as int;
            if (code - 128) % 16 == 15 && segment > 0 {
                24 * p
            } else {
                16 * p
            }
        }),
{
    assert((code ^ 0x55) ^ 0x55 == code) by (bit_vector);
    let next = (code + 1) as u8;
    assert((next ^ 0x55) ^ 0x55 == next) by (bit_vector);
    assert((128u8 ^ 0x55) ^ 0x55 == 128) by (bit_vector);
    law_powers();
    let s = code as int / 16 % 8;
    let t = next as int / 16 % 8;
    assert(s == (code - 128) / 16);
    assert(t == (if code as int % 16 == 15 { s + 1 } else { s }));
    assert(next as int % 16 == if code as int % 16 == 15 { 0 } else { code as int % 16 + 1 });
    if s > 0 {
        lemma_times(code as int % 16 * 16 + 264, s - 1);
    }
    if t > 0 {
        lemma_times(next as int % 16 * 16 + 264, t - 1);
    }
}

/// The samples of both scales fit sixteen bits.
pub proof fn law_sample_ranges(byte: u8)
    ensures
        -32124 <= ulaw_sample(byte) <= 32124,
        -32256 <= alaw_sample(byte) <= 32256,
{
    let u = 255 - byte;
    lemma_times(u % 16 * 8 + 132, u / 16 % 8);
    let a = byte ^ 0x55;
    let segment = a as int / 16 % 8;
    if segment > 0 {
        lemma_times(a as int % 16 * 16 + 264, segment - 1);
    }
}

} // verus!
