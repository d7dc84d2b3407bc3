//! Standard base64 with padding (RFC 4648).

use vstd::arithmetic::div_mod::lemma_fundamental_div_mod_converse;
use vstd::prelude::*;

verus! {

/// The letter of six bits.
pub open spec fn letter(i: int) -> char {
    if i < 26 {
        ((65 + i) as u8) as char
    } else if i < 52 {
        ((97 + (i - 26)) as u8) as char
    } else if i < 62 {
        ((48 + (i - 52)) as u8) as char
    } else if i == 62 {
        '+'
    } else {
        '/'
    }
}

/// The number that three bytes make, most significant first.
pub open spec fn triple(a: int, b: int, c: int) -> int {
    a * 65536 + b * 256 + c
}

/// Four letters for every three bytes; `=` stands for letters that no byte fills.
pub open spec fn base64_of(data: Seq<u8>) -> Seq<char>
    decreases data.len(),
{
    if data.len() == 0 {
        Seq::empty()
    } else if data.len() == 1 {
        let n = triple(data[0] as int, 0, 0);
        seq![letter(n / 262144), letter(n / 4096 % 64), '=', '=']
    } else if data.len() == 2 {
        let n = triple(data[0] as int, data[1] as int, 0);
        seq![letter(n / 262144), letter(n / 4096 % 64), letter(n / 64 % 64), '=']
    } else {
        let n = triple(data[0] as int, data[1] as int, data[2] as int);
        seq![
            letter(n / 262144),
            letter(n / 4096 % 64),
            letter(n / 64 % 64),
            letter(n % 64),
        ] + base64_of(data.subrange(3, data.len() as int))
    }
}

fn letter_of(i: u32) -> (c: char)
    requires
        i < 64,
    ensures
        c == letter(i as int),
{
    if i < 26 {
        (65 + i as u8) as char
    } else if i < 52 {
        (97 + (i as u8 - 26)) as char
    } else if i < 62 {
        (48 + (i as u8 - 52)) as char
    } else if i == 62 {
        '+'
    } else {
        '/'
    }
}

#[verifier::rlimit(40)]
pub fn base64_encode(data: &[u8]) -> (out: String)
    ensures
        out@ == base64_of(data@),
{
    let mut out: String = String::new();
    let mut i: usize = 0;
    assert(data@.subrange(0, data@.len() as int) =~= data@);
    assert(out@ + base64_of(data@) =~= base64_of(data@));
    while i < data.len()
        invariant
            i <= data.len(),
            base64_of(data@) == out@ + base64_of(data@.subrange(i as int, data@.len() as int)),
        decreases data.len() - i,
    {
        let ghost rest = data@.subrange(i as int, data@.len() as int);
        let ghost done = out@;
        let left: usize = data.len() - i;
        let b0: u32 = data[i] as u32;
        let b1: u32 = if left > 1 {
            data[i + 1] as u32
        } else {
            0
        };
        let b2: u32 = if left > 2 {
            data[i + 2] as u32
        } else {
            0
        };
        let n: u32 = b0 * 65536 + b1 * 256 + b2;
        out.push(letter_of(n / 262144));
        out.push(letter_of(n / 4096 % 64));
        out.push(
            if left > 1 {
                letter_of(n / 64 % 64)
            } else {
                '='
            },
        );
        out.push(
            if left > 2 {
                letter_of(n % 64)
            } else {
                '='
            },
        );
        if left < 3 {
            assert(out@ =~= done + base64_of(rest));
            return out;
        }
        proof {
            let next = data@.subrange(i + 3, data@.len() as int);
            assert(rest.subrange(3, rest.len() as int) =~= next);
            assert(done + base64_of(rest) =~= out@ + base64_of(next));
        }
        i = i + 3;
    }
    assert(data@.subrange(i as int, data@.len() as int) =~= Seq::<u8>::empty());
    assert(out@ + base64_of(Seq::<u8>::empty()) =~= out@);
    out
}

/// Every three bytes, the last ones included, take four characters.
pub proof fn law_base64_length(data: Seq<u8>)
    ensures
        base64_of(data).len() == (data.len() + 2) / 3 * 4,
    decreases data.len(),
{
    if data.len() >= 3 {
        law_base64_length(data.subrange(3, data.len() as int));
    }
}

/// The six bits that a letter stands for.
pub open spec fn sextet(c: char) -> int {
    if 'A' <= c <= 'Z' {
        c as u32 - 'A' as u32
    } else if 'a' <= c <= 'z' {
        c as u32 - 'a' as u32 + 26
    } else if '0' <= c <= '9' {
        c as u32 - '0' as u32 + 52
    } else if c == '+' {
        62
    } else {
        63
    }
}

/// The bytes that a text in base64 stands for: three for each four letters, one or two less where
/// the last letters are fillers.
pub open spec fn decoded(s: Seq<char>) -> Seq<u8>
    decreases s.len(),
{
    if s.len() < 4 {
        Seq::empty()
    } else if s[2] == '=' {
        seq![(4 * sextet(s[0]) + sextet(s[1]) / 16) as u8]
    } else if s[3] == '=' {
        seq![
            (4 * sextet(s[0]) + sextet(s[1]) / 16) as u8,
            (sextet(s[1]) % 16 * 16 + sextet(s[2]) / 4) as u8,
        ]
    } else {
        seq![
            (4 * sextet(s[0]) + sextet(s[1]) / 16) as u8,
            (sextet(s[1]) % 16 * 16 + sextet(s[2]) / 4) as u8,
            (sextet(s[2]) % 4 * 64 + sextet(s[3])) as u8,
        ] + decoded(s.subrange(4, s.len() as int))
    }
}

proof fn lemma_letter(i: int)
    requires
        0 <= i < 64,
    ensures
        sextet(letter(i)) == i,
        letter(i) != '=',
{
}

/// Four groups of six bits hold three of eight.
proof fn lemma_triple(a: int, b: int, c: int)
    requires
        0 <= a < 256,
        0 <= b < 256,
        0 <= c < 256,
    ensures
        triple(a, b, c) / 262144 == a / 4,
        triple(a, b, c) / 4096 % 64 == a % 4 * 16 + b / 16,
        triple(a, b, c) / 64 % 64 == b % 16 * 4 + c / 64,
        triple(a, b, c) % 64 == c % 64,
{
    let n = triple(a, b, c);
    lemma_fundamental_div_mod_converse(n, 262144, a / 4, a % 4 * 65536 + b * 256 + c);
    lemma_fundamental_div_mod_converse(n, 4096, a * 16 + b / 16, b % 16 * 256 + c);
    lemma_fundamental_div_mod_converse(a * 16 + b / 16, 64, a / 4, a % 4 * 16 + b / 16);
    lemma_fundamental_div_mod_converse(n, 64, a * 1024 + b * 4 + c / 64, c % 64);
    lemma_fundamental_div_mod_converse(
        a * 1024 + b * 4 + c / 64,
        64,
        a * 16 + b / 16,
        b % 16 * 4 + c / 64,
    );
}

/// The letters of three bytes give them back.
proof fn lemma_three(a: int, b: int, c: int)
    requires
        0 <= a < 256,
        0 <= b < 256,
        0 <= c < 256,
    ensures
        ({
            let n = triple(a, b, c);
            let (w, x, y, z) = (
                letter(n / 262144),
                letter(n / 4096 % 64),
                letter(n / 64 % 64),
                letter(n % 64),
            );
            &&& 4 * sextet(w) + sextet(x) / 16 == a
            &&& sextet(x) % 16 * 16 + sextet(y) / 4 == b
            &&& sextet(y) % 4 * 64 + sextet(z) == c
            &&& w != '=' && x != '=' && y != '=' && z != '='
        }),
{
    let n = triple(a, b, c);
    lemma_triple(a, b, c);
    lemma_letter(a / 4);
    lemma_letter(a % 4 * 16 + b / 16);
    lemma_letter(b % 16 * 4 + c / 64);
    lemma_letter(c % 64);
}

/// Bytes are read back from their text.
pub proof fn law_base64_reads_back(data: Seq<u8>)
    ensures
        decoded(base64_of(data)) == data,
    decreases data.len(),
{
    let s = base64_of(data);
    if data.len() == 0 {
        assert(decoded(s) =~= data);
    } else {
        let a = data[0] as int;
        let b = if data.len() > 1 {
            data[1] as int
        } else {
            0
        };
        let c = if data.len() > 2 {
            data[2] as int
        } else {
            0
        };
        lemma_three(a, b, c);
        if data.len() >= 3 {
            let rest = data.subrange(3, data.len() as int);
            law_base64_reads_back(rest);
            assert(s.subrange(4, s.len() as int) =~= base64_of(rest));
        }
        assert(decoded(s) =~= data);
    }
}

} // verus!
