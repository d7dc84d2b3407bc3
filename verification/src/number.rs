//! Numbers as text: decimal and hexadecimal numerals.

use vstd::prelude::*;
use vstd::string::*;

use crate::text::{
    ascii_lower, char_len, chars_of, cut, eq_ignore_ascii_case, find, is_digit, is_space,
    lemma_find_from_bounds, same_ignoring_case, skip, split_once, Pat,
};

verus! {

/// The numeral character of `d`.
pub open spec fn digit_char(d: nat) -> char {
    if d < 10 {
        ((48 + d) as u8) as char
    } else {
        ((87 + d) as u8) as char
    }
}

/// The decimal numeral of `n`.
pub open spec fn dec(n: nat) -> Seq<char>
    decreases n,
{
    if n < 10 {
        seq![digit_char(n)]
    } else {
        dec(n / 10).push(digit_char(n % 10))
    }
}

/// The decimal numeral of `i`, with a minus sign where it is negative.
pub open spec fn dec_int(i: int) -> Seq<char> {
    if i < 0 {
        seq!['-'] + dec((-i) as nat)
    } else {
        dec(i as nat)
    }
}

/// `n` zeros.
pub open spec fn zeros(n: int) -> Seq<char> {
    Seq::new(if n > 0 { n as nat } else { 0 }, |i: int| '0')
}

/// The decimal numeral of `n`, filled with zeros on the left to `width` characters.
pub open spec fn dec_padded(n: nat, width: nat) -> Seq<char> {
    zeros(width - dec(n).len()) + dec(n)
}

/// The numeral of `i` filled with zeros between its sign and its digits to `width` characters.
pub open spec fn dec_int_padded(i: int, width: nat) -> Seq<char> {
    if i < 0 {
        seq!['-'] + dec_padded((-i) as nat, if width > 0 { (width - 1) as nat } else { 0 })
    } else {
        dec_padded(i as nat, width)
    }
}

/// What `c` is worth as a digit: 0 to 9, or 10 to 15 for a letter `a` to `f` of either case.
pub open spec fn digit_worth(c: char) -> int {
    if '0' <= c <= '9' {
        c as u32 - 48
    } else if 'a' <= c <= 'f' {
        c as u32 - 87
    } else if 'A' <= c <= 'F' {
        c as u32 - 55
    } else {
        99
    }
}

/// Whether `s` holds only digits of `base`.
pub open spec fn all_digits(s: Seq<char>, base: nat) -> bool {
    forall|i: int| 0 <= i < s.len() ==> digit_worth(#[trigger] s[i]) < base
}

/// The number that the digits of `s` denote.
pub open spec fn worth(s: Seq<char>, base: nat) -> nat
    decreases s.len(),
{
    if s.len() == 0 {
        0
    } else {
        worth(s.drop_last(), base) * base + digit_worth(s.last()) as nat
    }
}

/// The number that `s` denotes where it is one or more digits of `base` and at most `max`.
pub open spec fn digits_of(s: Seq<char>, base: nat, max: nat) -> Option<nat> {
    if s.len() > 0 && all_digits(s, base) && worth(s, base) <= max {
        Some(worth(s, base))
    } else {
        None
    }
}

/// The unsigned number that `s` denotes: a plus sign may stand before the digits.
pub open spec fn uint_of(s: Seq<char>, base: nat, max: nat) -> Option<nat> {
    if s.len() > 0 && s[0] == '+' {
        digits_of(s.subrange(1, s.len() as int), base, max)
    } else {
        digits_of(s, base, max)
    }
}

/// The signed decimal number that `s` denotes: a sign may stand before the digits.
pub open spec fn int_of(s: Seq<char>, min: int, max: int) -> Option<int> {
    if s.len() > 0 && s[0] == '-' {
        match digits_of(s.subrange(1, s.len() as int), 10, (-min) as nat) {
            Some(n) => Some(-(n as int)),
            None => None,
        }
    } else {
        match uint_of(s, 10, max as nat) {
            Some(n) => Some(n as int),
            None => None,
        }
    }
}

/// A decimal numeral is made of digits and denotes the number it was made from.
pub proof fn lemma_dec_worth(n: nat)
    ensures
        dec(n).len() > 0,
        all_digits(dec(n), 10),
        forall|i: int| 0 <= i < dec(n).len() ==> is_digit(#[trigger] dec(n)[i]),
        worth(dec(n), 10) == n,
    decreases n,
{
    if n < 10 {
        assert(dec(n).drop_last() =~= Seq::<char>::empty());
        assert(worth(dec(n).drop_last(), 10) == 0);
        assert(dec(n).last() == digit_char(n));
    } else {
        lemma_dec_worth(n / 10);
        assert(dec(n).drop_last() =~= dec(n / 10));
        assert(dec(n).last() == digit_char(n % 10));
    }
}

/// Reading a decimal numeral gives back the number it was written from.
pub proof fn lemma_uint_of_dec(n: nat, max: nat)
    requires
        n <= max,
    ensures
        uint_of(dec(n), 10, max) == Some(n),
{
    lemma_dec_worth(n);
    assert(is_digit(dec(n)[0]));
}

/// Reading a signed decimal numeral gives back the number it was written from.
pub proof fn lemma_int_of_dec_int(i: int, min: int, max: int)
    requires
        min <= i <= max,
        min <= 0 <= max,
    ensures
        int_of(dec_int(i), min, max) == Some(i),
{
    if i < 0 {
        lemma_dec_worth((-i) as nat);
        assert(dec_int(i).subrange(1, dec_int(i).len() as int) =~= dec((-i) as nat));
    } else {
        lemma_uint_of_dec(i as nat, max as nat);
        lemma_dec_worth(i as nat);
        assert(is_digit(dec(i as nat)[0]));
    }
}

/// A numeral of two digits denotes a number under a hundred, and is that number's padded form.
pub proof fn lemma_two_digits(s: Seq<char>)
    requires
        s.len() == 2,
        all_digits(s, 10),
    ensures
        worth(s, 10) == digit_worth(s[0]) * 10 + digit_worth(s[1]),
        worth(s, 10) < 100,
        dec_padded(worth(s, 10), 2) == s,
{
    assert(s.drop_last().drop_last() =~= Seq::<char>::empty());
    assert(s.drop_last().last() == s[0]);
    assert(worth(s.drop_last(), 10) == worth(s.drop_last().drop_last(), 10) * 10 + digit_worth(
        s[0],
    ));
    let n = worth(s, 10);
    let hi = digit_worth(s[0]);
    let lo = digit_worth(s[1]);
    assert(n == hi * 10 + lo);
    assert(digit_char(hi as nat) == s[0]);
    assert(digit_char(lo as nat) == s[1]);
    if n < 10 {
        assert(hi == 0);
        assert(dec_padded(n, 2) =~= s);
    } else {
        assert(n / 10 == hi && n % 10 == lo);
        assert(dec((n / 10) as nat) =~= seq![s[0]]);
        assert(dec_padded(n, 2) =~= s);
    }
}

proof fn lemma_worth_prefix(s: Seq<char>, base: nat, i: int)
    requires
        all_digits(s, base),
        base >= 1,
        0 <= i <= s.len(),
    ensures
        worth(s.subrange(0, i), base) <= worth(s, base),
    decreases s.len() - i,
{
    if i == s.len() {
        assert(s.subrange(0, i) =~= s);
    } else {
        let t = s.subrange(0, i + 1);
        lemma_worth_prefix(s, base, i + 1);
        assert(t.drop_last() =~= s.subrange(0, i));
        assert(digit_worth(s[i]) >= 0);
        let w = worth(s.subrange(0, i), base);
        assert(w <= w * base) by (nonlinear_arith)
            requires
                base >= 1,
                w >= 0,
        ;
    }
}

fn digit(d: u8) -> (c: char)
    requires
        d < 16,
    ensures
        c == digit_char(d as nat),
{
    if d < 10 {
        (48 + d) as char
    } else {
        (87 + d) as char
    }
}

/// Appends the decimal numeral of `n`.
pub fn push_dec(out: &mut String, n: u64)
    ensures
        final(out)@ == old(out)@ + dec(n as nat),
{
    push_dec_wide(out, n as u128);
}

/// Appends the decimal numeral of `n`.
pub fn push_dec_wide(out: &mut String, n: u128)
    ensures
        final(out)@ == old(out)@ + dec(n as nat),
    decreases n,
{
    if n < 10 {
        out.push(digit(n as u8));
        assert(out@ =~= old(out)@ + dec(n as nat));
    } else {
        push_dec_wide(out, n / 10);
        out.push(digit((n % 10) as u8));
        assert(out@ =~= old(out)@ + dec(n as nat));
    }
}

/// Appends the decimal numeral of `i`.
pub fn push_dec_int(out: &mut String, i: i64)
    ensures
        final(out)@ == old(out)@ + dec_int(i as int),
{
    if i < 0 {
        out.push('-');
        let m: u64 = if i == i64::MIN {
            0x8000_0000_0000_0000
        } else {
            (-i) as u64
        };
        push_dec(out, m);
        assert(out@ =~= old(out)@ + dec_int(i as int));
    } else {
        push_dec(out, i as u64);
    }
}

/// The decimal numeral of `n`.
pub fn dec_string(n: u64) -> (s: String)
    ensures
        s@ == dec(n as nat),
{
    let mut s: String = String::new();
    push_dec(&mut s, n);
    assert(s@ =~= dec(n as nat));
    s
}

/// Appends the decimal numeral of `n`, filled with zeros to `width` characters.
pub fn push_dec_padded(out: &mut String, n: u64, width: usize)
    ensures
        final(out)@ == old(out)@ + dec_padded(n as nat, width as nat),
{
    let d: String = dec_string(n);
    let len: usize = d.as_str().unicode_len();
    let mut k: usize = len;
    while k < width
        invariant
            d@.len() == len <= k,
            k <= width || k == len,
            out@ =~= old(out)@ + zeros(k - len),
        decreases width - k,
    {
        out.push('0');
        k = k + 1;
    }
    assert(zeros(k - len) =~= zeros(width - len));
    out.append(d.as_str());
    assert(out@ =~= old(out)@ + dec_padded(n as nat, width as nat));
}

/// Appends the numeral of `i`, filled with zeros between its sign and its digits.
pub fn push_dec_int_padded(out: &mut String, i: i64, width: usize)
    ensures
        final(out)@ == old(out)@ + dec_int_padded(i as int, width as nat),
{
    if i < 0 {
        out.push('-');
        let m: u64 = if i == i64::MIN {
            0x8000_0000_0000_0000
        } else {
            (-i) as u64
        };
        push_dec_padded(
            out,
            m,
            if width > 0 {
                width - 1
            } else {
                0
            },
        );
        assert(out@ =~= old(out)@ + dec_int_padded(i as int, width as nat));
    } else {
        push_dec_padded(out, i as u64, width);
    }
}

fn worth_of_char(c: char) -> (d: u64)
    ensures
        d == digit_worth(c),
        d <= 99,
{
    if '0' <= c && c <= '9' {
        c as u64 - 48
    } else if 'a' <= c && c <= 'f' {
        c as u64 - 87
    } else if 'A' <= c && c <= 'F' {
        c as u64 - 55
    } else {
        99
    }
}

/// The number that the characters of `cs` from `from` on denote.
fn parse_digits(cs: &Vec<char>, from: usize, base: u64) -> (r: Option<u64>)
    requires
        from <= cs.len(),
        base == 10 || base == 16,
    ensures
        match r {
            Some(n) => digits_of(
                cs@.subrange(from as int, cs@.len() as int),
                base as nat,
                u64::MAX as nat,
            ) == Some(n as nat),
            None => digits_of(
                cs@.subrange(from as int, cs@.len() as int),
                base as nat,
                u64::MAX as nat,
            ) is None,
        },
{
    let ghost s = cs@.subrange(from as int, cs@.len() as int);
    let mut n: u64 = 0;
    let mut i: usize = from;
    if from == cs.len() {
        return None;
    }
    assert(s.subrange(0, 0) =~= Seq::<char>::empty());
    while i < cs.len()
        invariant
            from <= i <= cs.len(),
            base == 10 || base == 16,
            s == cs@.subrange(from as int, cs@.len() as int),
            all_digits(s.subrange(0, i - from), base as nat),
            n == worth(s.subrange(0, i - from), base as nat),
        decreases cs.len() - i,
    {
        let d: u64 = worth_of_char(cs[i]);
        let ghost k = i - from;
        let ghost t = s.subrange(0, k + 1);
        assert(t.drop_last() =~= s.subrange(0, k));
        assert(t.last() == s[k]);
        if d >= base {
            assert(!all_digits(s, base as nat)) by {
                assert(digit_worth(s[k]) >= base);
            }
            return None;
        }
        if n > (u64::MAX - d) / base {
            proof {
                if all_digits(s, base as nat) {
                    lemma_worth_prefix(s, base as nat, k + 1);
                    assert(worth(t, base as nat) == n * base + d);
                    assert(n * base + d > u64::MAX) by (nonlinear_arith)
                        requires
                            n > (u64::MAX - d) / (base as int),
                            base == 10 || base == 16,
                            0 <= d <= u64::MAX,
                    ;
                }
            }
            return None;
        }
        assert(n * base + d <= u64::MAX) by (nonlinear_arith)
            requires
                n <= (u64::MAX - d) / (base as int),
                base == 10 || base == 16,
                0 <= d <= u64::MAX,
        ;
        n = n * base + d;
        assert(all_digits(t, base as nat)) by {
            assert forall|j: int| 0 <= j < t.len() implies digit_worth(#[trigger] t[j]) < base by {
                if j < k {
                    assert(t[j] == s.subrange(0, k)[j]);
                }
            }
        }
        i = i + 1;
    }
    assert(s.subrange(0, i - from) =~= s);
    Some(n)
}

/// The number that `s` denotes in plain decimal digits, where it is at most `max`.
pub fn parse_plain(s: &str, max: u64) -> (r: Option<u64>)
    ensures
        match r {
            Some(n) => digits_of(s@, 10, max as nat) == Some(n as nat) && n <= max,
            None => digits_of(s@, 10, max as nat) is None,
        },
{
    let cs: Vec<char> = chars_of(s);
    assert(s@.subrange(0, s@.len() as int) =~= s@);
    match parse_digits(&cs, 0, 10) {
        Some(n) if n <= max => Some(n),
        _ => None,
    }
}

fn parse_uint(s: &str, base: u64) -> (r: Option<u64>)
    requires
        base == 10 || base == 16,
    ensures
        match r {
            Some(n) => uint_of(s@, base as nat, u64::MAX as nat) == Some(n as nat),
            None => uint_of(s@, base as nat, u64::MAX as nat) is None,
        },
{
    let cs: Vec<char> = chars_of(s);
    if cs.len() > 0 && cs[0] == '+' {
        parse_digits(&cs, 1, base)
    } else {
        assert(s@.subrange(0, s@.len() as int) =~= s@);
        parse_digits(&cs, 0, base)
    }
}

/// The number that `s` denotes, where it is at most `max`.
pub fn parse_max(s: &str, base: u64, max: u64) -> (r: Option<u64>)
    requires
        base == 10 || base == 16,
    ensures
        match r {
            Some(n) => uint_of(s@, base as nat, max as nat) == Some(n as nat) && n <= max,
            None => uint_of(s@, base as nat, max as nat) is None,
        },
{
    match parse_uint(s, base) {
        Some(n) => if n <= max {
            Some(n)
        } else {
            None
        },
        None => None,
    }
}

pub fn parse_u64(s: &str) -> (r: Option<u64>)
    ensures
        match r {
            Some(n) => uint_of(s@, 10, u64::MAX as nat) == Some(n as nat),
            None => uint_of(s@, 10, u64::MAX as nat) is None,
        },
{
    parse_uint(s, 10)
}

pub fn parse_u32(s: &str) -> (r: Option<u32>)
    ensures
        match r {
            Some(n) => uint_of(s@, 10, u32::MAX as nat) == Some(n as nat),
            None => uint_of(s@, 10, u32::MAX as nat) is None,
        },
{
    match parse_max(s, 10, u32::MAX as u64) {
        Some(n) => Some(n as u32),
        None => None,
    }
}

pub fn parse_u8(s: &str) -> (r: Option<u8>)
    ensures
        match r {
            Some(n) => uint_of(s@, 10, u8::MAX as nat) == Some(n as nat),
            None => uint_of(s@, 10, u8::MAX as nat) is None,
        },
{
    match parse_max(s, 10, u8::MAX as u64) {
        Some(n) => Some(n as u8),
        None => None,
    }
}

pub fn parse_i64(s: &str) -> (r: Option<i64>)
    ensures
        match r {
            Some(n) => int_of(s@, i64::MIN as int, i64::MAX as int) == Some(n as int),
            None => int_of(s@, i64::MIN as int, i64::MAX as int) is None,
        },
{
    let cs: Vec<char> = chars_of(s);
    if cs.len() > 0 && cs[0] == '-' {
        match parse_digits(&cs, 1, 10) {
            Some(n) => if n < 0x8000_0000_0000_0000 {
                Some(-(n as i64))
            } else if n == 0x8000_0000_0000_0000 {
                Some(i64::MIN)
            } else {
                None
            },
            None => None,
        }
    } else {
        match parse_max(s, 10, i64::MAX as u64) {
            Some(n) => Some(n as i64),
            None => None,
        }
    }
}

pub fn parse_i32(s: &str) -> (r: Option<i32>)
    ensures
        match r {
            Some(n) => int_of(s@, i32::MIN as int, i32::MAX as int) == Some(n as int),
            None => int_of(s@, i32::MIN as int, i32::MAX as int) is None,
        },
{
    match parse_i64(s) {
        Some(n) => if i32::MIN as i64 <= n && n <= i32::MAX as i64 {
            Some(n as i32)
        } else {
            None
        },
        None => None,
    }
}

/// The lower-case hexadecimal form of `bytes`, two digits each.
pub open spec fn hex_of(bytes: Seq<u8>) -> Seq<char>
    decreases bytes.len(),
{
    if bytes.len() == 0 {
        Seq::empty()
    } else {
        hex_of(bytes.drop_last()) + seq![
            digit_char((bytes.last() / 16) as nat),
            digit_char((bytes.last() % 16) as nat),
        ]
    }
}

/// Each byte takes two characters, its high half first.
pub proof fn lemma_hex_of(bytes: Seq<u8>)
    ensures
        hex_of(bytes).len() == 2 * bytes.len(),
        forall|i: int|
            0 <= i < bytes.len() ==> hex_of(bytes)[2 * i] == digit_char((#[trigger] bytes[i] / 16) as nat)
                && hex_of(bytes)[2 * i + 1] == digit_char((bytes[i] % 16) as nat),
    decreases bytes.len(),
{
    if bytes.len() > 0 {
        lemma_hex_of(bytes.drop_last());
        assert forall|i: int| 0 <= i < bytes.len() implies hex_of(bytes)[2 * i] == digit_char(
            (#[trigger] bytes[i] / 16) as nat,
        ) && hex_of(bytes)[2 * i + 1] == digit_char((bytes[i] % 16) as nat) by {
            if i < bytes.len() - 1 {
                assert(bytes.drop_last()[i] == bytes[i]);
            }
        }
    }
}

pub fn nibble(n: u8) -> (c: char)
    requires
        n < 16,
    ensures
        c == digit_char(n as nat),
{
    digit(n)
}

/// Lower-case hexadecimal, two digits per byte.
pub fn hex_encode(data: &[u8]) -> (out: String)
    ensures
        out@ == hex_of(data@),
{
    let mut out: String = String::new();
    let mut i: usize = 0;
    while i < data.len()
        invariant
            i <= data.len(),
            out@ == hex_of(data@.subrange(0, i as int)),
        decreases data.len() - i,
    {
        let b: u8 = data[i];
        let ghost before = out@;
        out.push(nibble(b / 16));
        out.push(nibble(b % 16));
        proof {
            let t = data@.subrange(0, i + 1);
            assert(t.drop_last() =~= data@.subrange(0, i as int));
            assert(out@ =~= before + seq![
                digit_char((b / 16) as nat),
                digit_char((b % 16) as nat),
            ]);
        }
        i = i + 1;
    }
    assert(data@.subrange(0, i as int) =~= data@);
    out
}

/// The lower-case hexadecimal form of `n`, without leading zeros.
pub open spec fn hex(n: nat) -> Seq<char>
    decreases n,
{
    if n < 16 {
        seq![digit_char(n)]
    } else {
        hex(n / 16).push(digit_char(n % 16))
    }
}

/// Appends the lower-case hexadecimal form of `n`.
pub fn push_hex(out: &mut String, n: u64)
    ensures
        final(out)@ == old(out)@ + hex(n as nat),
    decreases n,
{
    let ghost start = out@;
    if n >= 16 {
        push_hex(out, n / 16);
    }
    out.push(nibble((n % 16) as u8));
    assert(out@ =~= start + hex(n as nat));
}

/// No two numbers have the same hexadecimal form.
pub proof fn lemma_hex_tells_apart(a: nat, b: nat)
    ensures
        hex(a) == hex(b) ==> a == b,
        hex(a).len() >= 1,
    decreases a,
{
    if a >= 16 {
        lemma_hex_tells_apart(a / 16, b / 16);
    }
    if hex(a) == hex(b) {
        lemma_hex_len(a);
        lemma_hex_len(b);
        assert(hex(a).last() == digit_char(a % 16));
        assert(hex(b).last() == digit_char(b % 16));
        assert(a % 16 == b % 16);
        if a >= 16 && b >= 16 {
            assert(hex(a).drop_last() =~= hex(a / 16));
            assert(hex(b).drop_last() =~= hex(b / 16));
        }
    }
}

proof fn lemma_hex_len(n: nat)
    ensures
        hex(n).len() >= 1,
        n >= 16 ==> hex(n).len() >= 2,
    decreases n,
{
    if n >= 16 {
        lemma_hex_len(n / 16);
    }
}

/// `s` without the sign that may stand before it.
pub open spec fn unsigned(s: Seq<char>) -> Seq<char> {
    if s.len() > 0 && (s[0] == '+' || s[0] == '-') {
        s.subrange(1, s.len() as int)
    } else {
        s
    }
}

/// Whether `s` is digits with at most one point among them, before them or behind them.
pub open spec fn is_mantissa(s: Seq<char>) -> bool {
    match cut(s, Pat::Is('.')) {
        Some((a, b)) => all_digits(a, 10) && all_digits(b, 10) && a.len() + b.len() > 0,
        None => all_digits(s, 10) && s.len() > 0,
    }
}

/// Whether `s` is a mantissa, or one with an `e` and an exponent of digits behind it, which may have
/// a sign.
pub open spec fn is_unsigned_float(s: Seq<char>) -> bool {
    match cut(s, Pat::Either('e', 'E')) {
        Some((m, x)) => is_mantissa(m) && all_digits(unsigned(x), 10) && unsigned(x).len() > 0,
        None => is_mantissa(s),
    }
}

/// Whether `s` is one of the words for what no digits denote.
pub open spec fn is_float_word(s: Seq<char>) -> bool {
    same_ignoring_case(s, "inf"@) || same_ignoring_case(s, "infinity"@) || same_ignoring_case(
        s,
        "nan"@,
    )
}

/// Whether `s` denotes a floating-point number: a number in decimal notation, an infinity or no
/// number, with a sign or without.
pub open spec fn is_float(s: Seq<char>) -> bool {
    is_float_word(unsigned(s)) || is_unsigned_float(unsigned(s))
}

fn skip_sign(s: &str) -> (r: &str)
    ensures
        r@ == unsigned(s@),
{
    if char_len(s) > 0 {
        let c: char = s.get_char(0);
        if c == '+' || c == '-' {
            return skip(s, 1);
        }
    }
    s
}

fn has_only_digits(s: &str) -> (r: bool)
    ensures
        r == all_digits(s@, 10),
{
    let cs: Vec<char> = chars_of(s);
    let mut i: usize = 0;
    while i < cs.len()
        invariant
            i <= cs.len(),
            cs@ == s@,
            forall|j: int| 0 <= j < i ==> digit_worth(#[trigger] s@[j]) < 10,
        decreases cs.len() - i,
    {
        if worth_of_char(cs[i]) >= 10 {
            assert(digit_worth(s@[i as int]) >= 10);
            return false;
        }
        i = i + 1;
    }
    true
}

fn has_mantissa_form(s: &str) -> (r: bool)
    ensures
        r == is_mantissa(s@),
{
    match split_once(s, Pat::Is('.')) {
        Some((a, b)) => has_only_digits(a) && has_only_digits(b) && (char_len(a) > 0 || char_len(b)
            > 0),
        None => has_only_digits(s) && char_len(s) > 0,
    }
}

/// Whether `s` denotes a floating-point number.
pub fn has_float_form(s: &str) -> (r: bool)
    ensures
        r == is_float(s@),
{
    let t: &str = skip_sign(s);
    if eq_ignore_ascii_case(t, "inf") || eq_ignore_ascii_case(t, "infinity")
        || eq_ignore_ascii_case(t, "nan") {
        return true;
    }
    match split_once(t, Pat::Either('e', 'E')) {
        Some((m, x)) => {
            let d: &str = skip_sign(x);
            has_mantissa_form(m) && has_only_digits(d) && char_len(d) > 0
        },
        None => has_mantissa_form(t),
    }
}

/// A character that a number in decimal notation or one of the words can hold.
spec fn in_float(c: char) -> bool {
    is_digit(c) || c == '.' || c == '+' || c == '-' || 'a' <= c <= 'z' || 'A' <= c <= 'Z'
}

proof fn lemma_word_chars(s: Seq<char>, w: Seq<char>)
    requires
        same_ignoring_case(s, w),
        forall|i: int| 0 <= i < w.len() ==> 'a' <= #[trigger] w[i] <= 'z',
    ensures
        s.len() == w.len(),
        forall|i: int| 0 <= i < s.len() ==> in_float(#[trigger] s[i]),
{
    let f = |c: char| ascii_lower(c);
    assert(s.map_values(f).len() == w.map_values(f).len());
    assert forall|i: int| 0 <= i < s.len() implies in_float(#[trigger] s[i]) by {
        assert(s.map_values(f)[i] == w.map_values(f)[i]);
        assert(ascii_lower(s[i]) == w[i]);
    }
}

proof fn lemma_mantissa_chars(s: Seq<char>)
    requires
        is_mantissa(s),
    ensures
        s.len() > 0,
        forall|i: int| 0 <= i < s.len() ==> in_float(#[trigger] s[i]),
{
    let p = Pat::Is('.');
    let k = find(s, p);
    lemma_find_from_bounds(s, p, 0);
    assert forall|i: int| 0 <= i < s.len() implies in_float(#[trigger] s[i]) by {
        if k >= s.len() {
            assert(digit_worth(s[i]) < 10);
        } else if i < k {
            assert(s.subrange(0, k)[i] == s[i]);
        } else if i > k {
            assert(s.subrange(k + 1, s.len() as int)[i - k - 1] == s[i]);
        }
    }
}

proof fn lemma_unsigned_float_chars(s: Seq<char>)
    requires
        is_unsigned_float(s),
    ensures
        s.len() > 0,
        forall|i: int| 0 <= i < s.len() ==> in_float(#[trigger] s[i]),
{
    let p = Pat::Either('e', 'E');
    let k = find(s, p);
    lemma_find_from_bounds(s, p, 0);
    if k >= s.len() {
        lemma_mantissa_chars(s);
    } else {
        let m = s.subrange(0, k);
        let x = s.subrange(k + 1, s.len() as int);
        lemma_mantissa_chars(m);
        assert forall|i: int| 0 <= i < s.len() implies in_float(#[trigger] s[i]) by {
            if i < k {
                assert(m[i] == s[i]);
            } else if i > k {
                assert(x[i - k - 1] == s[i]);
                let d = unsigned(x);
                if d.len() == x.len() {
                    assert(digit_worth(d[i - k - 1]) < 10);
                } else if i > k + 1 {
                    assert(digit_worth(d[i - k - 2]) < 10);
                }
            }
        }
    }
}

/// The text of a floating-point number is bare: it holds no quotation mark, comma or brace, and has
/// no white space round it.
pub proof fn lemma_float_bare(s: Seq<char>)
    requires
        is_float(s),
    ensures
        s.len() > 0,
        !is_space(s[0]),
        !is_space(s.last()),
        forall|i: int| 0 <= i < s.len() ==> #[trigger] s[i] != '"' && s[i] != ',' && s[i] != '}',
{
    let t = unsigned(s);
    reveal_strlit("inf");
    reveal_strlit("infinity");
    reveal_strlit("nan");
    if same_ignoring_case(t, "inf"@) {
        lemma_word_chars(t, "inf"@);
    } else if same_ignoring_case(t, "infinity"@) {
        lemma_word_chars(t, "infinity"@);
    } else if same_ignoring_case(t, "nan"@) {
        lemma_word_chars(t, "nan"@);
    } else {
        lemma_unsigned_float_chars(t);
    }
    assert forall|i: int| 0 <= i < s.len() implies in_float(#[trigger] s[i]) by {
        if t.len() == s.len() {
            assert(t[i] == s[i]);
        } else if i > 0 {
            assert(t[i - 1] == s[i]);
        }
    }
    assert(in_float(s[0]) && in_float(s.last()));
}

/// A hexadecimal numeral is made of digits and denotes the number it was made from.
pub proof fn lemma_hex_worth(n: nat)
    ensures
        hex(n).len() > 0,
        all_digits(hex(n), 16),
        worth(hex(n), 16) == n,
    decreases n,
{
    if n < 16 {
        assert(hex(n).drop_last() =~= Seq::<char>::empty());
        assert(worth(hex(n).drop_last(), 16) == 0);
    } else {
        lemma_hex_worth(n / 16);
        assert(hex(n).drop_last() =~= hex(n / 16));
        assert(hex(n).last() == digit_char(n % 16));
    }
    assert(digit_worth(digit_char(n % 16)) == n % 16);
}

/// A number is read back from its numeral, in either base, and from no other number's.
pub proof fn law_numerals_read_back(n: nat, m: nat, max: nat)
    ensures
        n <= max ==> uint_of(dec(n), 10, max) == Some(n),
        n <= max ==> uint_of(hex(n), 16, max) == Some(n),
        n > max ==> uint_of(dec(n), 10, max) is None,
        dec(n) == dec(m) ==> n == m,
        hex(n) == hex(m) ==> n == m,
{
    lemma_dec_worth(n);
    lemma_dec_worth(m);
    lemma_hex_worth(n);
    lemma_hex_worth(m);
    assert(is_digit(dec(n)[0]));
    assert(digit_worth(hex(n)[0]) < 16);
}

/// A digit more at the end of a numeral makes ten times the number, and the digit.
pub proof fn law_numerals_grow(n: nat, d: nat)
    requires
        n > 0,
        d < 10,
    ensures
        dec(10 * n + d) == dec(n).push(digit_char(d)),
        digit_char(d) as u32 == 48 + d,
{
}

/// The bytes of a hexadecimal text are two digits each, the high half first.
pub proof fn law_hex_bytes(bytes: Seq<u8>, i: int)
    requires
        0 <= i < bytes.len(),
    ensures
        hex_of(bytes).len() == 2 * bytes.len(),
        16 * digit_worth(hex_of(bytes)[2 * i]) + digit_worth(hex_of(bytes)[2 * i + 1]) == bytes[i],
        0 <= digit_worth(hex_of(bytes)[2 * i]) < 16,
        0 <= digit_worth(hex_of(bytes)[2 * i + 1]) < 16,
    decreases bytes.len(),
{
    lemma_hex_of_len(bytes);
    lemma_hex_of_len(bytes.drop_last());
    if i < bytes.len() - 1 {
        law_hex_bytes(bytes.drop_last(), i);
    } else {
        let b = bytes.last();
        assert(digit_worth(digit_char((b / 16) as nat)) == b / 16);
        assert(digit_worth(digit_char((b % 16) as nat)) == b % 16);
    }
}

proof fn lemma_hex_of_len(bytes: Seq<u8>)
    ensures
        hex_of(bytes).len() == 2 * bytes.len(),
    decreases bytes.len(),
{
    if bytes.len() > 0 {
        lemma_hex_of_len(bytes.drop_last());
    }
}

/// A padded numeral is at least as wide as asked for, keeps the number, and has zeros alone before it.
pub proof fn law_padding(n: nat, width: nat, i: int)
    ensures
        dec_padded(n, width).len() >= width,
        dec_padded(n, width).len() == width || dec_padded(n, width) == dec(n),
        dec(n).len() <= width ==> dec_padded(n, width).subrange(
            width - dec(n).len(),
            width as int,
        ) == dec(n),
        0 <= i < width - dec(n).len() ==> dec_padded(n, width)[i] == '0',
{
    let d = dec_padded(n, width);
    if dec(n).len() <= width {
        assert(d.subrange(width - dec(n).len(), width as int) =~= dec(n));
    } else {
        assert(d =~= dec(n));
    }
}

} // verus!
