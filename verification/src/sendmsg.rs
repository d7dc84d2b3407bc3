//! One message on the bus, as the arguments of a command give it.

use vstd::prelude::*;
use vstd::string::*;
use vstd::utf8::encode_utf8;

use crate::number::{
    dec, digit_worth, hex, lemma_dec_worth, lemma_hex_worth, lemma_uint_of_dec, parse_max, uint_of,
};
use crate::text::{is_digit, same, starts, strip_prefix};

verus! {

/// The argument that stands for no payload at all.
pub const EMPTY: &'static str = "-empty-";

/// A message id: hexadecimal behind `0x`, else decimal.
pub open spec fn msg_id_of(s: Seq<char>) -> Option<u16> {
    let n = if starts(s, "0x"@) {
        uint_of(s.subrange(2, s.len() as int), 16, u16::MAX as nat)
    } else {
        uint_of(s, 10, u16::MAX as nat)
    };
    match n {
        Some(k) => Some(k as u16),
        None => None,
    }
}

pub fn parse_num(s: &str) -> (r: Option<u16>)
    ensures
        r == msg_id_of(s@),
{
    proof {
        reveal_strlit("0x");
    }
    let n: Option<u64> = match strip_prefix(s, "0x") {
        Some(hex) => parse_max(hex, 16, u16::MAX as u64),
        None => parse_max(s, 10, u16::MAX as u64),
    };
    match n {
        Some(k) => Some(k as u16),
        None => None,
    }
}

/// The payload that an argument gives: its bytes and a zero behind them.
pub fn payload(arg: &str) -> (out: Vec<u8>)
    ensures
        out@ == (if arg@ == EMPTY@ {
            Seq::empty()
        } else {
            encode_utf8(arg@).push(0)
        }),
{
    if same(arg, EMPTY) {
        return Vec::new();
    }
    let mut out: Vec<u8> = arg.as_bytes_vec();
    out.push(0);
    out
}

/// A message is named by its number in decimal, or in hexadecimal behind `0x`.
pub proof fn law_message_numbers(n: u16)
    ensures
        msg_id_of(dec(n as nat)) == Some(n),
        msg_id_of("0x"@ + hex(n as nat)) == Some(n),
{
    reveal_strlit("0x");
    lemma_dec_worth(n as nat);
    lemma_uint_of_dec(n as nat, u16::MAX as nat);
    assert(!starts(dec(n as nat), "0x"@)) by {
        if starts(dec(n as nat), "0x"@) {
            assert(dec(n as nat).subrange(0, 2)[1] == dec(n as nat)[1]);
            assert(is_digit(dec(n as nat)[1]));
        }
    }
    let s = "0x"@ + hex(n as nat);
    assert(s.subrange(0, 2) =~= "0x"@);
    assert(s.subrange(2, s.len() as int) =~= hex(n as nat));
    lemma_hex_worth(n as nat);
    assert(digit_worth(hex(n as nat)[0]) < 16);
}

} // verus!
