//! What the bodies of requests ask for, and which of them are refused.

use vstd::prelude::*;
use vstd::string::*;

use crate::bus::FeedCtrl;
use crate::bytes::{le16_at, read_le16, signed16};
use crate::http::{field_of, json_field, query_field, query_value};
use crate::json::bool_text;
use crate::number::{
    dec, lemma_dec_worth, lemma_uint_of_dec, parse_u32, parse_u64, parse_u8, push_dec, uint_of,
};
use crate::text::{char_len, is_digit, same};

verus! {

/// A field that is there and not empty.
pub open spec fn filled(body: Seq<char>, key: Seq<char>) -> Option<Seq<char>> {
    match field_of(body, key) {
        Some(v) if v.len() > 0 => Some(v),
        _ => None,
    }
}

pub fn filled_field<'a>(body: &'a str, key: &str) -> (r: Option<&'a str>)
    ensures
        match r {
            Some(v) => filled(body@, key@) == Some(v@),
            None => filled(body@, key@) is None,
        },
{
    match json_field(body, key) {
        Some(v) => if char_len(v) > 0 {
            Some(v)
        } else {
            None
        },
        None => None,
    }
}

/// A flag: anything but `false` sets it.
pub open spec fn flag_of(body: Seq<char>, key: Seq<char>) -> Option<bool> {
    match field_of(body, key) {
        Some(v) => Some(v != "false"@),
        None => None,
    }
}

pub fn flag_field(body: &str, key: &str) -> (r: Option<bool>)
    ensures
        r == flag_of(body@, key@),
{
    match json_field(body, key) {
        Some(v) => Some(!same(v, "false")),
        None => None,
    }
}

/// The message that a field is missing.
pub open spec fn required_text(key: Seq<char>) -> Seq<char> {
    "\""@ + key + "\" is required"@
}

pub fn required_message(key: &str) -> (s: String)
    ensures
        s@ == required_text(key@),
{
    let mut s: String = "\"".to_owned();
    s.append(key);
    s.append("\" is required");
    s
}

/// A flag that has to be there.
pub fn required_flag(body: &str, key: &str) -> (r: Result<bool, String>)
    ensures
        match r {
            Ok(b) => flag_of(body@, key@) == Some(b),
            Err(m) => flag_of(body@, key@) is None && m@ == required_text(key@),
        },
{
    match flag_field(body, key) {
        Some(b) => Ok(b),
        None => Err(required_message(key)),
    }
}

/// A text that has to be there and not empty.
pub fn required_text_field(body: &str, key: &str) -> (r: Result<String, String>)
    ensures
        match r {
            Ok(v) => filled(body@, key@) == Some(v@),
            Err(m) => filled(body@, key@) is None && m@ == required_text(key@),
        },
{
    match filled_field(body, key) {
        Some(v) => Ok(v.to_owned()),
        None => Err(required_message(key)),
    }
}

/// The portions of a request to feed.
pub open spec fn amount_of(body: Seq<char>) -> Option<u8> {
    match field_of(body, "amount"@) {
        Some(v) => match uint_of(v, 10, u8::MAX as nat) {
            Some(n) => if 1 <= n <= 20 {
                Some(n as u8)
            } else {
                None
            },
            None => None,
        },
        None => None,
    }
}

/// Which hoppers a request to feed names: the first where it names none.
pub open spec fn hopper_of(body: Seq<char>) -> Seq<char> {
    match field_of(body, "hopper"@) {
        Some(h) => h,
        None => "1"@,
    }
}

/// The id of a feed: as given, or made from the time.
pub open spec fn feed_id_of(body: Seq<char>, now: u64) -> Seq<char> {
    match filled(body, "id"@) {
        Some(id) => id,
        None => "kibble-"@ + dec(now as nat),
    }
}

/// The portions that a request to feed asks for from each hopper.
pub open spec fn portions_of(body: Seq<char>) -> (u8, u8) {
    let n = match amount_of(body) {
        Some(n) => n,
        None => 0,
    };
    if hopper_of(body) == "1"@ {
        (n, 0)
    } else if hopper_of(body) == "2"@ {
        (0, n)
    } else {
        (n, n)
    }
}

/// Why a request to feed is refused.
pub open spec fn feed_refusal(body: Seq<char>) -> Option<Seq<char>> {
    if amount_of(body) is None {
        Some("amount must be 1..=20 portions"@)
    } else if hopper_of(body) != "1"@ && hopper_of(body) != "2"@ && hopper_of(body) != "both"@ {
        Some("hopper must be 1, 2 or \"both\""@)
    } else {
        None
    }
}

fn hopper(body: &str) -> (s: &str)
    ensures
        s@ == hopper_of(body@),
{
    match json_field(body, "hopper") {
        Some(h) => h,
        None => "1",
    }
}

fn amount(body: &str) -> (r: Option<u8>)
    ensures
        r == amount_of(body@),
{
    match json_field(body, "amount") {
        Some(v) => match parse_u8(v) {
            Some(n) => if 1 <= n && n <= 20 {
                Some(n)
            } else {
                None
            },
            None => None,
        },
        None => None,
    }
}

fn feed_id(body: &str, now: u64) -> (s: String)
    ensures
        s@ == feed_id_of(body@, now),
{
    match filled_field(body, "id") {
        Some(id) => id.to_owned(),
        None => {
            let mut s: String = "kibble-".to_owned();
            push_dec(&mut s, now);
            s
        },
    }
}

/// What to dispense, by the body of a request to feed.
pub fn feed(body: &str, now: u64) -> (r: Result<FeedCtrl, String>)
    ensures
        match r {
            Ok(f) => {
                &&& feed_refusal(body@) is None
                &&& !f.cancel
                &&& f.id@ == feed_id_of(body@, now)
                &&& (f.amount1, f.amount2) == portions_of(body@)
            },
            Err(m) => feed_refusal(body@) == Some(m@),
        },
{
    proof {
        reveal_strlit("1");
        reveal_strlit("2");
        reveal_strlit("both");
        assert("1"@[0] != "2"@[0]);
        assert("both"@.len() != "1"@.len() && "both"@.len() != "2"@.len());
    }
    let n: u8 = match amount(body) {
        Some(n) => n,
        None => return Err("amount must be 1..=20 portions".to_owned()),
    };
    let h: &str = hopper(body);
    let (amount1, amount2): (u8, u8) = if same(h, "1") {
        (n, 0)
    } else if same(h, "2") {
        (0, n)
    } else if same(h, "both") {
        (n, n)
    } else {
        return Err("hopper must be 1, 2 or \"both\"".to_owned());
    };
    Ok(FeedCtrl { cancel: false, id: feed_id(body, now), amount1, amount2 })
}

/// What cancels a feed.
pub fn feed_cancel() -> (f: FeedCtrl)
    ensures
        f.cancel,
        f.id@.len() == 0,
        f.amount1 == 0,
        f.amount2 == 0,
{
    FeedCtrl { cancel: true, id: String::new(), amount1: 0, amount2: 0 }
}

pub open spec fn number_field(body: Seq<char>, key: Seq<char>, max: nat) -> Option<nat> {
    match field_of(body, key) {
        Some(v) => uint_of(v, 10, max),
        None => None,
    }
}

/// The setting that a request writes, and its value.
pub open spec fn config_of(body: Seq<char>) -> Option<(Seq<char>, u32)> {
    match (filled(body, "key"@), number_field(body, "value"@, u32::MAX as nat)) {
        (Some(key), Some(n)) => Some((key, n as u32)),
        _ => None,
    }
}

/// The setting to write and its value.
pub fn config_write(body: &str) -> (r: Result<(String, u32), String>)
    ensures
        match r {
            Ok((key, value)) => config_of(body@) == Some((key@, value)),
            Err(_) => config_of(body@) is None,
        },
        match r {
            Ok((key, value)) => filled(body@, "key"@) == Some(key@) && number_field(
                body@,
                "value"@,
                u32::MAX as nat,
            ) == Some(value as nat),
            Err(m) => if filled(body@, "key"@) is None {
                m@ == required_text("key"@)
            } else {
                number_field(body@, "value"@, u32::MAX as nat) is None && m@
                    == "\"value\" must be a non-negative integer"@
            },
        },
{
    let key: String = required_text_field(body, "key")?;
    let value: Option<u32> = match json_field(body, "value") {
        Some(v) => parse_u32(v),
        None => None,
    };
    match value {
        Some(v) => Ok((key, v)),
        None => Err("\"value\" must be a non-negative integer".to_owned()),
    }
}

/// Whether a request is to advertise, and for how long.
pub open spec fn advertising_of(body: Seq<char>) -> Option<(bool, Option<u64>)> {
    match flag_of(body, "on"@) {
        Some(on) => Some(
            (
                on,
                match number_field(body, "seconds"@, u64::MAX as nat) {
                    Some(n) => Some(n as u64),
                    None => None,
                },
            ),
        ),
        None => None,
    }
}

/// Whether to advertise, and for how long.
pub fn ble_advertise_write(body: &str) -> (r: Result<(bool, Option<u64>), String>)
    ensures
        match r {
            Ok(x) => advertising_of(body@) == Some(x),
            Err(_) => advertising_of(body@) is None,
        },
        match r {
            Ok((on, seconds)) => flag_of(body@, "on"@) == Some(on) && (match seconds {
                Some(n) => number_field(body@, "seconds"@, u64::MAX as nat) == Some(n as nat),
                None => number_field(body@, "seconds"@, u64::MAX as nat) is None,
            }),
            Err(m) => flag_of(body@, "on"@) is None && m@ == required_text("on"@),
        },
{
    let on: bool = required_flag(body, "on")?;
    let seconds: Option<u64> = match json_field(body, "seconds") {
        Some(v) => parse_u64(v),
        None => None,
    };
    Ok((on, seconds))
}

/// The network that a request is to join, and its key.
pub open spec fn network_of(body: Seq<char>) -> Option<(Seq<char>, Option<Seq<char>>)> {
    match filled(body, "ssid"@) {
        Some(ssid) => Some((ssid, filled(body, "psk"@))),
        None => None,
    }
}

/// The network to join, and its key where one is given.
pub fn wifi_connect(body: &str) -> (r: Result<(String, Option<String>), String>)
    ensures
        match r {
            Ok((ssid, psk)) => network_of(body@) == Some(
                (
                    ssid@,
                    match psk {
                        Some(p) => Some(p@),
                        None => None,
                    },
                ),
            ),
            Err(_) => network_of(body@) is None,
        },
        match r {
            Ok((ssid, psk)) => filled(body@, "ssid"@) == Some(ssid@) && (match psk {
                Some(p) => filled(body@, "psk"@) == Some(p@),
                None => filled(body@, "psk"@) is None,
            }),
            Err(m) => filled(body@, "ssid"@) is None && m@ == required_text("ssid"@),
        },
{
    let ssid: String = required_text_field(body, "ssid")?;
    let psk: Option<String> = match filled_field(body, "psk") {
        Some(p) => Some(p.to_owned()),
        None => None,
    };
    Ok((ssid, psk))
}

/// The crop and the cat of a request.
pub open spec fn crop_and_cat(body: Seq<char>) -> Option<(Seq<char>, Seq<char>)> {
    match (filled(body, "name"@), filled(body, "cat"@)) {
        (Some(name), Some(cat)) => Some((name, cat)),
        _ => None,
    }
}

/// The crop and the cat of a request to label or unlabel: the crop is looked for first.
pub fn name_and_cat(body: &str) -> (r: Result<(String, String), String>)
    ensures
        match r {
            Ok((name, cat)) => crop_and_cat(body@) == Some((name@, cat@)),
            Err(_) => crop_and_cat(body@) is None,
        },
        match r {
            Ok((name, cat)) => filled(body@, "name"@) == Some(name@) && filled(body@, "cat"@)
                == Some(cat@),
            Err(m) => if filled(body@, "name"@) is None {
                m@ == required_text("name"@)
            } else {
                filled(body@, "cat"@) is None && m@ == required_text("cat"@)
            },
        },
{
    let name: String = required_text_field(body, "name")?;
    let cat: String = required_text_field(body, "cat")?;
    Ok((name, cat))
}

/// The entry that a request switches, and which way.
pub open spec fn switched_entry(body: Seq<char>) -> Option<(Seq<char>, bool)> {
    match (filled(body, "id"@), flag_of(body, "enabled"@)) {
        (Some(id), Some(on)) => Some((id, on)),
        _ => None,
    }
}

/// The entry to switch, and whether it is on.
pub fn post_schedule_entry_enabled(body: &str) -> (r: Result<(String, bool), &'static str>)
    ensures
        match r {
            Ok((id, on)) => switched_entry(body@) == Some((id@, on)),
            Err(_) => switched_entry(body@) is None,
        },
        match r {
            Ok((id, on)) => filled(body@, "id"@) == Some(id@) && flag_of(body@, "enabled"@) == Some(
                on,
            ),
            Err(m) => if filled(body@, "id"@) is None {
                m@ == "missing \"id\""@
            } else {
                flag_of(body@, "enabled"@) is None && m@ == "missing \"enabled\""@
            },
        },
{
    match filled_field(body, "id") {
        None => Err("missing \"id\""),
        Some(id) => match flag_field(body, "enabled") {
            None => Err("missing \"enabled\""),
            Some(on) => Ok((id.to_owned(), on)),
        },
    }
}

/// The event after which a client waits.
pub open spec fn since_of(query: Seq<char>) -> u64 {
    match query_value(query, "since"@) {
        Some(v) => match uint_of(v, 10, u64::MAX as nat) {
            Some(k) => k as u64,
            None => 0,
        },
        None => 0,
    }
}

/// After which event to wait: zero where the query gives no number.
pub fn events_stream(query: &str) -> (n: u64)
    ensures
        n == since_of(query@),
        n == (match query_value(query@, "since"@) {
            Some(v) => match uint_of(v, 10, u64::MAX as nat) {
                Some(k) => k,
                None => 0,
            },
            None => 0,
        }),
{
    match query_field(query, "since") {
        Some(v) => match parse_u64(v) {
            Some(n) => n,
            None => 0,
        },
        None => 0,
    }
}

/// The cat that a photo is for: none has an empty name.
pub fn upload_cat(query: &str) -> (s: &str)
    ensures
        s@ == (match query_value(query@, "cat"@) {
            Some(c) => c,
            None => ""@,
        }),
{
    match query_field(query, "cat") {
        Some(c) => c,
        None => "",
    }
}

/// The samples in a body of two bytes each, the low one first.
pub open spec fn samples_in(body: Seq<u8>) -> Seq<i16> {
    Seq::new((body.len() / 2) as nat, |i: int| signed16(le16_at(body, 2 * i)) as i16)
}

/// The samples of a body.
pub fn pcm_from_body(body: &[u8]) -> (r: Result<Vec<i16>, String>)
    ensures
        match r {
            Ok(pcm) => body@.len() > 0 && body@.len() % 2 == 0 && pcm@ == samples_in(body@),
            Err(m) => if body@.len() == 0 {
                m@ == "body is empty; expected raw 16-bit/16kHz/mono PCM"@
            } else {
                body@.len() % 2 != 0 && m@
                    == "body length must be a multiple of 2 (16-bit samples)"@
            },
        },
{
    if body.len() == 0 {
        return Err("body is empty; expected raw 16-bit/16kHz/mono PCM".to_owned());
    }
    if body.len() % 2 != 0 {
        return Err("body length must be a multiple of 2 (16-bit samples)".to_owned());
    }
    let n: usize = body.len() / 2;
    let mut pcm: Vec<i16> = Vec::new();
    let mut i: usize = 0;
    while i < n
        invariant
            i <= n,
            body.len() == 2 * n,
            pcm@ == samples_in(body@).subrange(0, i as int),
        decreases n - i,
    {
        let u: u16 = read_le16(body, 2 * i);
        let s: i16 = if u >= 0x8000 {
            (u as i32 - 0x1_0000) as i16
        } else {
            u as i16
        };
        pcm.push(s);
        i = i + 1;
        assert(pcm@ =~= samples_in(body@).subrange(0, i as int));
    }
    assert(pcm@ =~= samples_in(body@));
    Ok(pcm)
}

/// The samples that were written as bytes come back.
pub proof fn law_pcm_reads_back(samples: Seq<i16>)
    ensures
        samples_in(crate::audioout::pcm_bytes(samples)) == samples,
{
    let b = crate::audioout::pcm_bytes(samples);
    assert forall|i: int| 0 <= i < samples.len() implies samples_in(b)[i] == samples[i] by {
        crate::audioout::laws::law_samples_read_back(samples, i);
    }
    assert(samples_in(b) =~= samples);
}

/// A body whose amount is the numeral of a number from one to twenty asks for that many portions. One
/// whose amount is missing, no number or out of that range is refused.
pub proof fn law_amount_is_what_is_asked(body: Seq<char>, n: nat)
    ensures
        field_of(body, "amount"@) == Some(dec(n)) && 1 <= n <= 20 ==> amount_of(body) == Some(n as u8)
            && amount_of(body)->0 as nat == n,
        field_of(body, "amount"@) == Some(dec(n)) && (n < 1 || n > 20) ==> amount_of(body) is None,
        field_of(body, "amount"@) is None ==> amount_of(body) is None,
        amount_of(body) is None ==> feed_refusal(body) is Some,
        amount_of(body) matches Some(m) ==> 1 <= m <= 20 && exists|v: Seq<char>|
            field_of(body, "amount"@) == Some(v) && #[trigger] uint_of(v, 10, 20) == Some(m as nat),
{
    lemma_dec_worth(n);
    if n <= 255 {
        lemma_uint_of_dec(n, 255);
    } else {
        assert(is_digit(dec(n)[0]));
    }
    if let Some(m) = amount_of(body) {
        let v = field_of(body, "amount"@)->0;
        assert(uint_of(v, 10, 20) == Some(m as nat));
    }
}

/// A request to feed dispenses the amount from the hopper that it names, from the first where it
/// names none, and from both where it says so; nothing comes from the other.
pub proof fn law_portions_come_from_the_hopper(body: Seq<char>, n: u8)
    requires
        1 <= n <= 20,
        field_of(body, "amount"@) == Some(dec(n as nat)),
    ensures
        field_of(body, "hopper"@) is None ==> portions_of(body) == (n, 0u8) && feed_refusal(body) is None,
        field_of(body, "hopper"@) == Some("1"@) ==> portions_of(body) == (n, 0u8) && feed_refusal(
            body,
        ) is None,
        field_of(body, "hopper"@) == Some("2"@) ==> portions_of(body) == (0u8, n) && feed_refusal(
            body,
        ) is None,
        field_of(body, "hopper"@) == Some("both"@) ==> portions_of(body) == (n, n) && feed_refusal(
            body,
        ) is None,
        feed_refusal(body) is None ==> portions_of(body).0 == n || portions_of(body).1 == n,
        field_of(body, "hopper"@) matches Some(h) && h != "1"@ && h != "2"@ && h != "both"@
            ==> feed_refusal(body) is Some,
{
    law_amount_is_what_is_asked(body, n as nat);
    reveal_strlit("1");
    reveal_strlit("2");
    reveal_strlit("both");
    assert("1"@[0] == '1');
    assert("2"@[0] == '2');
    assert("both"@.len() == 4);
}

/// A number in a request is the one whose numeral stands in its field, where it is not too large.
pub proof fn law_numbers_are_read(body: Seq<char>, key: Seq<char>, n: nat, max: nat)
    requires
        field_of(body, key) == Some(dec(n)),
    ensures
        n <= max ==> number_field(body, key, max) == Some(n),
        n > max ==> number_field(body, key, max) is None,
{
    lemma_dec_worth(n);
    if n <= max {
        lemma_uint_of_dec(n, max);
    } else {
        assert(is_digit(dec(n)[0]));
    }
}

/// A flag is off exactly where its field says `false`.
pub proof fn law_flags_are_read(body: Seq<char>, key: Seq<char>)
    ensures
        field_of(body, key) == Some("true"@) ==> flag_of(body, key) == Some(true),
        field_of(body, key) == Some("false"@) ==> flag_of(body, key) == Some(false),
        field_of(body, key) is None ==> flag_of(body, key) is None,
        flag_of(body, key) == Some(false) ==> field_of(body, key) == Some("false"@),
{
    reveal_strlit("true");
    reveal_strlit("false");
    assert("true"@.len() == 4);
    assert("false"@.len() == 5);
}

/// A text in a request is what stands in its field, and an empty one counts as missing.
pub proof fn law_texts_are_read(body: Seq<char>, key: Seq<char>, v: Seq<char>)
    requires
        field_of(body, key) == Some(v),
    ensures
        v.len() > 0 ==> filled(body, key) == Some(v),
        v.len() == 0 ==> filled(body, key) is None,
{
}

/// Feeds without an id of their own that are asked for at different times have different ids.
pub proof fn law_feed_ids_differ(body: Seq<char>, id: Seq<char>, a: u64, b: u64)
    ensures
        field_of(body, "id"@) == Some(id) && id.len() > 0 ==> feed_id_of(body, a) == id,
        field_of(body, "id"@) is None && a != b ==> feed_id_of(body, a) != feed_id_of(body, b),
{
    if field_of(body, "id"@) is None && feed_id_of(body, a) == feed_id_of(body, b) {
        let p = "kibble-"@;
        let x = p + dec(a as nat);
        let y = p + dec(b as nat);
        assert(x.subrange(p.len() as int, x.len() as int) =~= dec(a as nat));
        assert(y.subrange(p.len() as int, y.len() as int) =~= dec(b as nat));
        lemma_dec_worth(a as nat);
        lemma_dec_worth(b as nat);
    }
}

/// What a request gives under each name is what it asks for: a setting and its value, a switch and
/// how long, a network and its key, a crop and a cat, an entry and which way.
pub proof fn law_requests_are_read(body: Seq<char>, a: Seq<char>, b: Seq<char>, n: nat, on: bool)
    requires
        a.len() > 0,
        b.len() > 0,
    ensures
        field_of(body, "key"@) == Some(a) && field_of(body, "value"@) == Some(dec(n)) && n <= u32::MAX
            ==> config_of(body) == Some((a, n as u32)) && (config_of(body)->0).1 as nat == n,
        field_of(body, "on"@) == Some(bool_text(on)) && field_of(body, "seconds"@) == Some(dec(n)) && n
            <= u64::MAX ==> advertising_of(body) == Some((on, Some(n as u64))),
        field_of(body, "on"@) == Some(bool_text(on)) && field_of(body, "seconds"@) is None
            ==> advertising_of(body) == Some((on, None::<u64>)),
        field_of(body, "ssid"@) == Some(a) && field_of(body, "psk"@) == Some(b) ==> network_of(body)
            == Some((a, Some(b))),
        field_of(body, "ssid"@) == Some(a) && field_of(body, "psk"@) is None ==> network_of(body) == Some(
            (a, None::<Seq<char>>),
        ),
        field_of(body, "name"@) == Some(a) && field_of(body, "cat"@) == Some(b) ==> crop_and_cat(body)
            == Some((a, b)),
        field_of(body, "id"@) == Some(a) && field_of(body, "enabled"@) == Some(bool_text(on))
            ==> switched_entry(body) == Some((a, on)),
{
    reveal_strlit("true");
    reveal_strlit("false");
    assert("true"@.len() == 4);
    assert("false"@.len() == 5);
    if n <= u32::MAX {
        lemma_uint_of_dec(n, u32::MAX as nat);
    }
    if n <= u64::MAX {
        lemma_uint_of_dec(n, u64::MAX as nat);
    }
}

/// A client waits for what comes after the number that it gives.
pub proof fn law_clients_wait_for_more(query: Seq<char>, n: u64)
    ensures
        query_value(query, "since"@) == Some(dec(n as nat)) ==> since_of(query) == n,
        query_value(query, "since"@) is None ==> since_of(query) == 0,
{
    lemma_uint_of_dec(n as nat, u64::MAX as nat);
}

} // verus!
