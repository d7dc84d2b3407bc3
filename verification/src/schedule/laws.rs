//! What holds of the schedule as a whole: times, tables and the cache are read back as they were
//! written, and no occurrence is claimed twice.

use vstd::prelude::*;
use vstd::string::*;
use vstd::utf8::{encode_utf8, encode_utf8_decode_utf8, encode_utf8_valid_utf8};

use crate::bytes::{bits32, lemma_le32, le32, le32_at, signed32};
use crate::http::field_of;
use crate::json::lemmas::{
    clear_of, in_quotes, is_item, is_key, lacks, lemma_clear_concat, lemma_clear_joined,
    lemma_clear_quoted, lemma_clear_unquoted, lemma_item_pair, lemma_items_joined,
    lemma_level_joined, lemma_level_plain, lemma_level_quoted, lemma_level_sealed,
    lemma_member_clear, lemma_member_level, lemma_next_member, lemma_object_bare, lemma_object_body,
    lemma_object_clear, lemma_object_item, lemma_object_quoted, lemma_other_key, lemma_pair_item,
    lemma_sealed_plain, level, member, members, object, sealed,
};
use crate::json::{bool_text, items, joined, pair_of, pairs_upto};
use crate::number::{
    all_digits, dec, dec_padded, digit_char, digit_worth, lemma_dec_worth, lemma_int_of_dec_int,
    lemma_two_digits, lemma_uint_of_dec, worth,
};
use crate::order::{before, lemma_before_total};
use crate::schedule::{
    amount_of, bytes_of_entries, cache_text, claimable, decodes_to, enabled_only, entries_of, entries_text, entries_upto,
    entry_of, entry_text, field_end, fired_text, has_id, ids_ordered, law_outcome_reads_back,
    lemma_record_at, modified_of, record_map, record_of, record_text, records_of, records_upto,
    sent_table, time_of, time_text, wire_bytes, with_enabled, without_id, CacheView, EntryView, FiredView, WireEntry,
};
use crate::text::{
    escaped, is_digit, is_plain, is_plain_char, is_space, law_plain_text_is_written_as_it_stands,
};

verus! {

/// A number under a hundred in two digits.
proof fn lemma_padded_two(n: nat)
    requires
        n < 100,
    ensures
        dec_padded(n, 2) == seq![digit_char(n / 10), digit_char(n % 10)],
        all_digits(dec_padded(n, 2), 10),
        worth(dec_padded(n, 2), 10) == n,
        is_digit(dec_padded(n, 2)[0]),
        is_digit(dec_padded(n, 2)[1]),
{
    let s = dec_padded(n, 2);
    if n < 10 {
        assert(s =~= seq![digit_char(0), digit_char(n)]);
    } else {
        assert(dec(n / 10) =~= seq![digit_char(n / 10)]);
        assert(dec(n) =~= seq![digit_char(n / 10), digit_char(n % 10)]);
        assert(s =~= seq![digit_char(n / 10), digit_char(n % 10)]);
    }
    lemma_two_digits(s);
    assert(digit_worth(s[0]) == n / 10);
    assert(digit_worth(s[1]) == n % 10);
}

/// The time text is two digits, a colon, two digits.
pub proof fn lemma_time_text(minute: nat)
    requires
        minute < 6000,
    ensures
        time_text(minute).len() == 5,
        time_text(minute)[2] == ':',
        forall|i: int|
            0 <= i < 5 && i != 2 ==> is_digit(#[trigger] time_text(minute)[i]),
        time_text(minute).subrange(0, 2) == dec_padded(minute / 60, 2),
        time_text(minute).subrange(3, 5) == dec_padded(minute % 60, 2),
{
    reveal_strlit(":");
    lemma_padded_two(minute / 60);
    lemma_padded_two(minute % 60);
    let t = time_text(minute);
    assert(t.subrange(0, 2) =~= dec_padded(minute / 60, 2));
    assert(t.subrange(3, 5) =~= dec_padded(minute % 60, 2));
}

/// A time of day is read back from its text.
pub proof fn law_time_reads_back(minute: u16)
    requires
        minute < 1440,
    ensures
        time_of(time_text(minute as nat)) == Some(minute),
{
    let t = time_text(minute as nat);
    let h = dec_padded(minute as nat / 60, 2);
    let m = dec_padded(minute as nat % 60, 2);
    lemma_time_text(minute as nat);
    lemma_padded_two(minute as nat / 60);
    lemma_padded_two(minute as nat % 60);
    lemma_two_digits(h);
    lemma_two_digits(m);
    assert(t[0] == h[0] && t[1] == h[1]) by {
        assert(t.subrange(0, 2)[0] == t[0] && t.subrange(0, 2)[1] == t[1]);
    }
    assert(t[3] == m[0] && t[4] == m[1]) by {
        assert(t.subrange(3, 5)[0] == t[3] && t.subrange(3, 5)[1] == t[4]);
    }
}

/// An id that fits its field, has no zero byte and is encoded comes back, with the rest of the
/// entry.
pub proof fn law_wire_entry_reads_back(e: WireEntry, d: WireEntry)
    requires
        encode_utf8(e.id@).len() <= 15,
        forall|i: int| 0 <= i < encode_utf8(e.id@).len() ==> encode_utf8(e.id@)[i] != 0,
        decodes_to(e.wire(), d),
    ensures
        d.id@ == e.id@,
        d.amount_l == e.amount_l,
        d.amount_r == e.amount_r,
        d.time == e.time,
{
    let id = encode_utf8(e.id@);
    let b = e.wire();
    lemma_field_end(id, b, 0);
    assert(b.subrange(0, id.len() as int) =~= id);
    encode_utf8_valid_utf8(e.id@);
    encode_utf8_decode_utf8(e.id@);
    encode_utf8_decode_utf8(d.id@);
    let bits = bits32(e.time as int);
    lemma_le32(bits);
    assert(le32_at(b, 18) == le32_at(le32(bits), 0));
    assert(signed32(bits) == e.time);
}

proof fn lemma_field_end(id: Seq<u8>, b: Seq<u8>, i: int)
    requires
        id.len() <= 15,
        0 <= i <= id.len(),
        b.len() == 22,
        forall|j: int| 0 <= j < id.len() ==> id[j] != 0 && b[j] == #[trigger] id[j],
        b[id.len() as int] == 0,
    ensures
        field_end(b, i) == id.len(),
    decreases id.len() - i,
{
    if i < id.len() {
        assert(b[i] == id[i]);
        lemma_field_end(id, b, i + 1);
    }
}

/// However long the id, its field ends with a zero byte and the amounts behind it are whole.
pub proof fn law_schedule_id_stays_in_its_field(e: WireEntry)
    ensures
        e.wire().len() == 22,
        e.wire()[15] == 0,
        e.wire()[16] == e.amount_l,
        e.wire()[17] == e.amount_r,
{
}

/// An occurrence that was claimed is not claimed again, nor is an earlier one of the same entry;
/// a later one is, and other entries are not touched.
pub proof fn law_claims_move_forward(
    records: Map<Seq<char>, FiredView>,
    id: Seq<char>,
    r: FiredView,
    date: Seq<char>,
    other: Seq<char>,
)
    requires
        claimable(records, id, r.date),
    ensures
        claimable(records.insert(id, r), id, date) <==> before(r.date, date),
        !claimable(records.insert(id, r), id, r.date),
        other != id ==> (claimable(records.insert(id, r), other, date) <==> claimable(
            records,
            other,
            date,
        )),
        before(date, r.date) ==> !claimable(records.insert(id, r), id, date),
{
    lemma_before_total(r.date, r.date);
    lemma_before_total(r.date, date);
}

/// A text that is written and read as it stands.
pub open spec fn plain(s: Seq<char>) -> bool {
    escaped(s) == s && lacks(s, '"') && lacks(s, '\\') && lacks(s, ',') && lacks(s, '}')
}

/// An id that can be told from the keys round it.
pub open spec fn plain_id(id: Seq<char>) -> bool {
    plain(id) && id.len() > 0 && id != "time"@ && id != "amount_l"@ && id != "amount_r"@ && id
        != "enabled"@
}

/// A text of printable ASCII characters is written and read as it stands, where it has no quotation
/// mark or backslash, and no comma or closing brace, at which a value would end.
pub proof fn law_plain_text_reads_back(s: Seq<char>)
    requires
        is_plain(s),
        lacks(s, ','),
        lacks(s, '}'),
    ensures
        plain(s),
{
    law_plain_text_is_written_as_it_stands(s);
    assert forall|i: int| 0 <= i < s.len() implies #[trigger] s[i] != '"' && s[i] != '\\' by {
        assert(is_plain_char(s[i]));
    }
}

/// An entry that the schedule accepts, with an id that is written and read as it stands.
pub open spec fn plain_entry(e: EntryView) -> bool {
    plain_id(e.id) && e.minute_of_day < 1440 && e.amount_l <= 50 && e.amount_r <= 50
}

/// The same, with an id that can be told from the keys of the cache too.
pub open spec fn cached_entry(e: EntryView) -> bool {
    plain_entry(e) && e.id != "last_modified"@ && e.id != "fired"@
}

proof fn lemma_entry_keys()
    ensures
        is_key("id"@),
        is_key("time"@),
        is_key("amount_l"@),
        is_key("amount_r"@),
        is_key("enabled"@),
        "id"@.len() == 2,
        "time"@.len() == 4,
        "amount_l"@.len() == 8,
        "amount_r"@.len() == 8,
        "enabled"@.len() == 7,
        "amount_l"@ != "amount_r"@,
        "amount_l"@[0] == 'a',
        "amount_r"@[0] == 'a',
        "enabled"@[0] == 'e',
{
    reveal_strlit("id");
    reveal_strlit("time");
    reveal_strlit("amount_l");
    reveal_strlit("amount_r");
    reveal_strlit("enabled");
    assert("amount_l"@[7] == 'l');
    assert("amount_r"@[7] == 'r');
}

proof fn lemma_cache_keys()
    ensures
        is_key("entries"@),
        is_key("last_modified"@),
        is_key("fired"@),
        "entries"@.len() == 7,
        "last_modified"@.len() == 13,
        "fired"@.len() == 5,
        "fired"@[0] == 'f',
{
    reveal_strlit("entries");
    reveal_strlit("last_modified");
    reveal_strlit("fired");
}

proof fn lemma_record_keys()
    ensures
        is_key("date"@),
        is_key("outcome"@),
        is_key("at_utc"@),
        "date"@.len() == 4,
        "outcome"@.len() == 7,
        "at_utc"@.len() == 6,
{
    reveal_strlit("date");
    reveal_strlit("outcome");
    reveal_strlit("at_utc");
}

/// A numeral holds nothing but digits.
pub proof fn lemma_dec_bare(n: nat)
    ensures
        dec(n).len() > 0,
        lacks(dec(n), ','),
        lacks(dec(n), '}'),
        lacks(dec(n), '"'),
        !is_space(dec(n)[0]),
        !is_space(dec(n).last()),
        level(dec(n)),
{
    lemma_dec_worth(n);
    assert(is_digit(dec(n)[0]));
    assert(is_digit(dec(n).last()));
    assert forall|i: int| 0 <= i < dec(n).len() implies #[trigger] dec(n)[i] != '"'
        && !crate::json::opens(dec(n)[i]) && !crate::json::closes(dec(n)[i]) by {
        assert(is_digit(dec(n)[i]));
    }
    lemma_level_plain(dec(n));
}

pub proof fn lemma_bool_bare(b: bool)
    ensures
        bool_text(b).len() > 0,
        lacks(bool_text(b), ','),
        lacks(bool_text(b), '}'),
        lacks(bool_text(b), '"'),
        !is_space(bool_text(b)[0]),
        !is_space(bool_text(b).last()),
        level(bool_text(b)),
        b == (bool_text(b) != "false"@),
{
    reveal_strlit("true");
    reveal_strlit("false");
    assert("true"@.len() != "false"@.len());
    lemma_level_plain(bool_text(b));
}

pub open spec fn entry_members(e: EntryView) -> Seq<(Seq<char>, Seq<char>)> {
    seq![
        ("id"@, in_quotes(e.id)),
        ("time"@, in_quotes(time_text(e.minute_of_day as nat))),
        ("amount_l"@, dec(e.amount_l as nat)),
        ("amount_r"@, dec(e.amount_r as nat)),
        ("enabled"@, bool_text(e.enabled)),
    ]
}

proof fn lemma_id_part(x: Seq<char>)
    ensures
        "{\"id\":\""@ + x + "\""@ == "{"@ + member("id"@, in_quotes(x)),
{
    reveal_strlit("{\"id\":\"");
    reveal_strlit("id");
    reveal_strlit("{");
    reveal_strlit(":");
    reveal_strlit("\"");
    assert("{\"id\":\""@ + x + "\""@ =~= "{"@ + member("id"@, in_quotes(x)));
}

proof fn lemma_time_part(s: Seq<char>, x: Seq<char>)
    ensures
        s + "\",\"time\":\""@ + x + "\""@ == s + "\""@ + ","@ + member("time"@, in_quotes(x)),
{
    reveal_strlit("\",\"time\":\"");
    reveal_strlit("time");
    reveal_strlit(",");
    reveal_strlit(":");
    reveal_strlit("\"");
    assert(s + "\",\"time\":\""@ + x + "\""@ =~= s + "\""@ + ","@ + member("time"@, in_quotes(x)));
}

proof fn lemma_amount_l_part(s: Seq<char>, x: Seq<char>)
    ensures
        s + "\",\"amount_l\":"@ + x == s + "\""@ + ","@ + member("amount_l"@, x),
{
    reveal_strlit("\",\"amount_l\":");
    reveal_strlit("amount_l");
    reveal_strlit(",");
    reveal_strlit(":");
    reveal_strlit("\"");
    assert(s + "\",\"amount_l\":"@ + x =~= s + "\""@ + ","@ + member("amount_l"@, x));
}

proof fn lemma_amount_r_part(s: Seq<char>, x: Seq<char>)
    ensures
        s + ",\"amount_r\":"@ + x == s + ","@ + member("amount_r"@, x),
{
    reveal_strlit(",\"amount_r\":");
    reveal_strlit("amount_r");
    reveal_strlit(",");
    reveal_strlit(":");
    reveal_strlit("\"");
    assert(s + ",\"amount_r\":"@ + x =~= s + ","@ + member("amount_r"@, x));
}

proof fn lemma_enabled_part(s: Seq<char>, x: Seq<char>)
    ensures
        s + ",\"enabled\":"@ + x == s + ","@ + member("enabled"@, x),
{
    reveal_strlit(",\"enabled\":");
    reveal_strlit("enabled");
    reveal_strlit(",");
    reveal_strlit(":");
    reveal_strlit("\"");
    assert(s + ",\"enabled\":"@ + x =~= s + ","@ + member("enabled"@, x));
}

/// The persisted form of an entry is an object.
#[verifier::rlimit(40)]
proof fn lemma_entry_object(e: EntryView)
    requires
        escaped(e.id) == e.id,
    ensures
        entry_text(e) == object(entry_members(e)),
{
    let t = time_text(e.minute_of_day as nat);
    let l = dec(e.amount_l as nat);
    let r = dec(e.amount_r as nat);
    let b = bool_text(e.enabled);
    let m0 = member("id"@, in_quotes(e.id));
    let m1 = member("time"@, in_quotes(t));
    let m2 = member("amount_l"@, l);
    let m3 = member("amount_r"@, r);
    let m4 = member("enabled"@, b);
    assert(members(entry_members(e)) =~= seq![m0, m1, m2, m3, m4]);
    lemma_id_part(e.id);
    lemma_time_part("{\"id\":\""@ + e.id, t);
    lemma_amount_l_part("{\"id\":\""@ + e.id + "\",\"time\":\""@ + t, l);
    lemma_amount_r_part("{\"id\":\""@ + e.id + "\",\"time\":\""@ + t + "\",\"amount_l\":"@ + l, r);
    lemma_enabled_part(
        "{\"id\":\""@ + e.id + "\",\"time\":\""@ + t + "\",\"amount_l\":"@ + l
            + ",\"amount_r\":"@ + r,
        b,
    );
    assert(joined(seq![m0], ","@) == m0);
    lemma_next_member("{"@, seq![m0], m1);
    lemma_next_member("{"@, seq![m0, m1], m2);
    lemma_next_member("{"@, seq![m0, m1, m2], m3);
    lemma_next_member("{"@, seq![m0, m1, m2, m3], m4);
    assert(seq![m0].push(m1) =~= seq![m0, m1]);
    assert(seq![m0, m1].push(m2) =~= seq![m0, m1, m2]);
    assert(seq![m0, m1, m2].push(m3) =~= seq![m0, m1, m2, m3]);
    assert(seq![m0, m1, m2, m3].push(m4) =~= seq![m0, m1, m2, m3, m4]);
}

/// The members of an entry are level, and clear of a key that is neither one of theirs nor the id.
proof fn lemma_entry_members(e: EntryView, key: Seq<char>)
    requires
        plain_entry(e),
        is_key(key),
    ensures
        forall|j: int| 0 <= j < 5 ==> level(#[trigger] members(entry_members(e))[j]),
        key != "id"@ && key != e.id ==> clear_of(members(entry_members(e))[0], key),
        key != "time"@ && (key.len() > 0 ==> !is_digit(key[0])) ==> clear_of(
            members(entry_members(e))[1],
            key,
        ),
        key != "amount_l"@ ==> clear_of(members(entry_members(e))[2], key),
        key != "amount_r"@ ==> clear_of(members(entry_members(e))[3], key),
        key != "enabled"@ ==> clear_of(members(entry_members(e))[4], key),
{
    let ms = entry_members(e);
    let t = time_text(e.minute_of_day as nat);
    lemma_entry_keys();
    lemma_time_text(e.minute_of_day as nat);
    lemma_dec_bare(e.amount_l as nat);
    lemma_dec_bare(e.amount_r as nat);
    lemma_bool_bare(e.enabled);
    assert(lacks(t, '"') && lacks(t, '\\')) by {
        assert forall|i: int| 0 <= i < t.len() implies #[trigger] t[i] != '"' && t[i] != '\\' by {
            if i != 2 {
                assert(is_digit(t[i]));
            }
        }
    }
    lemma_level_quoted(e.id);
    lemma_level_quoted(t);
    lemma_member_level("id"@, in_quotes(e.id));
    lemma_member_level("time"@, in_quotes(t));
    lemma_member_level("amount_l"@, dec(e.amount_l as nat));
    lemma_member_level("amount_r"@, dec(e.amount_r as nat));
    lemma_member_level("enabled"@, bool_text(e.enabled));
    assert forall|j: int| 0 <= j < 5 implies level(#[trigger] members(ms)[j]) by {
        assert(members(ms)[j] == member(ms[j].0, ms[j].1));
    }
    if key != e.id && key != "id"@ {
        lemma_clear_quoted(e.id, key);
        lemma_member_clear("id"@, in_quotes(e.id), key);
    }
    if key != "time"@ && (key.len() > 0 ==> !is_digit(key[0])) {
        assert(t != key);
        lemma_clear_quoted(t, key);
        lemma_member_clear("time"@, in_quotes(t), key);
    }
    lemma_clear_unquoted(dec(e.amount_l as nat), key);
    lemma_clear_unquoted(dec(e.amount_r as nat), key);
    lemma_clear_unquoted(bool_text(e.enabled), key);
    if key != "amount_l"@ {
        lemma_member_clear("amount_l"@, dec(e.amount_l as nat), key);
    }
    if key != "amount_r"@ {
        lemma_member_clear("amount_r"@, dec(e.amount_r as nat), key);
    }
    if key != "enabled"@ {
        lemma_member_clear("enabled"@, bool_text(e.enabled), key);
    }
}

/// An entry is read back from its persisted form.
#[verifier::rlimit(40)]
pub proof fn law_entry_reads_back(e: EntryView, now: u64)
    requires
        plain_entry(e),
    ensures
        entry_of(entry_text(e), now) == Ok::<EntryView, Seq<char>>(e),
        is_item(entry_text(e)),
{
    let ms = entry_members(e);
    let t = time_text(e.minute_of_day as nat);
    lemma_entry_object(e);
    lemma_entry_keys();
    lemma_time_text(e.minute_of_day as nat);
    assert(lacks(t, '"') && lacks(t, ',') && lacks(t, '}')) by {
        assert forall|i: int|
            0 <= i < t.len() implies #[trigger] t[i] != '"' && t[i] != ',' && t[i] != '}' by {
            if i != 2 {
                assert(is_digit(t[i]));
            }
        }
    }
    lemma_entry_members(e, "id"@);
    lemma_entry_members(e, "time"@);
    lemma_entry_members(e, "amount_l"@);
    lemma_entry_members(e, "amount_r"@);
    lemma_entry_members(e, "enabled"@);
    lemma_dec_bare(e.amount_l as nat);
    lemma_dec_bare(e.amount_r as nat);
    lemma_bool_bare(e.enabled);
    reveal_strlit("time");
    lemma_object_quoted(ms, 0, e.id);
    lemma_object_quoted(ms, 1, t);
    lemma_object_bare(ms, 2);
    lemma_object_bare(ms, 3);
    lemma_object_bare(ms, 4);
    law_time_reads_back(e.minute_of_day);
    lemma_int_of_dec_int(e.amount_l as int, i64::MIN as int, i64::MAX as int);
    lemma_int_of_dec_int(e.amount_r as int, i64::MIN as int, i64::MAX as int);
    assert(members(ms).len() == 5);
    lemma_object_item(ms);
}

/// A record whose texts are written and read as they stand.
pub open spec fn plain_record(id: Seq<char>, r: FiredView) -> bool {
    &&& escaped(id) == id && lacks(id, '"') && lacks(id, '\\')
    &&& plain(r.date) && r.date != "outcome"@ && r.date != "at_utc"@
}

pub open spec fn record_members(r: FiredView) -> Seq<(Seq<char>, Seq<char>)> {
    seq![
        ("date"@, in_quotes(r.date)),
        ("outcome"@, in_quotes(r.outcome.text())),
        ("at_utc"@, dec(r.at_utc as nat)),
    ]
}

proof fn lemma_date_part(s: Seq<char>, x: Seq<char>)
    ensures
        s + "\":{\"date\":\""@ + x + "\""@ == s + "\""@ + ":"@ + ("{"@ + member(
            "date"@,
            in_quotes(x),
        )),
{
    reveal_strlit("\":{\"date\":\"");
    reveal_strlit("date");
    reveal_strlit("{");
    reveal_strlit(":");
    reveal_strlit("\"");
    assert(s + "\":{\"date\":\""@ + x + "\""@ =~= s + "\""@ + ":"@ + ("{"@ + member(
        "date"@,
        in_quotes(x),
    )));
}

proof fn lemma_outcome_part(s: Seq<char>, x: Seq<char>)
    ensures
        s + "\",\"outcome\":\""@ + x + "\""@ == s + "\""@ + ","@ + member(
            "outcome"@,
            in_quotes(x),
        ),
{
    reveal_strlit("\",\"outcome\":\"");
    reveal_strlit("outcome");
    reveal_strlit(",");
    reveal_strlit(":");
    reveal_strlit("\"");
    assert(s + "\",\"outcome\":\""@ + x + "\""@ =~= s + "\""@ + ","@ + member(
        "outcome"@,
        in_quotes(x),
    ));
}

proof fn lemma_at_utc_part(s: Seq<char>, x: Seq<char>)
    ensures
        s + "\",\"at_utc\":"@ + x == s + "\""@ + ","@ + member("at_utc"@, x),
{
    reveal_strlit("\",\"at_utc\":");
    reveal_strlit("at_utc");
    reveal_strlit(",");
    reveal_strlit(":");
    reveal_strlit("\"");
    assert(s + "\",\"at_utc\":"@ + x =~= s + "\""@ + ","@ + member("at_utc"@, x));
}

/// A record with its date as it is written.
pub open spec fn as_written(r: FiredView) -> FiredView {
    FiredView { date: escaped(r.date), ..r }
}

/// The persisted form of a record is a pair of its id and an object.
proof fn lemma_record_text(id: Seq<char>, r: FiredView)
    ensures
        record_text(id, r) == member(escaped(id), object(record_members(as_written(r)))),
{
    lemma_record_object(escaped(id), as_written(r));
}

/// An id and a record, put together as they stand, are a pair of the id and an object.
#[verifier::rlimit(40)]
proof fn lemma_record_object(id: Seq<char>, r: FiredView)
    ensures
        "\""@ + id + "\":{\"date\":\""@ + r.date + "\",\"outcome\":\""@ + r.outcome.text()
            + "\",\"at_utc\":"@ + dec(r.at_utc as nat) + "}"@ == member(
            id,
            object(record_members(r)),
        ),
{
    let o = r.outcome.text();
    let n = dec(r.at_utc as nat);
    let m0 = member("date"@, in_quotes(r.date));
    let m1 = member("outcome"@, in_quotes(o));
    let m2 = member("at_utc"@, n);
    assert(members(record_members(r)) =~= seq![m0, m1, m2]);
    let h = "\""@ + id;
    lemma_date_part(h, r.date);
    lemma_outcome_part(h + "\":{\"date\":\""@ + r.date, o);
    lemma_at_utc_part(h + "\":{\"date\":\""@ + r.date + "\",\"outcome\":\""@ + o, n);
    let open = in_quotes(id) + ":"@;
    assert(joined(seq![m0], ","@) == m0);
    lemma_next_member("{"@, seq![m0], m1);
    lemma_next_member("{"@, seq![m0, m1], m2);
    assert(seq![m0].push(m1) =~= seq![m0, m1]);
    assert(seq![m0, m1].push(m2) =~= seq![m0, m1, m2]);
    let b0 = "{"@ + m0;
    let b1 = b0 + ","@ + m1;
    let b2 = b1 + ","@ + m2;
    assert(open + b0 + ","@ + m1 =~= open + b1);
    assert(open + b1 + ","@ + m2 =~= open + b2);
    assert(open + b2 + "}"@ =~= in_quotes(id) + (":"@ + (b2 + "}"@)));
}

/// A record is read back from its persisted form.
pub proof fn law_record_reads_back(id: Seq<char>, r: FiredView)
    requires
        plain_record(id, r),
    ensures
        pair_of(record_text(id, r)) == Some((id, object(record_members(r)))),
        record_of(object(record_members(r))) == Some(r),
        is_item(record_text(id, r)),
{
    let ms = record_members(r);
    let o = r.outcome.text();
    lemma_record_text(id, r);
    lemma_record_keys();
    law_outcome_reads_back(r.outcome);
    reveal_strlit("dispensed");
    reveal_strlit("missed");
    reveal_strlit(":");
    lemma_dec_bare(r.at_utc as nat);
    lemma_sealed_plain(id);
    lemma_sealed_plain(r.date);
    lemma_record_item(id, r);
    assert(members(ms).len() == 3);
    reveal_strlit("at_utc");
    assert("at_utc"@[0] == 'a');
    assert(o[0] != 'a');
    lemma_clear_quoted(r.date, "outcome"@);
    lemma_clear_quoted(r.date, "at_utc"@);
    lemma_clear_quoted(o, "at_utc"@);
    lemma_member_clear("date"@, in_quotes(r.date), "outcome"@);
    lemma_member_clear("date"@, in_quotes(r.date), "at_utc"@);
    lemma_member_clear("outcome"@, in_quotes(o), "at_utc"@);
    lemma_object_quoted(ms, 0, r.date);
    lemma_object_quoted(ms, 1, o);
    lemma_object_bare(ms, 2);
    lemma_uint_of_dec(r.at_utc as nat, u64::MAX as nat);
    lemma_item_pair(id, object(ms));
}

/// A record whose id and date stay inside their quotation marks is an item, behind its id an object.
proof fn lemma_record_item(id: Seq<char>, r: FiredView)
    requires
        sealed(escaped(id)),
        sealed(escaped(r.date)),
    ensures
        is_item(record_text(id, r)),
        object(record_members(as_written(r)))[0] == '{',
        object(record_members(as_written(r))).last() == '}',
        object(record_members(as_written(r))).len() > 0,
{
    let ms = record_members(as_written(r));
    let o = r.outcome.text();
    lemma_record_text(id, r);
    lemma_record_keys();
    reveal_strlit("dispensed");
    reveal_strlit("missed");
    lemma_dec_bare(r.at_utc as nat);
    lemma_level_sealed(escaped(r.date));
    lemma_level_quoted(o);
    lemma_member_level("date"@, in_quotes(escaped(r.date)));
    lemma_member_level("outcome"@, in_quotes(o));
    lemma_member_level("at_utc"@, dec(r.at_utc as nat));
    assert(members(ms).len() == 3);
    assert forall|j: int| 0 <= j < 3 implies level(#[trigger] members(ms)[j]) by {
        assert(members(ms)[j] == member(ms[j].0, ms[j].1));
    }
    lemma_object_item(ms);
    lemma_pair_item(escaped(id), object(ms));
}

/// Whether the texts of a record stay inside the quotation marks that they are written in.
pub open spec fn sealed_record(id: Seq<char>, r: FiredView) -> bool {
    sealed(escaped(id)) && sealed(escaped(r.date))
}

proof fn lemma_plain_record_sealed(id: Seq<char>, r: FiredView)
    requires
        plain_record(id, r),
    ensures
        sealed_record(id, r),
{
    lemma_sealed_plain(id);
    lemma_sealed_plain(r.date);
}

proof fn lemma_joined_records(v: Seq<(Seq<char>, FiredView)>)
    requires
        forall|i: int| 0 <= i < v.len() ==> sealed_record((#[trigger] v[i]).0, v[i].1),
    ensures
        items(fired_text(v)) == v.map_values(|p: (Seq<char>, FiredView)| record_text(p.0, p.1)),
        level(fired_text(v)),
{
    let parts = v.map_values(|p: (Seq<char>, FiredView)| record_text(p.0, p.1));
    assert forall|i: int| 0 <= i < parts.len() implies is_item(#[trigger] parts[i]) by {
        lemma_record_item(v[i].0, v[i].1);
    }
    lemma_items_joined(parts);
    lemma_level_joined(parts);
}

/// Of the records that were joined, the one with a given id is found under it.
proof fn lemma_record_found(v: Seq<(Seq<char>, FiredView)>, at: int, n: int)
    requires
        0 <= at < v.len(),
        plain_record(v[at].0, v[at].1),
        forall|i: int| 0 <= i < v.len() ==> sealed_record((#[trigger] v[i]).0, v[i].1),
        forall|i: int| 0 <= i < v.len() && i != at ==> escaped((#[trigger] v[i]).0) != v[at].0,
        0 <= n <= v.len(),
    ensures
        ({
            let its = v.map_values(|p: (Seq<char>, FiredView)| record_text(p.0, p.1));
            let m = records_upto(pairs_upto(its, n), pairs_upto(its, n).len() as int);
            m.dom().contains(v[at].0) == (at < n) && (at < n ==> m[v[at].0] == v[at].1)
        }),
    decreases n,
{
    let its = v.map_values(|p: (Seq<char>, FiredView)| record_text(p.0, p.1));
    if n > 0 {
        lemma_record_found(v, at, n - 1);
        let ps = pairs_upto(its, n - 1);
        let now = pairs_upto(its, n);
        let (key, rec) = v[n - 1];
        assert(its[n - 1] == record_text(key, rec));
        if n - 1 == at {
            law_record_reads_back(key, rec);
        } else {
            lemma_record_text(key, rec);
            lemma_other_key(
                escaped(key),
                object(record_members(as_written(rec))),
                v[at].0,
            );
        }
        if pair_of(its[n - 1]) is Some {
            assert(now == ps.push(pair_of(its[n - 1])->0));
            lemma_records_prefix(ps, now, ps.len() as int);
        }
    }
}

/// The records that were joined are read one by one.
proof fn lemma_records_joined(v: Seq<(Seq<char>, FiredView)>, n: int)
    requires
        forall|i: int| 0 <= i < v.len() ==> plain_record((#[trigger] v[i]).0, v[i].1),
        ids_ordered(v),
        0 <= n <= v.len(),
    ensures
        ({
            let its = v.map_values(|p: (Seq<char>, FiredView)| record_text(p.0, p.1));
            &&& pairs_upto(its, n).len() == n
            &&& records_upto(pairs_upto(its, n), n) == record_map(v.subrange(0, n))
            &&& forall|j: int|
                0 <= j < n ==> #[trigger] pairs_upto(its, n)[j] == (
                    v[j].0,
                    object(record_members(v[j].1)),
                )
        }),
    decreases n,
{
    let its = v.map_values(|p: (Seq<char>, FiredView)| record_text(p.0, p.1));
    if n == 0 {
        assert(record_map(v.subrange(0, 0)) =~= Map::<Seq<char>, FiredView>::empty());
    } else {
        lemma_records_joined(v, n - 1);
        law_record_reads_back(v[n - 1].0, v[n - 1].1);
        let ps = pairs_upto(its, n - 1);
        let now = pairs_upto(its, n);
        let key = v[n - 1].0;
        let rec = v[n - 1].1;
        assert(its[n - 1] == record_text(key, rec));
        assert(now == ps.push((key, object(record_members(rec)))));
        lemma_records_prefix(ps, now, n - 1);
        let was = v.subrange(0, n - 1);
        let all = v.subrange(0, n);
        assert(ids_ordered(was)) by {
            assert forall|i: int, j: int| 0 <= i < j < was.len() implies before(
                #[trigger] was[i].0,
                #[trigger] was[j].0,
            ) by {
                assert(was[i] == v[i] && was[j] == v[j]);
            }
        }
        assert(all =~= was.insert(n - 1, (key, rec)));
        assert forall|i: int| 0 <= i < n - 1 implies before(#[trigger] was[i].0, key) by {
            assert(was[i] == v[i]);
            assert(before(v[i].0, v[n - 1].0));
        }
        crate::schedule::lemma_inserted(was, all, n - 1, key, rec);
    }
}

proof fn lemma_records_prefix(a: Seq<(Seq<char>, Seq<char>)>, b: Seq<(Seq<char>, Seq<char>)>, n: int)
    requires
        0 <= n <= a.len() <= b.len(),
        forall|i: int| 0 <= i < n ==> a[i] == #[trigger] b[i],
    ensures
        records_upto(a, n) == records_upto(b, n),
    decreases n,
{
    if n > 0 {
        lemma_records_prefix(a, b, n - 1);
        assert(a[n - 1] == b[n - 1]);
    }
}

/// The entries that were joined are read one by one.
proof fn lemma_entries_joined(v: Seq<EntryView>, n: int, now: u64)
    requires
        forall|i: int| 0 <= i < v.len() ==> plain_entry(#[trigger] v[i]),
        0 <= n <= v.len(),
    ensures
        entries_upto(v.map_values(|e: EntryView| entry_text(e)), n, now) == Ok::<
            Seq<EntryView>,
            Seq<char>,
        >(v.subrange(0, n)),
    decreases n,
{
    if n == 0 {
        assert(v.subrange(0, 0) =~= Seq::<EntryView>::empty());
    } else {
        lemma_entries_joined(v, n - 1, now);
        law_entry_reads_back(v[n - 1], now);
        assert(v.subrange(0, n) =~= v.subrange(0, n - 1).push(v[n - 1]));
    }
}

pub open spec fn cache_members(c: CacheView) -> Seq<(Seq<char>, Seq<char>)> {
    seq![
        ("entries"@, seq!['['] + entries_text(c.entries) + seq![']']),
        ("last_modified"@, dec(c.last_modified as nat)),
        ("fired"@, seq!['{'] + fired_text(c.fired) + seq!['}']),
    ]
}

proof fn lemma_entries_part(x: Seq<char>)
    ensures
        "{\"entries\":["@ + x + "]"@ == "{"@ + member("entries"@, seq!['['] + x + seq![']']),
{
    reveal_strlit("{\"entries\":[");
    reveal_strlit("entries");
    reveal_strlit("{");
    reveal_strlit("]");
    reveal_strlit(":");
    reveal_strlit("\"");
    assert("{\"entries\":["@ + x + "]"@ =~= "{"@ + member("entries"@, seq!['['] + x + seq![']']));
}

proof fn lemma_modified_part(s: Seq<char>, x: Seq<char>)
    ensures
        s + "],\"last_modified\":"@ + x == s + "]"@ + ","@ + member("last_modified"@, x),
{
    reveal_strlit("],\"last_modified\":");
    reveal_strlit("last_modified");
    reveal_strlit("]");
    reveal_strlit(",");
    reveal_strlit(":");
    reveal_strlit("\"");
    assert(s + "],\"last_modified\":"@ + x =~= s + "]"@ + ","@ + member("last_modified"@, x));
}

proof fn lemma_fired_part(s: Seq<char>, x: Seq<char>)
    ensures
        s + ",\"fired\":{"@ + x + "}}"@ == s + ","@ + member("fired"@, seq!['{'] + x + seq!['}'])
            + "}"@,
{
    reveal_strlit(",\"fired\":{");
    reveal_strlit("fired");
    reveal_strlit(",");
    reveal_strlit(":");
    reveal_strlit("\"");
    reveal_strlit("}}");
    reveal_strlit("}");
    assert(s + ",\"fired\":{"@ + x + "}}"@ =~= s + ","@ + member(
        "fired"@,
        seq!['{'] + x + seq!['}'],
    ) + "}"@);
}

/// The persisted form of the cache is an object.
#[verifier::rlimit(40)]
proof fn lemma_cache_object(c: CacheView)
    ensures
        cache_text(c) == object(cache_members(c)),
{
    let e = entries_text(c.entries);
    let n = dec(c.last_modified as nat);
    let f = fired_text(c.fired);
    let m0 = member("entries"@, seq!['['] + e + seq![']']);
    let m1 = member("last_modified"@, n);
    let m2 = member("fired"@, seq!['{'] + f + seq!['}']);
    assert(members(cache_members(c)) =~= seq![m0, m1, m2]);
    lemma_entries_part(e);
    lemma_modified_part("{\"entries\":["@ + e, n);
    lemma_fired_part("{\"entries\":["@ + e + "],\"last_modified\":"@ + n, f);
    assert(joined(seq![m0], ","@) == m0);
    lemma_next_member("{"@, seq![m0], m1);
    lemma_next_member("{"@, seq![m0, m1], m2);
    assert(seq![m0].push(m1) =~= seq![m0, m1]);
    assert(seq![m0, m1].push(m2) =~= seq![m0, m1, m2]);
}

/// A persisted entry is an item and holds no key of the cache.
proof fn lemma_entry_in_cache(e: EntryView)
    requires
        cached_entry(e),
    ensures
        is_item(entry_text(e)),
        clear_of(entry_text(e), "last_modified"@),
        clear_of(entry_text(e), "fired"@),
{
    law_entry_reads_back(e, 0);
    lemma_entry_object(e);
    lemma_cache_keys();
    lemma_entry_keys();
    lemma_entry_members(e, "last_modified"@);
    lemma_entry_members(e, "fired"@);
    reveal_strlit("last_modified");
    assert(members(entry_members(e)).len() == 5);
    lemma_object_clear(entry_members(e), "last_modified"@);
    lemma_object_clear(entry_members(e), "fired"@);
}

/// The persisted entries are items, and level.
proof fn lemma_entries_level(v: Seq<EntryView>)
    requires
        forall|i: int| 0 <= i < v.len() ==> plain_entry(#[trigger] v[i]),
    ensures
        items(entries_text(v)) == v.map_values(|e: EntryView| entry_text(e)),
        level(entries_text(v)),
{
    let parts = v.map_values(|e: EntryView| entry_text(e));
    assert forall|i: int| 0 <= i < parts.len() implies is_item(#[trigger] parts[i]) by {
        law_entry_reads_back(v[i], 0);
    }
    lemma_items_joined(parts);
    lemma_level_joined(parts);
}

/// The persisted entries are items, level, and hold no key of the cache.
proof fn lemma_entries_in_cache(v: Seq<EntryView>)
    requires
        forall|i: int| 0 <= i < v.len() ==> cached_entry(#[trigger] v[i]),
    ensures
        items(entries_text(v)) == v.map_values(|e: EntryView| entry_text(e)),
        level(entries_text(v)),
        clear_of(seq!['['] + entries_text(v) + seq![']'], "last_modified"@),
        clear_of(seq!['['] + entries_text(v) + seq![']'], "fired"@),
{
    let parts = v.map_values(|e: EntryView| entry_text(e));
    lemma_cache_keys();
    lemma_entries_level(v);
    assert forall|i: int| 0 <= i < parts.len() implies clear_of(
        #[trigger] parts[i],
        "last_modified"@,
    ) by {
        lemma_entry_in_cache(v[i]);
    }
    assert forall|i: int| 0 <= i < parts.len() implies clear_of(#[trigger] parts[i], "fired"@) by {
        lemma_entry_in_cache(v[i]);
    }
    lemma_clear_bracketed(parts, "last_modified"@);
    lemma_clear_bracketed(parts, "fired"@);
}

/// The members of the cache before another hold no key of that one.
proof fn lemma_cache_members(c: CacheView)
    requires
        forall|i: int| 0 <= i < c.entries.len() ==> cached_entry(#[trigger] c.entries[i]),
    ensures
        clear_of(members(cache_members(c))[0], "last_modified"@),
        clear_of(members(cache_members(c))[0], "fired"@),
        clear_of(members(cache_members(c))[1], "fired"@),
{
    let ms = cache_members(c);
    lemma_cache_keys();
    lemma_entries_in_cache(c.entries);
    lemma_member_clear("entries"@, ms[0].1, "last_modified"@);
    lemma_member_clear("entries"@, ms[0].1, "fired"@);
    lemma_dec_bare(c.last_modified as nat);
    lemma_clear_unquoted(dec(c.last_modified as nat), "fired"@);
    lemma_member_clear("last_modified"@, dec(c.last_modified as nat), "fired"@);
}

proof fn lemma_cache_entries(c: CacheView, now: u64)
    requires
        forall|i: int| 0 <= i < c.entries.len() ==> cached_entry(#[trigger] c.entries[i]),
    ensures
        entries_of(cache_text(c), now) == Ok::<Seq<EntryView>, Seq<char>>(c.entries),
{
    lemma_cache_object(c);
    lemma_cache_keys();
    lemma_entries_in_cache(c.entries);
    lemma_object_body(cache_members(c), 0, entries_text(c.entries), '[', ']');
    lemma_entries_joined(c.entries, c.entries.len() as int, now);
    assert(c.entries.subrange(0, c.entries.len() as int) =~= c.entries);
}

proof fn lemma_cache_modified(c: CacheView)
    requires
        forall|i: int| 0 <= i < c.entries.len() ==> cached_entry(#[trigger] c.entries[i]),
    ensures
        modified_of(cache_text(c)) == c.last_modified,
{
    lemma_cache_object(c);
    lemma_cache_keys();
    lemma_cache_members(c);
    lemma_dec_bare(c.last_modified as nat);
    lemma_object_bare(cache_members(c), 1);
    lemma_uint_of_dec(c.last_modified as nat, u64::MAX as nat);
}

proof fn lemma_cache_records(c: CacheView)
    requires
        forall|i: int| 0 <= i < c.entries.len() ==> cached_entry(#[trigger] c.entries[i]),
        forall|i: int| 0 <= i < c.fired.len() ==> plain_record((#[trigger] c.fired[i]).0, c.fired[i].1),
        ids_ordered(c.fired),
    ensures
        records_of(cache_text(c)) == record_map(c.fired),
{
    lemma_cache_object(c);
    lemma_cache_keys();
    lemma_cache_members(c);
    assert forall|i: int| 0 <= i < c.fired.len() implies sealed_record(
        (#[trigger] c.fired[i]).0,
        c.fired[i].1,
    ) by {
        lemma_plain_record_sealed(c.fired[i].0, c.fired[i].1);
    }
    lemma_joined_records(c.fired);
    lemma_object_body(cache_members(c), 2, fired_text(c.fired), '{', '}');
    lemma_records_joined(c.fired, c.fired.len() as int);
    assert(c.fired.subrange(0, c.fired.len() as int) =~= c.fired);
}

/// A body that holds nothing but entries is read back as those entries.
pub proof fn law_entries_body_reads_back(v: Seq<EntryView>, now: u64)
    requires
        forall|i: int| 0 <= i < v.len() ==> plain_entry(#[trigger] v[i]),
    ensures
        entries_of("{\"entries\":["@ + entries_text(v) + "]}"@, now) == Ok::<
            Seq<EntryView>,
            Seq<char>,
        >(v),
{
    let e = entries_text(v);
    let ms = seq![("entries"@, seq!['['] + e + seq![']'])];
    let m0 = member("entries"@, seq!['['] + e + seq![']']);
    assert(members(ms) =~= seq![m0]);
    assert(joined(seq![m0], ","@) == m0);
    lemma_entries_part(e);
    assert("{\"entries\":["@ + e + "]}"@ =~= "{\"entries\":["@ + e + "]"@ + "}"@) by {
        reveal_strlit("]}");
        reveal_strlit("]");
        reveal_strlit("}");
    }
    lemma_cache_keys();
    lemma_entries_level(v);
    lemma_object_body(ms, 0, e, '[', ']');
    lemma_entries_joined(v, v.len() as int, now);
    assert(v.subrange(0, v.len() as int) =~= v);
}

/// What a persisted cache reads back as: the entries, the time and the records that were written.
/// Ids and dates must be such that they are written and read as they stand.
pub proof fn law_cache_reads_back(c: CacheView, now: u64)
    requires
        forall|i: int| 0 <= i < c.entries.len() ==> cached_entry(#[trigger] c.entries[i]),
        forall|i: int| 0 <= i < c.fired.len() ==> plain_record((#[trigger] c.fired[i]).0, c.fired[i].1),
        ids_ordered(c.fired),
    ensures
        entries_of(cache_text(c), now) == Ok::<Seq<EntryView>, Seq<char>>(c.entries),
        modified_of(cache_text(c)) == c.last_modified,
        records_of(cache_text(c)) == record_map(c.fired),
{
    lemma_cache_entries(c, now);
    lemma_cache_modified(c);
    lemma_cache_records(c);
}

/// A claim that was saved is there when the cache is loaded again, whatever other records were
/// saved with it. Of those it is asked only that they stay inside the quotation marks that they are
/// written in, and that none is written like the id of the claim.
pub proof fn law_claim_survives_a_restart(
    was: CacheView,
    saved: CacheView,
    id: Seq<char>,
    r: FiredView,
    now: u64,
)
    requires
        forall|i: int| 0 <= i < was.entries.len() ==> cached_entry(#[trigger] was.entries[i]),
        forall|i: int|
            0 <= i < was.fired.len() && (#[trigger] was.fired[i]).0 != id ==> sealed_record(
                was.fired[i].0,
                was.fired[i].1,
            ) && escaped(was.fired[i].0) != id,
        plain_record(id, r),
        ids_ordered(was.fired),
        ids_ordered(saved.fired),
        saved.entries == was.entries,
        record_map(saved.fired) == record_map(was.fired).insert(id, r),
    ensures
        entries_of(cache_text(saved), now) == Ok::<Seq<EntryView>, Seq<char>>(was.entries),
        records_of(cache_text(saved)).dom().contains(id),
        records_of(cache_text(saved))[id] == r,
{
    let v = saved.fired;
    assert(record_map(v).dom().contains(id));
    let at = choose|k: int| 0 <= k < v.len() && #[trigger] v[k].0 == id;
    lemma_record_at(v, at);
    lemma_plain_record_sealed(id, r);
    assert forall|i: int| 0 <= i < v.len() implies sealed_record((#[trigger] v[i]).0, v[i].1) && (i
        != at ==> escaped(v[i].0) != id) by {
        lemma_record_at(v, i);
        let key = v[i].0;
        if key == id {
            crate::schedule::lemma_ids_distinct(v, i, at);
        } else {
            assert(record_map(was.fired).dom().contains(key));
            let k = choose|k: int| 0 <= k < was.fired.len() && #[trigger] was.fired[k].0 == key;
            lemma_record_at(was.fired, k);
            assert(was.fired[k].0 != id);
        }
    }
    lemma_cache_entries(saved, now);
    lemma_cache_object(saved);
    lemma_cache_keys();
    lemma_cache_members(saved);
    lemma_joined_records(v);
    lemma_object_body(cache_members(saved), 2, fired_text(v), '{', '}');
    lemma_record_found(v, at, v.len() as int);
}

/// Where every other record is written as it stands too, all the records are there again: those
/// from before the claim with the claimed one put in.
pub proof fn law_claims_survive_a_restart(
    was: CacheView,
    saved: CacheView,
    id: Seq<char>,
    r: FiredView,
    now: u64,
)
    requires
        forall|i: int| 0 <= i < was.entries.len() ==> cached_entry(#[trigger] was.entries[i]),
        forall|i: int|
            0 <= i < was.fired.len() ==> plain_record((#[trigger] was.fired[i]).0, was.fired[i].1),
        plain_record(id, r),
        ids_ordered(was.fired),
        ids_ordered(saved.fired),
        saved.entries == was.entries,
        record_map(saved.fired) == record_map(was.fired).insert(id, r),
    ensures
        records_of(cache_text(saved)) == record_map(was.fired).insert(id, r),
{
    assert forall|i: int| 0 <= i < saved.fired.len() implies plain_record(
        (#[trigger] saved.fired[i]).0,
        saved.fired[i].1,
    ) by {
        lemma_record_at(saved.fired, i);
        let key = saved.fired[i].0;
        if key != id {
            assert(record_map(was.fired).dom().contains(key));
            let k = choose|k: int| 0 <= k < was.fired.len() && #[trigger] was.fired[k].0 == key;
            lemma_record_at(was.fired, k);
            assert(plain_record(was.fired[k].0, was.fired[k].1));
        }
    }
    law_cache_reads_back(saved, now);
}

/// An id and a date of plain characters make a record that is written and read as it stands; the
/// date may hold no comma or closing brace.
pub proof fn law_plain_record(id: Seq<char>, r: FiredView)
    requires
        is_plain(id),
        is_plain(r.date),
        lacks(r.date, ','),
        lacks(r.date, '}'),
        r.date != "outcome"@,
        r.date != "at_utc"@,
    ensures
        plain_record(id, r),
        sealed_record(id, r),
{
    law_plain_text_is_written_as_it_stands(id);
    law_plain_text_reads_back(r.date);
    assert forall|i: int| 0 <= i < id.len() implies #[trigger] id[i] != '"' && id[i] != '\\' by {
        assert(is_plain_char(id[i]));
    }
    lemma_plain_record_sealed(id, r);
}

proof fn lemma_clear_bracketed(parts: Seq<Seq<char>>, key: Seq<char>)
    requires
        forall|i: int| 0 <= i < parts.len() ==> clear_of(#[trigger] parts[i], key),
        is_key(key),
    ensures
        clear_of(seq!['['] + joined(parts, ","@) + seq![']'], key),
{
    lemma_clear_joined(parts, key);
    lemma_clear_unquoted(seq!['['], key);
    lemma_clear_unquoted(seq![']'], key);
    lemma_clear_concat(seq!['['], joined(parts, ","@), key);
    lemma_clear_concat(seq!['['] + joined(parts, ","@), seq![']'], key);
}

/// The last record of a sequence has the greatest id.
proof fn lemma_last_is_greatest(v: Seq<(Seq<char>, FiredView)>, id: Seq<char>)
    requires
        ids_ordered(v),
        v.len() > 0,
        record_map(v).dom().contains(id),
    ensures
        id == v.last().0 || before(id, v.last().0),
{
    let k = choose|k: int| 0 <= k < v.len() && #[trigger] v[k].0 == id;
    if k < v.len() - 1 {
        assert(before(v[k].0, v[v.len() - 1].0));
    }
}

proof fn lemma_same_last(a: Seq<(Seq<char>, FiredView)>, b: Seq<(Seq<char>, FiredView)>)
    requires
        ids_ordered(a),
        ids_ordered(b),
        record_map(a) == record_map(b),
        a.len() > 0,
        b.len() > 0,
    ensures
        a.last() == b.last(),
{
    lemma_record_at(a, a.len() - 1);
    lemma_record_at(b, b.len() - 1);
    lemma_last_is_greatest(a, b.last().0);
    lemma_last_is_greatest(b, a.last().0);
    lemma_before_total(a.last().0, b.last().0);
}

proof fn lemma_dropped_ordered(v: Seq<(Seq<char>, FiredView)>)
    requires
        ids_ordered(v),
        v.len() > 0,
    ensures
        ids_ordered(v.drop_last()),
{
    let p = v.drop_last();
    assert forall|i: int, j: int| 0 <= i < j < p.len() implies before(
        #[trigger] p[i].0,
        #[trigger] p[j].0,
    ) by {
        assert(p[i] == v[i] && p[j] == v[j]);
    }
}

/// Records in the order of their ids are one sequence only.
#[verifier::rlimit(40)]
pub proof fn law_records_have_one_order(
    a: Seq<(Seq<char>, FiredView)>,
    b: Seq<(Seq<char>, FiredView)>,
)
    requires
        ids_ordered(a),
        ids_ordered(b),
        record_map(a) == record_map(b),
    ensures
        a == b,
    decreases a.len(),
{
    if a.len() == 0 {
        if b.len() > 0 {
            lemma_record_at(b, 0);
            assert(record_map(a).dom().contains(b[0].0));
        }
        assert(a =~= b);
    } else {
        if b.len() == 0 {
            lemma_record_at(a, 0);
            assert(record_map(b).dom().contains(a[0].0));
        }
        lemma_same_last(a, b);
        lemma_dropped_ordered(a);
        lemma_dropped_ordered(b);
        lemma_dropped(a);
        lemma_dropped(b);
        law_records_have_one_order(a.drop_last(), b.drop_last());
        assert(a =~= a.drop_last().push(a.last()));
        assert(b =~= b.drop_last().push(b.last()));
    }
}

/// Without its last record a sequence has the records but that one.
proof fn lemma_dropped(v: Seq<(Seq<char>, FiredView)>)
    requires
        ids_ordered(v),
        v.len() > 0,
    ensures
        record_map(v.drop_last()) == record_map(v).remove(v.last().0),
{
    let p = v.drop_last();
    let a = record_map(p);
    let b = record_map(v).remove(v.last().0);
    lemma_dropped_ordered(v);
    assert forall|id: Seq<char>| #[trigger] a.dom().contains(id) <==> b.dom().contains(id) by {
        if a.dom().contains(id) {
            let k = choose|k: int| 0 <= k < p.len() && #[trigger] p[k].0 == id;
            assert(v[k].0 == id);
            if id == v.last().0 {
                crate::schedule::lemma_ids_distinct(v, k, v.len() - 1);
            }
        }
        if b.dom().contains(id) {
            let k = choose|k: int| 0 <= k < v.len() && #[trigger] v[k].0 == id;
            assert(k != v.len() - 1);
            assert(p[k].0 == id);
        }
    }
    assert forall|id: Seq<char>| #[trigger] a.dom().contains(id) implies a[id] == b[id] by {
        let k = choose|k: int| 0 <= k < p.len() && #[trigger] p[k].0 == id;
        lemma_record_at(p, k);
        assert(v[k] == p[k]);
        lemma_record_at(v, k);
    }
    assert(a =~= b);
}

/// Whether no two entries have one id.
pub open spec fn ids_differ(v: Seq<EntryView>) -> bool {
    forall|i: int, j: int| 0 <= i < j < v.len() ==> (#[trigger] v[i]).id != (#[trigger] v[j]).id
}

/// An entry that was removed is gone, and every other entry is still there.
pub proof fn law_removed_is_gone(v: Seq<EntryView>, id: Seq<char>, other: Seq<char>)
    ensures
        !has_id(without_id(v, id), id),
        other != id ==> has_id(without_id(v, id), other) == has_id(v, other),
    decreases v.len(),
{
    if v.len() > 0 {
        let init = v.drop_last();
        let w = without_id(v, id);
        let rest = without_id(init, id);
        law_removed_is_gone(init, id, other);
        if v.last().id != id {
            assert(w == rest.push(v.last()));
            if has_id(w, id) {
                let i = choose|i: int| 0 <= i < w.len() && (#[trigger] w[i]).id == id;
                assert(i < rest.len() && rest[i].id == id);
            }
        }
        if other != id {
            if has_id(v, other) {
                let i = choose|i: int| 0 <= i < v.len() && (#[trigger] v[i]).id == other;
                if i < init.len() {
                    assert(init[i].id == other);
                    let k = choose|k: int| 0 <= k < rest.len() && (#[trigger] rest[k]).id == other;
                    assert(w[k].id == other);
                } else {
                    assert(w[w.len() - 1].id == other);
                }
            }
            if has_id(w, other) {
                let i = choose|i: int| 0 <= i < w.len() && (#[trigger] w[i]).id == other;
                if v.last().id == id || i < rest.len() {
                    assert(rest[i].id == other);
                    let k = choose|k: int| 0 <= k < init.len() && (#[trigger] init[k]).id == other;
                    assert(v[k].id == other);
                } else {
                    assert(v[v.len() - 1].id == other);
                }
            }
        }
    }
}

/// Removing an entry undoes adding it.
pub proof fn law_remove_undoes_add(v: Seq<EntryView>, e: EntryView)
    requires
        !has_id(v, e.id),
    ensures
        without_id(v.push(e), e.id) == v,
{
    assert(v.push(e).drop_last() =~= v);
    lemma_nothing_to_remove(v, e.id);
}

proof fn lemma_nothing_to_remove(v: Seq<EntryView>, id: Seq<char>)
    requires
        !has_id(v, id),
    ensures
        without_id(v, id) == v,
    decreases v.len(),
{
    if v.len() > 0 {
        let init = v.drop_last();
        assert(v[v.len() - 1].id != id);
        assert(!has_id(init, id)) by {
            if has_id(init, id) {
                let i = choose|i: int| 0 <= i < init.len() && (#[trigger] init[i]).id == id;
                assert(v[i].id == id);
            }
        }
        lemma_nothing_to_remove(init, id);
        assert(init.push(v.last()) =~= v);
    } else {
        assert(without_id(v, id) =~= v);
    }
}

/// Adding an entry with a new id, removing one and switching one keep the ids apart.
pub proof fn law_ids_stay_apart(v: Seq<EntryView>, e: EntryView, id: Seq<char>, enabled: bool)
    requires
        ids_differ(v),
    ensures
        !has_id(v, e.id) ==> ids_differ(v.push(e)),
        ids_differ(without_id(v, id)),
        ids_differ(with_enabled(v, id, enabled)),
{
    if !has_id(v, e.id) {
        let w = v.push(e);
        assert forall|i: int, j: int| 0 <= i < j < w.len() implies (#[trigger] w[i]).id != (
        #[trigger] w[j]).id by {
            if j == v.len() {
                assert(v[i].id != e.id);
            } else {
                assert(v[i].id != v[j].id);
            }
        }
    }
    lemma_removal_keeps_apart(v, id);
    let w = with_enabled(v, id, enabled);
    assert forall|i: int, j: int| 0 <= i < j < w.len() implies (#[trigger] w[i]).id != (
    #[trigger] w[j]).id by {
        assert(v[i].id != v[j].id);
    }
}

proof fn lemma_removal_keeps_apart(v: Seq<EntryView>, id: Seq<char>)
    requires
        ids_differ(v),
    ensures
        ids_differ(without_id(v, id)),
    decreases v.len(),
{
    if v.len() > 0 {
        let init = v.drop_last();
        let last = v.last();
        assert(ids_differ(init)) by {
            assert forall|i: int, j: int| 0 <= i < j < init.len() implies (#[trigger] init[i]).id
                != (#[trigger] init[j]).id by {
                assert(v[i].id != v[j].id);
            }
        }
        lemma_removal_keeps_apart(init, id);
        let rest = without_id(init, id);
        if last.id != id {
            law_removed_is_gone(init, id, last.id);
            assert(!has_id(init, last.id)) by {
                if has_id(init, last.id) {
                    let i = choose|i: int| 0 <= i < init.len() && (#[trigger] init[i]).id == last.id;
                    assert(v[i].id != v[v.len() - 1].id);
                }
            }
            let w = rest.push(last);
            assert forall|i: int, j: int| 0 <= i < j < w.len() implies (#[trigger] w[i]).id != (
            #[trigger] w[j]).id by {
                if j == rest.len() {
                    assert(rest[i].id != last.id);
                } else {
                    assert(rest[i].id != rest[j].id);
                }
            }
        }
    }
}

/// An entry that is switched off is not sent to the device.
pub proof fn law_disabled_is_not_sent(v: Seq<EntryView>, id: Seq<char>)
    ensures
        !has_id(enabled_only(with_enabled(v, id, false)), id),
{
    lemma_only_enabled(with_enabled(v, id, false), id);
}

proof fn lemma_only_enabled(v: Seq<EntryView>, id: Seq<char>)
    requires
        forall|i: int| 0 <= i < v.len() && (#[trigger] v[i]).id == id ==> !v[i].enabled,
    ensures
        !has_id(enabled_only(v), id),
    decreases v.len(),
{
    if v.len() > 0 {
        let init = v.drop_last();
        assert forall|i: int| 0 <= i < init.len() && (#[trigger] init[i]).id == id implies
            !init[i].enabled by {
            assert(v[i].id == id);
        }
        lemma_only_enabled(init, id);
        let rest = enabled_only(init);
        let w = enabled_only(v);
        if has_id(w, id) {
            let i = choose|i: int| 0 <= i < w.len() && (#[trigger] w[i]).id == id;
            if v.last().enabled && i == rest.len() {
                assert(v[v.len() - 1].id == id);
            } else {
                assert(rest[i].id == id);
            }
        }
    }
}

/// The entries that are enabled are those, in their order, and no others.
pub proof fn law_enabled_are_filtered(v: Seq<EntryView>)
    ensures
        enabled_only(v) == v.filter(|e: EntryView| e.enabled),
    decreases v.len(),
{
    reveal(Seq::filter);
    if v.len() > 0 {
        law_enabled_are_filtered(v.drop_last());
    }
}

proof fn lemma_entry_bytes(v: Seq<EntryView>, i: int, k: int)
    requires
        0 <= i < v.len(),
        0 <= k < 22,
    ensures
        bytes_of_entries(v).len() == 22 * v.len(),
        bytes_of_entries(v)[22 * i + k] == wire_bytes(v[i].id, v[i].amount_l, v[i].amount_r, 0)[k],
    decreases v.len(),
{
    lemma_entries_len(v);
    lemma_entries_len(v.drop_last());
    if i < v.len() - 1 {
        lemma_entry_bytes(v.drop_last(), i, k);
    }
}

proof fn lemma_entries_len(v: Seq<EntryView>)
    ensures
        bytes_of_entries(v).len() == 22 * v.len(),
    decreases v.len(),
{
    if v.len() > 0 {
        lemma_entries_len(v.drop_last());
    }
}

/// The table starts with the number of enabled entries. Entry `i` of it holds the id of the `i`th
/// enabled entry in sixteen bytes, then its portions from the left hopper, those from the right one,
/// and a time of zero.
pub proof fn law_table_holds_the_enabled(entries: Seq<EntryView>, i: int, k: int)
    requires
        enabled_only(entries).len() <= 24,
        0 <= i < enabled_only(entries).len(),
        0 <= k < 15,
    ensures
        ({
            let v = enabled_only(entries);
            let t = sent_table(entries);
            let at = 2 + 22 * i;
            let id = encode_utf8(v[i].id);
            &&& t.len() == 2 + 22 * v.len()
            &&& t[0] == v.len()
            &&& t[1] == 0
            &&& t[at + 16] == v[i].amount_l
            &&& t[at + 17] == v[i].amount_r
            &&& t[at + 18] == 0 && t[at + 19] == 0 && t[at + 20] == 0 && t[at + 21] == 0
            &&& t[at + 15] == 0
            &&& k < id.len() ==> t[at + k] == id[k]
            &&& k >= id.len() ==> t[at + k] == 0
        }),
{
    let v = enabled_only(entries);
    lemma_entries_len(v);
    lemma_entry_bytes(v, i, k);
    lemma_entry_bytes(v, i, 15);
    lemma_entry_bytes(v, i, 16);
    lemma_entry_bytes(v, i, 17);
    lemma_entry_bytes(v, i, 18);
    lemma_entry_bytes(v, i, 19);
    lemma_entry_bytes(v, i, 20);
    lemma_entry_bytes(v, i, 21);
}

/// Two tables are the same only where the same portions are asked for, entry by entry.
pub proof fn law_tables_tell_portions(a: Seq<EntryView>, b: Seq<EntryView>, i: int)
    requires
        enabled_only(a).len() <= 24,
        enabled_only(b).len() <= 24,
        sent_table(a) == sent_table(b),
        0 <= i < enabled_only(a).len(),
    ensures
        enabled_only(a).len() == enabled_only(b).len(),
        enabled_only(a)[i].amount_l == enabled_only(b)[i].amount_l,
        enabled_only(a)[i].amount_r == enabled_only(b)[i].amount_r,
{
    lemma_entries_len(enabled_only(a));
    lemma_entries_len(enabled_only(b));
    law_table_holds_the_enabled(a, i, 0);
    law_table_holds_the_enabled(b, i, 0);
}

/// The clock payload is the time in seconds, the least significant byte first.
pub proof fn law_clock_payload(now: u64)
    requires
        now < 0x1_0000_0000,
    ensures
        ({
            let b = le32(now as nat % 0x1_0000_0000);
            b.len() == 4 && b[0] + 256 * b[1] + 65536 * b[2] + 16777216 * b[3] == now
        }),
{
    lemma_le32(now as nat);
}

/// The portions of an entry are the number under the key of their hopper, from none to fifty; any other
/// is refused.
pub proof fn law_entry_amounts(obj: Seq<char>, key: Seq<char>, n: nat)
    requires
        field_of(obj, key) == Some(dec(n)),
        n <= i64::MAX,
    ensures
        n <= 50 ==> amount_of(obj, key) == Ok::<u8, Seq<char>>(n as u8) && amount_of(obj, key)->Ok_0 == n,
        n > 50 ==> amount_of(obj, key) is Err,
{
    lemma_int_of_dec_int(n as int, i64::MIN as int, i64::MAX as int);
}

/// An entry has what its object gives under each name; it is enabled unless that says otherwise, and
/// has an id of its own where it gives none.
pub proof fn law_entry_is_what_is_given(
    obj: Seq<char>,
    now: u64,
    minute: u16,
    l: u8,
    r: u8,
    id: Seq<char>,
    on: bool,
)
    requires
        minute < 1440,
        l <= 50,
        r <= 50,
        id.len() > 0,
        field_of(obj, "time"@) == Some(time_text(minute as nat)),
        field_of(obj, "amount_l"@) == Some(dec(l as nat)),
        field_of(obj, "amount_r"@) == Some(dec(r as nat)),
    ensures
        entry_of(obj, now) matches Ok(e) && e.minute_of_day == minute && e.amount_l == l && e.amount_r
            == r && (field_of(obj, "id"@) == Some(id) ==> e.id == id) && (field_of(obj, "id"@) is None
            ==> e.id == "sched-"@ + dec(now as nat)) && (field_of(obj, "enabled"@) == Some(
            bool_text(on),
        ) ==> e.enabled == on) && (field_of(obj, "enabled"@) is None ==> e.enabled),
{
    law_time_reads_back(minute);
    law_entry_amounts(obj, "amount_l"@, l as nat);
    law_entry_amounts(obj, "amount_r"@, r as nat);
    reveal_strlit("true");
    reveal_strlit("false");
    assert("true"@.len() == 4);
    assert("false"@.len() == 5);
}

/// What is not a time of day in the form of two digits, a colon and two digits is refused.
pub proof fn law_other_times_are_refused(s: Seq<char>)
    ensures
        s.len() != 5 ==> time_of(s) is None,
        s.len() == 5 && s[2] != ':' ==> time_of(s) is None,
        time_of(s) matches Some(m) ==> m < 1440 && m / 60 == 10 * (s[0] as u32 - 48) + (s[1] as u32 - 48)
            && m % 60 == 10 * (s[3] as u32 - 48) + (s[4] as u32 - 48),
{
}

} // verus!
