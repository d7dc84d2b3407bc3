//! What holds of captured feeds: records are read back, names stay in their directory.

use vstd::prelude::*;
use vstd::string::*;

use crate::feed_capture::{
    amount_text, files_upto, fresh, meta_text, noted_amounts, picture, record_of, sanitized, stem, watched,
    CycleAction, FeedRecordView, ManualNote, ScheduledNote, Watch,
};
use crate::json::lemmas::{
    clear_of, in_quotes, is_key, lacks, lemma_clear_quoted, lemma_clear_unquoted,
    lemma_member_clear, lemma_next_member, lemma_object_bare, lemma_object_quoted, member, members,
    object,
};
use crate::json::{bool_text, joined};
use crate::number::{dec, digits_of, digit_worth, lemma_uint_of_dec, uint_of};
use crate::schedule::laws::{lemma_bool_bare, lemma_dec_bare};
use crate::text::{cut, escaped, is_space, Pat};

verus! {

/// An id that is read as it is written, and cannot be taken for a key.
pub open spec fn plain_id(id: Seq<char>) -> bool {
    lacks(id, '"') && lacks(id, ',') && lacks(id, '}') && id != "amount1"@ && id != "amount2"@
        && id != "manual"@
}

proof fn lemma_feed_keys()
    ensures
        is_key("ts"@),
        is_key("id"@),
        is_key("amount1"@),
        is_key("amount2"@),
        is_key("manual"@),
        "ts"@.len() == 2,
        "id"@.len() == 2,
        "ts"@[0] == 't',
        "id"@[0] == 'i',
        "amount1"@.len() == 7,
        "amount2"@.len() == 7,
        "amount1"@[6] == '1',
        "amount2"@[6] == '2',
        "manual"@.len() == 6,
{
    reveal_strlit("ts");
    reveal_strlit("id");
    reveal_strlit("amount1");
    reveal_strlit("amount2");
    reveal_strlit("manual");
}

pub open spec fn feed_members(ts: u64, id: Seq<char>, a1: Option<u8>, a2: Option<u8>, manual: bool) -> Seq<
    (Seq<char>, Seq<char>),
> {
    seq![
        ("ts"@, dec(ts as nat)),
        ("id"@, in_quotes(id)),
        ("amount1"@, amount_text(a1)),
        ("amount2"@, amount_text(a2)),
        ("manual"@, bool_text(manual)),
    ]
}

proof fn lemma_ts_part(x: Seq<char>)
    ensures
        "{\"ts\":"@ + x == "{"@ + member("ts"@, x),
{
    reveal_strlit("{\"ts\":");
    reveal_strlit("ts");
    reveal_strlit("{");
    reveal_strlit(":");
    reveal_strlit("\"");
    assert("{\"ts\":"@ + x =~= "{"@ + member("ts"@, x));
}

proof fn lemma_id_part(s: Seq<char>, x: Seq<char>)
    ensures
        s + ",\"id\":\""@ + x + "\""@ == s + ","@ + member("id"@, in_quotes(x)),
{
    reveal_strlit(",\"id\":\"");
    reveal_strlit("id");
    reveal_strlit(",");
    reveal_strlit(":");
    reveal_strlit("\"");
    assert(s + ",\"id\":\""@ + x + "\""@ =~= s + ","@ + member("id"@, in_quotes(x)));
}

proof fn lemma_amount1_part(s: Seq<char>, x: Seq<char>)
    ensures
        s + "\",\"amount1\":"@ + x == s + "\""@ + ","@ + member("amount1"@, x),
{
    reveal_strlit("\",\"amount1\":");
    reveal_strlit("amount1");
    reveal_strlit(",");
    reveal_strlit(":");
    reveal_strlit("\"");
    assert(s + "\",\"amount1\":"@ + x =~= s + "\""@ + ","@ + member("amount1"@, x));
}

proof fn lemma_amount2_part(s: Seq<char>, x: Seq<char>)
    ensures
        s + ",\"amount2\":"@ + x == s + ","@ + member("amount2"@, x),
{
    reveal_strlit(",\"amount2\":");
    reveal_strlit("amount2");
    reveal_strlit(",");
    reveal_strlit(":");
    reveal_strlit("\"");
    assert(s + ",\"amount2\":"@ + x =~= s + ","@ + member("amount2"@, x));
}

proof fn lemma_manual_part(s: Seq<char>, x: Seq<char>)
    ensures
        s + ",\"manual\":"@ + x == s + ","@ + member("manual"@, x),
{
    reveal_strlit(",\"manual\":");
    reveal_strlit("manual");
    reveal_strlit(",");
    reveal_strlit(":");
    reveal_strlit("\"");
    assert(s + ",\"manual\":"@ + x =~= s + ","@ + member("manual"@, x));
}

/// What is on record is an object.
#[verifier::rlimit(40)]
proof fn lemma_meta_object(ts: u64, id: Seq<char>, a1: Option<u8>, a2: Option<u8>, manual: bool)
    requires
        escaped(id) == id,
    ensures
        meta_text(ts, id, a1, a2, manual) == object(feed_members(ts, id, a1, a2, manual)),
{
    let t = dec(ts as nat);
    let x = amount_text(a1);
    let y = amount_text(a2);
    let b = bool_text(manual);
    let m0 = member("ts"@, t);
    let m1 = member("id"@, in_quotes(id));
    let m2 = member("amount1"@, x);
    let m3 = member("amount2"@, y);
    let m4 = member("manual"@, b);
    assert(members(feed_members(ts, id, a1, a2, manual)) =~= seq![m0, m1, m2, m3, m4]);
    let s0 = "{\"ts\":"@ + t;
    let s1 = s0 + ",\"id\":\""@ + id;
    let s2 = s1 + "\",\"amount1\":"@ + x;
    let s3 = s2 + ",\"amount2\":"@ + y;
    lemma_ts_part(t);
    lemma_id_part(s0, id);
    lemma_amount1_part(s1, x);
    lemma_amount2_part(s2, y);
    lemma_manual_part(s3, b);
    assert(joined(seq![m0], ","@) == m0);
    lemma_next_member("{"@, seq![m0], m1);
    lemma_next_member("{"@, seq![m0, m1], m2);
    lemma_next_member("{"@, seq![m0, m1, m2], m3);
    lemma_next_member("{"@, seq![m0, m1, m2, m3], m4);
    assert(seq![m0].push(m1) =~= seq![m0, m1]);
    assert(seq![m0, m1].push(m2) =~= seq![m0, m1, m2]);
    assert(seq![m0, m1, m2].push(m3) =~= seq![m0, m1, m2, m3]);
    assert(seq![m0, m1, m2, m3].push(m4) =~= seq![m0, m1, m2, m3, m4]);
}

proof fn lemma_amount_bare(o: Option<u8>)
    ensures
        amount_text(o).len() > 0,
        lacks(amount_text(o), ','),
        lacks(amount_text(o), '}'),
        lacks(amount_text(o), '"'),
        !is_space(amount_text(o)[0]),
        !is_space(amount_text(o).last()),
        match o {
            Some(n) => uint_of(amount_text(o), 10, u8::MAX as nat) == Some(n as nat),
            None => uint_of(amount_text(o), 10, u8::MAX as nat) is None,
        },
{
    reveal_strlit("null");
    match o {
        Some(n) => {
            lemma_dec_bare(n as nat);
            lemma_uint_of_dec(n as nat, u8::MAX as nat);
        },
        None => {
            assert(digit_worth("null"@[0]) == 99);
            assert(digits_of("null"@, 10, u8::MAX as nat) is None);
        },
    }
}

/// A record is read back from the file that was written for it, with the pictures that are there,
/// where its id is plain.
#[verifier::rlimit(40)]
pub proof fn law_record_reads_back(
    ts: u64,
    id: Seq<char>,
    a1: Option<u8>,
    a2: Option<u8>,
    manual: bool,
    before: bool,
    after: bool,
)
    requires
        plain_id(id),
    ensures
        escaped(id) == id ==> record_of(
            meta_text(ts, id, a1, a2, manual),
            stem(ts, id),
            before,
            after,
        ) == Some(
            FeedRecordView {
                stem: stem(ts, id),
                ts,
                id,
                amount1: a1,
                amount2: a2,
                manual,
                before: picture(stem(ts, id), "-before.h264"@, before),
                after: picture(stem(ts, id), "-after.h264"@, after),
            },
        ),
{
    if escaped(id) == id {
        let ms = feed_members(ts, id, a1, a2, manual);
        lemma_meta_object(ts, id, a1, a2, manual);
        lemma_feed_keys();
        lemma_dec_bare(ts as nat);
        lemma_uint_of_dec(ts as nat, u64::MAX as nat);
        lemma_amount_bare(a1);
        lemma_amount_bare(a2);
        lemma_bool_bare(manual);
        lemma_first_members(ts, id, a1, a2, manual, "id"@);
        lemma_first_members(ts, id, a1, a2, manual, "amount1"@);
        lemma_first_members(ts, id, a1, a2, manual, "amount2"@);
        lemma_first_members(ts, id, a1, a2, manual, "manual"@);
        lemma_object_bare(ms, 0);
        lemma_object_quoted(ms, 1, id);
        lemma_object_bare(ms, 2);
        lemma_object_bare(ms, 3);
        lemma_object_bare(ms, 4);
    }
}

/// The members before another hold no key of that one.
proof fn lemma_first_members(
    ts: u64,
    id: Seq<char>,
    a1: Option<u8>,
    a2: Option<u8>,
    manual: bool,
    key: Seq<char>,
)
    requires
        plain_id(id),
        key == "id"@ || key == "amount1"@ || key == "amount2"@ || key == "manual"@,
    ensures
        clear_of(members(feed_members(ts, id, a1, a2, manual))[0], key),
        key != "id"@ ==> clear_of(members(feed_members(ts, id, a1, a2, manual))[1], key),
        key != "id"@ && key != "amount1"@ ==> clear_of(
            members(feed_members(ts, id, a1, a2, manual))[2],
            key,
        ),
        key == "manual"@ ==> clear_of(members(feed_members(ts, id, a1, a2, manual))[3], key),
{
    lemma_feed_keys();
    lemma_dec_bare(ts as nat);
    lemma_amount_bare(a1);
    lemma_amount_bare(a2);
    lemma_clear_unquoted(dec(ts as nat), key);
    lemma_member_clear("ts"@, dec(ts as nat), key);
    if key != "id"@ {
        lemma_clear_quoted(id, key);
        lemma_member_clear("id"@, in_quotes(id), key);
    }
    lemma_clear_unquoted(amount_text(a1), key);
    lemma_clear_unquoted(amount_text(a2), key);
    if key != "id"@ && key != "amount1"@ {
        lemma_member_clear("amount1"@, amount_text(a1), key);
    }
    if key == "manual"@ {
        lemma_member_clear("amount2"@, amount_text(a2), key);
    }
}

/// Whatever the id, the names made from it hold no path separator.
pub proof fn law_names_stay_in_their_directory(ts: u64, id: Seq<char>)
    ensures
        lacks(stem(ts, id), '/'),
        lacks(stem(ts, id), '\\'),
        sanitized(id).len() > 0,
{
    reveal_strlit("-");
    reveal_strlit("feed");
    let n = dec(ts as nat);
    crate::number::lemma_dec_worth(ts as nat);
    let s = stem(ts, id);
    assert forall|i: int| 0 <= i < s.len() implies #[trigger] s[i] != '/' && s[i] != '\\' by {
        if i < n.len() {
            assert(s[i] == n[i]);
            assert(crate::text::is_digit(n[i]));
        } else if i > n.len() {
            assert(s[i] == sanitized(id)[i - n.len() - 1]);
        }
    }
}

/// A cycle of captures starts when the feed starts and at no other time, ends in a second picture at
/// least three seconds after the feed is over, and is given up only where the feed has been running
/// for half a minute.
pub proof fn law_capture_cycle(w: Watch, flag: bool, now: u64)
    ensures
        watched(w, flag, now).1 == CycleAction::Start <==> w == Watch::Idle && flag,
        watched(w, flag, now).1 == CycleAction::Start ==> watched(w, flag, now).0 == Watch::Feeding(now),
        watched(w, flag, now).1 == CycleAction::Cleared <==> w is Feeding && !flag,
        watched(w, flag, now).1 == CycleAction::Cleared ==> watched(w, flag, now).0
            == Watch::Settling(now),
        watched(w, flag, now).1 == CycleAction::Finish <==> (w matches Watch::Settling(t) && now - t
            >= 3_000),
        watched(w, flag, now).1 == CycleAction::Drop <==> (w matches Watch::Feeding(t) && flag && now - t
            >= 30_000),
        watched(w, flag, now).1 == CycleAction::Finish || watched(w, flag, now).1 == CycleAction::Drop
            ==> watched(w, flag, now).0 == Watch::Idle,
        watched(w, flag, now).1 == CycleAction::Wait ==> watched(w, flag, now).0 == w,
{
}

/// A note of a feed counts for a quarter of a minute.
pub proof fn law_notes_go_stale(noted_at: u64, now: u64)
    ensures
        fresh(noted_at, now) <==> now <= noted_at + 15_000,
{
}

/// Eviction removes three files for each feed: both pictures, under the names that its record gives
/// them, and the record.
pub proof fn law_eviction_removes_all_files(v: Seq<FeedRecordView>, n: int, i: int)
    requires
        0 <= i < n <= v.len(),
    ensures
        files_upto(v, n).len() == 3 * n,
        files_upto(v, n)[3 * i] == v[i].stem + "-before.h264"@,
        files_upto(v, n)[3 * i + 1] == v[i].stem + "-after.h264"@,
        files_upto(v, n)[3 * i + 2] == v[i].stem + ".json"@,
        v[i].before == picture(v[i].stem, "-before.h264"@, true) ==> v[i].before == Some(
            files_upto(v, n)[3 * i],
        ),
        v[i].after == picture(v[i].stem, "-after.h264"@, true) ==> v[i].after == Some(
            files_upto(v, n)[3 * i + 1],
        ),
    decreases n,
{
    lemma_files_len(v, n - 1);
    if i < n - 1 {
        law_eviction_removes_all_files(v, n - 1, i);
    }
}

proof fn lemma_files_len(v: Seq<FeedRecordView>, n: int)
    requires
        0 <= n <= v.len(),
    ensures
        files_upto(v, n).len() == 3 * n,
    decreases n,
{
    if n > 0 {
        lemma_files_len(v, n - 1);
    }
}

/// The names of two feeds differ where their times do, and the name starts with the time.
pub proof fn law_stems_start_with_the_time(ts: u64, id: Seq<char>)
    ensures
        cut(stem(ts, id), Pat::Is('-')) == Some((dec(ts as nat), sanitized(id))),
        sanitized(id).len() == id.len() || id.len() == 0,
        forall|i: int|
            0 <= i < id.len() && id[i] != '/' && id[i] != '\\' ==> #[trigger] sanitized(id)[i]
                == id[i],
{
    reveal_strlit("-");
    crate::number::lemma_dec_worth(ts as nat);
    let n = dec(ts as nat);
    assert forall|i: int| 0 <= i < n.len() implies !Pat::Is('-').has(#[trigger] n[i]) by {
        assert(crate::text::is_digit(n[i]));
    }
    crate::text::law_cut(n, '-', sanitized(id), Pat::Is('-'));
    assert(stem(ts, id) =~= n + seq!['-'] + sanitized(id));
}

/// A feed has the portions of each hopper that were noted for it at most a quarter of a minute ago; a
/// feed by hand goes before one of the schedule, and a stale note does not count.
pub proof fn law_noted_portions(m: ManualNote, s: ScheduledNote, now: u64)
    ensures
        now <= m.noted_at + 15_000 ==> noted_amounts(Some(m), Some(s), now) == (
            Some(m.amount1),
            Some(m.amount2),
        ),
        now <= m.noted_at + 15_000 ==> noted_amounts(Some(m), None, now) == (
            Some(m.amount1),
            Some(m.amount2),
        ),
        now <= s.noted_at + 15_000 ==> noted_amounts(None, Some(s), now) == (
            Some(s.amount1),
            Some(s.amount2),
        ),
        now > m.noted_at + 15_000 ==> noted_amounts(Some(m), Some(s), now) == noted_amounts(
            None,
            Some(s),
            now,
        ),
        now > s.noted_at + 15_000 ==> noted_amounts(None, Some(s), now) == (None::<u8>, None::<u8>),
        noted_amounts(None, None, now) == (None::<u8>, None::<u8>),
{
}

} // verus!
