//! What is found in the reports: each of their fields stands under its own name.

use vstd::prelude::*;
use vstd::string::*;

use crate::advertise;
use crate::ai::{detection_text, events_text, number_or_null, raw_or_null, DetectionView};
use crate::clips::{clip_text, clips_text};
use crate::faces::{cat_text, seen_text, seen_upto, CatSummary, LabelledView, PendingCropView};
use crate::feed_capture::{amount_text, feed_text, feeds_text, FeedRecordView};
use crate::health::{health_text, Health};
use crate::http::{error_body, field_of};
use crate::json::fields::{
    apart, bare_or_null, is_bare, is_quotable, lemma_field, lemma_first, lemma_more,
    lemma_null_bare, lemma_numeral_bare, lemma_quoted_between, lemma_quoted_first, lemma_truth_bare,
    lemma_whole, so_far, tellable, text_or_null, written, Value,
};
use crate::json::lemmas::{in_quotes, is_item, is_key, law_array_reads_back, object};
use crate::json::{bool_text, escaped_or_null, items, joined, opt_text, string_texts};
use crate::localtime::{next_reading, Tz};
use crate::number::{dec, dec_int};
use crate::push::{fields_text, frame_text, Field};
use crate::routes::bodies::{pending_text, pendings_text, sample_text, samples_text};
use crate::rtsp::{mount_text, quoted_upto, MountInfo};
use crate::schedule::{entry_status_text, time_text, EntryView, FiredView};
use crate::text::{escaped, is_digit};

verus! {

/// What stands for a text in a report: its escaped form, or `null`.
pub open spec fn reported(o: Option<Seq<char>>) -> Seq<char> {
    match o {
        Some(s) => escaped(s),
        None => "null"@,
    }
}

spec fn escaped_opt(o: Option<Seq<char>>) -> Option<Seq<char>> {
    match o {
        Some(s) => Some(escaped(s)),
        None => None,
    }
}

/// A whole number is read as it stands.
pub proof fn lemma_integer_bare(n: int)
    ensures
        is_bare(dec_int(n)),
{
    if n >= 0 {
        lemma_numeral_bare(n as nat);
    } else {
        let d = dec((-n) as nat);
        lemma_numeral_bare((-n) as nat);
        assert forall|i: int| 0 <= i < dec_int(n).len() implies #[trigger] dec_int(n)[i] != ','
            && dec_int(n)[i] != '}' && dec_int(n)[i] != '"' by {
            if i > 0 {
                assert(dec_int(n)[i] == d[i - 1]);
            }
        }
        assert(dec_int(n).last() == d.last());
    }
}

spec fn detection_fields(d: DetectionView) -> Seq<(Seq<char>, Value)> {
    seq![
        ("seq"@, Value::Bare(dec(d.seq as nat))),
        ("ts"@, Value::Bare(dec(d.ts as nat))),
        ("class"@, Value::Text(d.class)),
        ("score"@, bare_or_null(d.score)),
        ("box"@, bare_or_null(d.b0x)),
        ("pet_id"@, Value::Bare(number_or_null(d.pet_id))),
        ("image"@, text_or_null(escaped_opt(d.image))),
        ("cat"@, text_or_null(escaped_opt(d.cat))),
        ("total_score"@, bare_or_null(d.total_score)),
    ]
}

proof fn lemma_detection_keys()
    ensures
        is_key("seq"@),
        is_key("ts"@),
        is_key("class"@),
        is_key("score"@),
        is_key("box"@),
        is_key("pet_id"@),
        is_key("image"@),
        is_key("cat"@),
        is_key("total_score"@),
        "seq"@ != "ts"@ && "seq"@ != "class"@ && "seq"@ != "score"@ && "seq"@ != "box"@ && "seq"@ != "pet_id"@ && "seq"@ != "image"@ && "seq"@ != "cat"@ && "seq"@ != "total_score"@,
        "ts"@ != "class"@ && "ts"@ != "score"@ && "ts"@ != "box"@ && "ts"@ != "pet_id"@ && "ts"@ != "image"@ && "ts"@ != "cat"@ && "ts"@ != "total_score"@,
        "class"@ != "score"@ && "class"@ != "box"@ && "class"@ != "pet_id"@ && "class"@ != "image"@ && "class"@ != "cat"@ && "class"@ != "total_score"@,
        "score"@ != "box"@ && "score"@ != "pet_id"@ && "score"@ != "image"@ && "score"@ != "cat"@ && "score"@ != "total_score"@,
        "box"@ != "pet_id"@ && "box"@ != "image"@ && "box"@ != "cat"@ && "box"@ != "total_score"@,
        "pet_id"@ != "image"@ && "pet_id"@ != "cat"@ && "pet_id"@ != "total_score"@,
        "image"@ != "cat"@ && "image"@ != "total_score"@,
        "cat"@ != "total_score"@,
{
    reveal_strlit("seq");
    reveal_strlit("ts");
    reveal_strlit("class");
    reveal_strlit("score");
    reveal_strlit("box");
    reveal_strlit("pet_id");
    reveal_strlit("image");
    reveal_strlit("cat");
    reveal_strlit("total_score");
    assert("seq"@.len() == 3);
    assert("ts"@.len() == 2);
    assert("class"@.len() == 5);
    assert("score"@.len() == 5);
    assert("box"@.len() == 3);
    assert("pet_id"@.len() == 6);
    assert("image"@.len() == 5);
    assert("cat"@.len() == 3);
    assert("total_score"@.len() == 11);
    assert("seq"@[0] == 's');
    assert("box"@[0] == 'b');
    assert("cat"@[0] == 'c');
    assert("class"@[0] == 'c');
    assert("score"@[0] == 's');
    assert("image"@[0] == 'i');
}

proof fn lemma_detection_literals()
    ensures
        "{\"seq\":"@ == ("{"@ + in_quotes("seq"@) + ":"@),
        ",\"ts\":"@ == (","@ + in_quotes("ts"@) + ":"@),
        ",\"class\":\""@ == (","@ + in_quotes("class"@) + ":"@) + "\""@,
        "\",\"score\":"@ == "\""@ + ((","@ + in_quotes("score"@) + ":"@)),
        ",\"box\":"@ == (","@ + in_quotes("box"@) + ":"@),
        ",\"pet_id\":"@ == (","@ + in_quotes("pet_id"@) + ":"@),
        ",\"image\":"@ == (","@ + in_quotes("image"@) + ":"@),
        ",\"cat\":"@ == (","@ + in_quotes("cat"@) + ":"@),
        ",\"total_score\":"@ == (","@ + in_quotes("total_score"@) + ":"@),
{
    assert("{\"seq\":"@ =~= ("{"@ + in_quotes("seq"@) + ":"@)) by {
        reveal_strlit("{\"seq\":");
        reveal_strlit("{");
        reveal_strlit("seq");
        reveal_strlit(":");
        reveal_strlit("\"");
    }
    assert(",\"ts\":"@ =~= (","@ + in_quotes("ts"@) + ":"@)) by {
        reveal_strlit(",\"ts\":");
        reveal_strlit(",");
        reveal_strlit("ts");
        reveal_strlit(":");
        reveal_strlit("\"");
    }
    assert(",\"class\":\""@ =~= (","@ + in_quotes("class"@) + ":"@) + "\""@) by {
        reveal_strlit(",\"class\":\"");
        reveal_strlit(",");
        reveal_strlit("class");
        reveal_strlit(":");
        reveal_strlit("\"");
    }
    assert("\",\"score\":"@ =~= "\""@ + ((","@ + in_quotes("score"@) + ":"@))) by {
        reveal_strlit("\",\"score\":");
        reveal_strlit(",");
        reveal_strlit("score");
        reveal_strlit(":");
        reveal_strlit("\"");
    }
    assert(",\"box\":"@ =~= (","@ + in_quotes("box"@) + ":"@)) by {
        reveal_strlit(",\"box\":");
        reveal_strlit(",");
        reveal_strlit("box");
        reveal_strlit(":");
        reveal_strlit("\"");
    }
    assert(",\"pet_id\":"@ =~= (","@ + in_quotes("pet_id"@) + ":"@)) by {
        reveal_strlit(",\"pet_id\":");
        reveal_strlit(",");
        reveal_strlit("pet_id");
        reveal_strlit(":");
        reveal_strlit("\"");
    }
    assert(",\"image\":"@ =~= (","@ + in_quotes("image"@) + ":"@)) by {
        reveal_strlit(",\"image\":");
        reveal_strlit(",");
        reveal_strlit("image");
        reveal_strlit(":");
        reveal_strlit("\"");
    }
    assert(",\"cat\":"@ =~= (","@ + in_quotes("cat"@) + ":"@)) by {
        reveal_strlit(",\"cat\":");
        reveal_strlit(",");
        reveal_strlit("cat");
        reveal_strlit(":");
        reveal_strlit("\"");
    }
    assert(",\"total_score\":"@ =~= (","@ + in_quotes("total_score"@) + ":"@)) by {
        reveal_strlit(",\"total_score\":");
        reveal_strlit(",");
        reveal_strlit("total_score");
        reveal_strlit(":");
        reveal_strlit("\"");
    }
}

#[verifier::rlimit(40)]
proof fn lemma_detection_text(d: DetectionView)
    ensures
        detection_text(d) == object(written(detection_fields(d))),
{
    let fs = detection_fields(d);
    lemma_detection_literals();
    assert(fs[0] == ("seq"@, Value::Bare(dec(d.seq as nat))));
    let b0 = "{"@ + in_quotes("seq"@) + ":"@;
    assert(fs[1] == ("ts"@, Value::Bare(dec(d.ts as nat))));
    let b1 = ","@ + in_quotes("ts"@) + ":"@;
    assert(fs[2] == ("class"@, Value::Text(d.class)));
    let b2 = ","@ + in_quotes("class"@) + ":"@;
    assert(fs[3] == ("score"@, bare_or_null(d.score)));
    let b3 = ","@ + in_quotes("score"@) + ":"@;
    assert(fs[4] == ("box"@, bare_or_null(d.b0x)));
    let b4 = ","@ + in_quotes("box"@) + ":"@;
    assert(fs[5] == ("pet_id"@, Value::Bare(number_or_null(d.pet_id))));
    let b5 = ","@ + in_quotes("pet_id"@) + ":"@;
    assert(fs[6] == ("image"@, text_or_null(escaped_opt(d.image))));
    let b6 = ","@ + in_quotes("image"@) + ":"@;
    assert(fs[7] == ("cat"@, text_or_null(escaped_opt(d.cat))));
    let b7 = ","@ + in_quotes("cat"@) + ":"@;
    assert(fs[8] == ("total_score"@, bare_or_null(d.total_score)));
    let b8 = ","@ + in_quotes("total_score"@) + ":"@;
    let q0 = "{\"seq\":"@;
    lemma_first(fs, b0);
    let q1 = q0 + dec(d.seq as nat) + ",\"ts\":"@;
    assert(q1 == so_far(fs, 1) + ((","@ + in_quotes("ts"@) + ":"@)));
    lemma_more(fs, 1, b1);
    let q2 = q1 + dec(d.ts as nat) + ",\"class\":\""@;
    assert(q2 == so_far(fs, 2) + ((","@ + in_quotes("class"@) + ":"@) + "\""@));
    lemma_more(fs, 2, b2);
    let q3 = q2 + d.class + "\",\"score\":"@;
    lemma_quoted_between(so_far(fs, 2), b2 + "\""@, b2, d.class, "\",\"score\":"@, (","@ + in_quotes("score"@) + ":"@));
    assert(q3 == so_far(fs, 3) + ((","@ + in_quotes("score"@) + ":"@)));
    lemma_more(fs, 3, b3);
    let q4 = q3 + raw_or_null(d.score) + ",\"box\":"@;
    assert(q4 == so_far(fs, 4) + ((","@ + in_quotes("box"@) + ":"@)));
    lemma_more(fs, 4, b4);
    let q5 = q4 + raw_or_null(d.b0x) + ",\"pet_id\":"@;
    assert(q5 == so_far(fs, 5) + ((","@ + in_quotes("pet_id"@) + ":"@)));
    lemma_more(fs, 5, b5);
    let q6 = q5 + number_or_null(d.pet_id) + ",\"image\":"@;
    assert(q6 == so_far(fs, 6) + ((","@ + in_quotes("image"@) + ":"@)));
    lemma_more(fs, 6, b6);
    let q7 = q6 + escaped_or_null(d.image) + ",\"cat\":"@;
    assert(q7 == so_far(fs, 7) + ((","@ + in_quotes("cat"@) + ":"@)));
    lemma_more(fs, 7, b7);
    let q8 = q7 + escaped_or_null(d.cat) + ",\"total_score\":"@;
    assert(q8 == so_far(fs, 8) + ((","@ + in_quotes("total_score"@) + ":"@)));
    lemma_more(fs, 8, b8);
    let q9 = q8 + raw_or_null(d.total_score) + "}"@;
    assert(q9 == so_far(fs, 9) + ("}"@));
    lemma_whole(fs);
    assert(q9 =~= detection_text(d));
}

#[verifier::rlimit(40)]
proof fn lemma_detection_tellable(d: DetectionView)
    requires
        is_quotable(d.class) && d.class != "score"@ && d.class != "box"@ && d.class != "pet_id"@ && d.class != "image"@ && d.class != "cat"@ && d.class != "total_score"@,
        d.score matches Some(v) ==> is_bare(v),
        d.b0x matches Some(v) ==> is_bare(v),
        d.total_score matches Some(v) ==> is_bare(v),
        d.image matches Some(s) ==> is_quotable(escaped(s)) && escaped(s) != "cat"@ && escaped(s) != "total_score"@,
        d.cat matches Some(s) ==> is_quotable(escaped(s)) && escaped(s) != "total_score"@,
    ensures
        tellable(detection_fields(d), 9),
        detection_fields(d)[0].1.is_read_back(),
        detection_fields(d)[1].1.is_read_back(),
        detection_fields(d)[2].1.is_read_back(),
        detection_fields(d)[3].1.is_read_back(),
        detection_fields(d)[4].1.is_read_back(),
        detection_fields(d)[5].1.is_read_back(),
        detection_fields(d)[6].1.is_read_back(),
        detection_fields(d)[7].1.is_read_back(),
        detection_fields(d)[8].1.is_read_back(),
{
    let fs = detection_fields(d);
    lemma_detection_keys();
    lemma_null_bare();
    lemma_numeral_bare(d.seq as nat);
    lemma_numeral_bare(d.ts as nat);
    if let Some(n) = d.pet_id {
        lemma_numeral_bare(n as nat);
    }
    assert(fs[0] == ("seq"@, Value::Bare(dec(d.seq as nat))));
    assert(fs[1] == ("ts"@, Value::Bare(dec(d.ts as nat))));
    assert(fs[2] == ("class"@, Value::Text(d.class)));
    assert(fs[3] == ("score"@, bare_or_null(d.score)));
    assert(fs[4] == ("box"@, bare_or_null(d.b0x)));
    assert(fs[5] == ("pet_id"@, Value::Bare(number_or_null(d.pet_id))));
    assert(fs[6] == ("image"@, text_or_null(escaped_opt(d.image))));
    assert(fs[7] == ("cat"@, text_or_null(escaped_opt(d.cat))));
    assert(fs[8] == ("total_score"@, bare_or_null(d.total_score)));
    assert(apart(fs, "seq"@, 0)) by {
        reveal_with_fuel(apart, 1);
    }
    assert(apart(fs, "ts"@, 1)) by {
        reveal_with_fuel(apart, 2);
    }
    assert(apart(fs, "class"@, 2)) by {
        reveal_with_fuel(apart, 3);
    }
    assert(apart(fs, "score"@, 3)) by {
        reveal_with_fuel(apart, 4);
    }
    assert(apart(fs, "box"@, 4)) by {
        reveal_with_fuel(apart, 5);
    }
    assert(apart(fs, "pet_id"@, 5)) by {
        reveal_with_fuel(apart, 6);
    }
    assert(apart(fs, "image"@, 6)) by {
        reveal_with_fuel(apart, 7);
    }
    assert(apart(fs, "cat"@, 7)) by {
        reveal_with_fuel(apart, 8);
    }
    assert(apart(fs, "total_score"@, 8)) by {
        reveal_with_fuel(apart, 9);
    }
    reveal_with_fuel(tellable, 10);
}

/// Each field of a detection is found in the report of it under its own name: the number, the time,
/// the class, the scores, the pet, the picture and the cat, or `null` for what it has not.
pub proof fn law_detection_reads_back(d: DetectionView)
    requires
        is_quotable(d.class) && d.class != "score"@ && d.class != "box"@ && d.class != "pet_id"@ && d.class != "image"@ && d.class != "cat"@ && d.class != "total_score"@,
        d.score matches Some(v) ==> is_bare(v),
        d.b0x matches Some(v) ==> is_bare(v),
        d.total_score matches Some(v) ==> is_bare(v),
        d.image matches Some(s) ==> is_quotable(escaped(s)) && escaped(s) != "cat"@ && escaped(s) != "total_score"@,
        d.cat matches Some(s) ==> is_quotable(escaped(s)) && escaped(s) != "total_score"@,
    ensures
        field_of(detection_text(d), "seq"@) == Some(dec(d.seq as nat)),
        field_of(detection_text(d), "ts"@) == Some(dec(d.ts as nat)),
        field_of(detection_text(d), "class"@) == Some(d.class),
        field_of(detection_text(d), "score"@) == Some(match d.score {
            Some(v) => v,
            None => "null"@,
        }),
        field_of(detection_text(d), "box"@) == Some(match d.b0x {
            Some(v) => v,
            None => "null"@,
        }),
        field_of(detection_text(d), "pet_id"@) == Some(match d.pet_id {
            Some(v) => dec(v as nat),
            None => "null"@,
        }),
        field_of(detection_text(d), "image"@) == Some(reported(d.image)),
        field_of(detection_text(d), "cat"@) == Some(reported(d.cat)),
        field_of(detection_text(d), "total_score"@) == Some(match d.total_score {
            Some(v) => v,
            None => "null"@,
        }),
{
    let fs = detection_fields(d);
    lemma_detection_text(d);
    lemma_detection_tellable(d);
    lemma_field(fs, 0);
    lemma_field(fs, 1);
    lemma_field(fs, 2);
    lemma_field(fs, 3);
    lemma_field(fs, 4);
    lemma_field(fs, 5);
    lemma_field(fs, 6);
    lemma_field(fs, 7);
    lemma_field(fs, 8);
}

spec fn feed_fields(r: FeedRecordView) -> Seq<(Seq<char>, Value)> {
    seq![
        ("ts"@, Value::Bare(dec(r.ts as nat))),
        ("id"@, Value::Text(escaped(r.id))),
        ("amount1"@, Value::Bare(amount_text(r.amount1))),
        ("amount2"@, Value::Bare(amount_text(r.amount2))),
        ("manual"@, Value::Bare(bool_text(r.manual))),
        ("before"@, text_or_null(escaped_opt(r.before))),
        ("after"@, text_or_null(escaped_opt(r.after))),
    ]
}

proof fn lemma_feed_keys()
    ensures
        is_key("ts"@),
        is_key("id"@),
        is_key("amount1"@),
        is_key("amount2"@),
        is_key("manual"@),
        is_key("before"@),
        is_key("after"@),
        "ts"@ != "id"@ && "ts"@ != "amount1"@ && "ts"@ != "amount2"@ && "ts"@ != "manual"@ && "ts"@ != "before"@ && "ts"@ != "after"@,
        "id"@ != "amount1"@ && "id"@ != "amount2"@ && "id"@ != "manual"@ && "id"@ != "before"@ && "id"@ != "after"@,
        "amount1"@ != "amount2"@ && "amount1"@ != "manual"@ && "amount1"@ != "before"@ && "amount1"@ != "after"@,
        "amount2"@ != "manual"@ && "amount2"@ != "before"@ && "amount2"@ != "after"@,
        "manual"@ != "before"@ && "manual"@ != "after"@,
        "before"@ != "after"@,
{
    reveal_strlit("ts");
    reveal_strlit("id");
    reveal_strlit("amount1");
    reveal_strlit("amount2");
    reveal_strlit("manual");
    reveal_strlit("before");
    reveal_strlit("after");
    assert("ts"@.len() == 2);
    assert("id"@.len() == 2);
    assert("amount1"@.len() == 7);
    assert("amount2"@.len() == 7);
    assert("manual"@.len() == 6);
    assert("before"@.len() == 6);
    assert("after"@.len() == 5);
    assert("ts"@[0] == 't');
    assert("id"@[0] == 'i');
    assert("amount1"@[6] == '1');
    assert("amount2"@[6] == '2');
    assert("manual"@[0] == 'm');
    assert("before"@[0] == 'b');
}

proof fn lemma_feed_literals()
    ensures
        "{\"ts\":"@ == ("{"@ + in_quotes("ts"@) + ":"@),
        ",\"id\":\""@ == (","@ + in_quotes("id"@) + ":"@) + "\""@,
        "\",\"amount1\":"@ == "\""@ + ((","@ + in_quotes("amount1"@) + ":"@)),
        ",\"amount2\":"@ == (","@ + in_quotes("amount2"@) + ":"@),
        ",\"manual\":"@ == (","@ + in_quotes("manual"@) + ":"@),
        ",\"before\":"@ == (","@ + in_quotes("before"@) + ":"@),
        ",\"after\":"@ == (","@ + in_quotes("after"@) + ":"@),
{
    assert("{\"ts\":"@ =~= ("{"@ + in_quotes("ts"@) + ":"@)) by {
        reveal_strlit("{\"ts\":");
        reveal_strlit("{");
        reveal_strlit("ts");
        reveal_strlit(":");
        reveal_strlit("\"");
    }
    assert(",\"id\":\""@ =~= (","@ + in_quotes("id"@) + ":"@) + "\""@) by {
        reveal_strlit(",\"id\":\"");
        reveal_strlit(",");
        reveal_strlit("id");
        reveal_strlit(":");
        reveal_strlit("\"");
    }
    assert("\",\"amount1\":"@ =~= "\""@ + ((","@ + in_quotes("amount1"@) + ":"@))) by {
        reveal_strlit("\",\"amount1\":");
        reveal_strlit(",");
        reveal_strlit("amount1");
        reveal_strlit(":");
        reveal_strlit("\"");
    }
    assert(",\"amount2\":"@ =~= (","@ + in_quotes("amount2"@) + ":"@)) by {
        reveal_strlit(",\"amount2\":");
        reveal_strlit(",");
        reveal_strlit("amount2");
        reveal_strlit(":");
        reveal_strlit("\"");
    }
    assert(",\"manual\":"@ =~= (","@ + in_quotes("manual"@) + ":"@)) by {
        reveal_strlit(",\"manual\":");
        reveal_strlit(",");
        reveal_strlit("manual");
        reveal_strlit(":");
        reveal_strlit("\"");
    }
    assert(",\"before\":"@ =~= (","@ + in_quotes("before"@) + ":"@)) by {
        reveal_strlit(",\"before\":");
        reveal_strlit(",");
        reveal_strlit("before");
        reveal_strlit(":");
        reveal_strlit("\"");
    }
    assert(",\"after\":"@ =~= (","@ + in_quotes("after"@) + ":"@)) by {
        reveal_strlit(",\"after\":");
        reveal_strlit(",");
        reveal_strlit("after");
        reveal_strlit(":");
        reveal_strlit("\"");
    }
}

#[verifier::rlimit(40)]
proof fn lemma_feed_text(r: FeedRecordView)
    ensures
        feed_text(r) == object(written(feed_fields(r))),
{
    let fs = feed_fields(r);
    lemma_feed_literals();
    assert(fs[0] == ("ts"@, Value::Bare(dec(r.ts as nat))));
    let b0 = "{"@ + in_quotes("ts"@) + ":"@;
    assert(fs[1] == ("id"@, Value::Text(escaped(r.id))));
    let b1 = ","@ + in_quotes("id"@) + ":"@;
    assert(fs[2] == ("amount1"@, Value::Bare(amount_text(r.amount1))));
    let b2 = ","@ + in_quotes("amount1"@) + ":"@;
    assert(fs[3] == ("amount2"@, Value::Bare(amount_text(r.amount2))));
    let b3 = ","@ + in_quotes("amount2"@) + ":"@;
    assert(fs[4] == ("manual"@, Value::Bare(bool_text(r.manual))));
    let b4 = ","@ + in_quotes("manual"@) + ":"@;
    assert(fs[5] == ("before"@, text_or_null(escaped_opt(r.before))));
    let b5 = ","@ + in_quotes("before"@) + ":"@;
    assert(fs[6] == ("after"@, text_or_null(escaped_opt(r.after))));
    let b6 = ","@ + in_quotes("after"@) + ":"@;
    let q0 = "{\"ts\":"@;
    lemma_first(fs, b0);
    let q1 = q0 + dec(r.ts as nat) + ",\"id\":\""@;
    assert(q1 == so_far(fs, 1) + ((","@ + in_quotes("id"@) + ":"@) + "\""@));
    lemma_more(fs, 1, b1);
    let q2 = q1 + escaped(r.id) + "\",\"amount1\":"@;
    lemma_quoted_between(so_far(fs, 1), b1 + "\""@, b1, escaped(r.id), "\",\"amount1\":"@, (","@ + in_quotes("amount1"@) + ":"@));
    assert(q2 == so_far(fs, 2) + ((","@ + in_quotes("amount1"@) + ":"@)));
    lemma_more(fs, 2, b2);
    let q3 = q2 + amount_text(r.amount1) + ",\"amount2\":"@;
    assert(q3 == so_far(fs, 3) + ((","@ + in_quotes("amount2"@) + ":"@)));
    lemma_more(fs, 3, b3);
    let q4 = q3 + amount_text(r.amount2) + ",\"manual\":"@;
    assert(q4 == so_far(fs, 4) + ((","@ + in_quotes("manual"@) + ":"@)));
    lemma_more(fs, 4, b4);
    let q5 = q4 + bool_text(r.manual) + ",\"before\":"@;
    assert(q5 == so_far(fs, 5) + ((","@ + in_quotes("before"@) + ":"@)));
    lemma_more(fs, 5, b5);
    let q6 = q5 + escaped_or_null(r.before) + ",\"after\":"@;
    assert(q6 == so_far(fs, 6) + ((","@ + in_quotes("after"@) + ":"@)));
    lemma_more(fs, 6, b6);
    let q7 = q6 + escaped_or_null(r.after) + "}"@;
    assert(q7 == so_far(fs, 7) + ("}"@));
    lemma_whole(fs);
    assert(q7 =~= feed_text(r));
}

#[verifier::rlimit(40)]
proof fn lemma_feed_tellable(r: FeedRecordView)
    requires
        is_quotable(escaped(r.id)) && escaped(r.id) != "amount1"@ && escaped(r.id) != "amount2"@ && escaped(r.id) != "manual"@ && escaped(r.id) != "before"@ && escaped(r.id) != "after"@,
        r.before matches Some(s) ==> is_quotable(escaped(s)) && escaped(s) != "after"@,
        r.after matches Some(s) ==> is_quotable(escaped(s)),
    ensures
        tellable(feed_fields(r), 7),
        feed_fields(r)[0].1.is_read_back(),
        feed_fields(r)[1].1.is_read_back(),
        feed_fields(r)[2].1.is_read_back(),
        feed_fields(r)[3].1.is_read_back(),
        feed_fields(r)[4].1.is_read_back(),
        feed_fields(r)[5].1.is_read_back(),
        feed_fields(r)[6].1.is_read_back(),
{
    let fs = feed_fields(r);
    lemma_feed_keys();
    lemma_null_bare();
    lemma_numeral_bare(r.ts as nat);
    lemma_truth_bare(r.manual);
    if let Some(n) = r.amount1 {
        lemma_numeral_bare(n as nat);
    }
    if let Some(n) = r.amount2 {
        lemma_numeral_bare(n as nat);
    }
    assert(fs[0] == ("ts"@, Value::Bare(dec(r.ts as nat))));
    assert(fs[1] == ("id"@, Value::Text(escaped(r.id))));
    assert(fs[2] == ("amount1"@, Value::Bare(amount_text(r.amount1))));
    assert(fs[3] == ("amount2"@, Value::Bare(amount_text(r.amount2))));
    assert(fs[4] == ("manual"@, Value::Bare(bool_text(r.manual))));
    assert(fs[5] == ("before"@, text_or_null(escaped_opt(r.before))));
    assert(fs[6] == ("after"@, text_or_null(escaped_opt(r.after))));
    assert(apart(fs, "ts"@, 0)) by {
        reveal_with_fuel(apart, 1);
    }
    assert(apart(fs, "id"@, 1)) by {
        reveal_with_fuel(apart, 2);
    }
    assert(apart(fs, "amount1"@, 2)) by {
        reveal_with_fuel(apart, 3);
    }
    assert(apart(fs, "amount2"@, 3)) by {
        reveal_with_fuel(apart, 4);
    }
    assert(apart(fs, "manual"@, 4)) by {
        reveal_with_fuel(apart, 5);
    }
    assert(apart(fs, "before"@, 5)) by {
        reveal_with_fuel(apart, 6);
    }
    assert(apart(fs, "after"@, 6)) by {
        reveal_with_fuel(apart, 7);
    }
    reveal_with_fuel(tellable, 8);
}

/// Each field of a captured feed is found in the report of it: when it was, its id, the portions of
/// each hopper, who asked for it, and the pictures before and after.
pub proof fn law_feed_record_reads_back(r: FeedRecordView)
    requires
        is_quotable(escaped(r.id)) && escaped(r.id) != "amount1"@ && escaped(r.id) != "amount2"@ && escaped(r.id) != "manual"@ && escaped(r.id) != "before"@ && escaped(r.id) != "after"@,
        r.before matches Some(s) ==> is_quotable(escaped(s)) && escaped(s) != "after"@,
        r.after matches Some(s) ==> is_quotable(escaped(s)),
    ensures
        field_of(feed_text(r), "ts"@) == Some(dec(r.ts as nat)),
        field_of(feed_text(r), "id"@) == Some(escaped(r.id)),
        field_of(feed_text(r), "amount1"@) == Some(match r.amount1 {
            Some(v) => dec(v as nat),
            None => "null"@,
        }),
        field_of(feed_text(r), "amount2"@) == Some(match r.amount2 {
            Some(v) => dec(v as nat),
            None => "null"@,
        }),
        field_of(feed_text(r), "manual"@) == Some(bool_text(r.manual)),
        field_of(feed_text(r), "before"@) == Some(reported(r.before)),
        field_of(feed_text(r), "after"@) == Some(reported(r.after)),
{
    let fs = feed_fields(r);
    lemma_feed_text(r);
    lemma_feed_tellable(r);
    lemma_field(fs, 0);
    lemma_field(fs, 1);
    lemma_field(fs, 2);
    lemma_field(fs, 3);
    lemma_field(fs, 4);
    lemma_field(fs, 5);
    lemma_field(fs, 6);
}

spec fn next_text(e: EntryView, tz: Tz, now_utc: int) -> Seq<char> {
    if e.enabled {
        dec_int(next_reading(tz, e.minute_of_day as int, now_utc))
    } else {
        "null"@
    }
}

spec fn fired_date(fired: Option<FiredView>) -> Option<Seq<char>> {
    match fired {
        Some(r) => Some(escaped(r.date)),
        None => None,
    }
}

spec fn fired_outcome(fired: Option<FiredView>) -> Option<Seq<char>> {
    match fired {
        Some(r) => Some(r.outcome.text()),
        None => None,
    }
}

/// A time of day is read as it stands in quotation marks.
proof fn lemma_time_quotable(minute: nat)
    requires
        minute < 6000,
    ensures
        is_quotable(time_text(minute)),
        time_text(minute).len() == 5,
        is_digit(time_text(minute)[0]),
{
    crate::schedule::laws::lemma_time_text(minute);
    let t = time_text(minute);
    assert forall|i: int| 0 <= i < t.len() implies #[trigger] t[i] != ',' && t[i] != '}' && t[i]
        != '"' by {
        if i != 2 {
            assert(is_digit(t[i]));
        }
    }
}

spec fn entry_status_fields(e: EntryView, fired: Option<FiredView>, tz: Tz, now_utc: int) -> Seq<(Seq<char>, Value)> {
    seq![
        ("id"@, Value::Text(escaped(e.id))),
        ("time"@, Value::Text(time_text(e.minute_of_day as nat))),
        ("amount_l"@, Value::Bare(dec(e.amount_l as nat))),
        ("amount_r"@, Value::Bare(dec(e.amount_r as nat))),
        ("enabled"@, Value::Bare(bool_text(e.enabled))),
        ("next_fire_utc"@, Value::Bare(next_text(e, tz, now_utc))),
        ("last_fired_date"@, text_or_null(fired_date(fired))),
        ("last_fired_outcome"@, text_or_null(fired_outcome(fired))),
    ]
}

proof fn lemma_entry_status_keys()
    ensures
        is_key("id"@),
        is_key("time"@),
        is_key("amount_l"@),
        is_key("amount_r"@),
        is_key("enabled"@),
        is_key("next_fire_utc"@),
        is_key("last_fired_date"@),
        is_key("last_fired_outcome"@),
        "id"@ != "time"@ && "id"@ != "amount_l"@ && "id"@ != "amount_r"@ && "id"@ != "enabled"@ && "id"@ != "next_fire_utc"@ && "id"@ != "last_fired_date"@ && "id"@ != "last_fired_outcome"@,
        "time"@ != "amount_l"@ && "time"@ != "amount_r"@ && "time"@ != "enabled"@ && "time"@ != "next_fire_utc"@ && "time"@ != "last_fired_date"@ && "time"@ != "last_fired_outcome"@,
        "amount_l"@ != "amount_r"@ && "amount_l"@ != "enabled"@ && "amount_l"@ != "next_fire_utc"@ && "amount_l"@ != "last_fired_date"@ && "amount_l"@ != "last_fired_outcome"@,
        "amount_r"@ != "enabled"@ && "amount_r"@ != "next_fire_utc"@ && "amount_r"@ != "last_fired_date"@ && "amount_r"@ != "last_fired_outcome"@,
        "enabled"@ != "next_fire_utc"@ && "enabled"@ != "last_fired_date"@ && "enabled"@ != "last_fired_outcome"@,
        "next_fire_utc"@ != "last_fired_date"@ && "next_fire_utc"@ != "last_fired_outcome"@,
        "last_fired_date"@ != "last_fired_outcome"@,
{
    reveal_strlit("id");
    reveal_strlit("time");
    reveal_strlit("amount_l");
    reveal_strlit("amount_r");
    reveal_strlit("enabled");
    reveal_strlit("next_fire_utc");
    reveal_strlit("last_fired_date");
    reveal_strlit("last_fired_outcome");
    assert("id"@.len() == 2);
    assert("time"@.len() == 4);
    assert("amount_l"@.len() == 8);
    assert("amount_r"@.len() == 8);
    assert("enabled"@.len() == 7);
    assert("next_fire_utc"@.len() == 13);
    assert("last_fired_date"@.len() == 15);
    assert("last_fired_outcome"@.len() == 18);
    assert("amount_l"@[7] == 'l');
    assert("amount_r"@[7] == 'r');
}

proof fn lemma_entry_status_literals()
    ensures
        "{\"id\":\""@ == ("{"@ + in_quotes("id"@) + ":"@) + "\""@,
        "\",\"time\":\""@ == "\""@ + ((","@ + in_quotes("time"@) + ":"@) + "\""@),
        "\",\"amount_l\":"@ == "\""@ + ((","@ + in_quotes("amount_l"@) + ":"@)),
        ",\"amount_r\":"@ == (","@ + in_quotes("amount_r"@) + ":"@),
        ",\"enabled\":"@ == (","@ + in_quotes("enabled"@) + ":"@),
        ",\"next_fire_utc\":"@ == (","@ + in_quotes("next_fire_utc"@) + ":"@),
        ",\"last_fired_date\":"@ == (","@ + in_quotes("last_fired_date"@) + ":"@),
        ",\"last_fired_outcome\":"@ == (","@ + in_quotes("last_fired_outcome"@) + ":"@),
{
    assert("{\"id\":\""@ =~= ("{"@ + in_quotes("id"@) + ":"@) + "\""@) by {
        reveal_strlit("{\"id\":\"");
        reveal_strlit("{");
        reveal_strlit("id");
        reveal_strlit(":");
        reveal_strlit("\"");
    }
    assert("\",\"time\":\""@ =~= "\""@ + ((","@ + in_quotes("time"@) + ":"@) + "\""@)) by {
        reveal_strlit("\",\"time\":\"");
        reveal_strlit(",");
        reveal_strlit("time");
        reveal_strlit(":");
        reveal_strlit("\"");
    }
    assert("\",\"amount_l\":"@ =~= "\""@ + ((","@ + in_quotes("amount_l"@) + ":"@))) by {
        reveal_strlit("\",\"amount_l\":");
        reveal_strlit(",");
        reveal_strlit("amount_l");
        reveal_strlit(":");
        reveal_strlit("\"");
    }
    assert(",\"amount_r\":"@ =~= (","@ + in_quotes("amount_r"@) + ":"@)) by {
        reveal_strlit(",\"amount_r\":");
        reveal_strlit(",");
        reveal_strlit("amount_r");
        reveal_strlit(":");
        reveal_strlit("\"");
    }
    assert(",\"enabled\":"@ =~= (","@ + in_quotes("enabled"@) + ":"@)) by {
        reveal_strlit(",\"enabled\":");
        reveal_strlit(",");
        reveal_strlit("enabled");
        reveal_strlit(":");
        reveal_strlit("\"");
    }
    assert(",\"next_fire_utc\":"@ =~= (","@ + in_quotes("next_fire_utc"@) + ":"@)) by {
        reveal_strlit(",\"next_fire_utc\":");
        reveal_strlit(",");
        reveal_strlit("next_fire_utc");
        reveal_strlit(":");
        reveal_strlit("\"");
    }
    assert(",\"last_fired_date\":"@ =~= (","@ + in_quotes("last_fired_date"@) + ":"@)) by {
        reveal_strlit(",\"last_fired_date\":");
        reveal_strlit(",");
        reveal_strlit("last_fired_date");
        reveal_strlit(":");
        reveal_strlit("\"");
    }
    assert(",\"last_fired_outcome\":"@ =~= (","@ + in_quotes("last_fired_outcome"@) + ":"@)) by {
        reveal_strlit(",\"last_fired_outcome\":");
        reveal_strlit(",");
        reveal_strlit("last_fired_outcome");
        reveal_strlit(":");
        reveal_strlit("\"");
    }
}

#[verifier::rlimit(60)]
proof fn lemma_entry_status_text(e: EntryView, fired: Option<FiredView>, tz: Tz, now_utc: int)
    ensures
        entry_status_text(e, fired, tz, now_utc) == object(written(entry_status_fields(e, fired, tz, now_utc))),
{
    let fs = entry_status_fields(e, fired, tz, now_utc);
    lemma_entry_status_literals();
    assert(fs[0] == ("id"@, Value::Text(escaped(e.id))));
    let b0 = "{"@ + in_quotes("id"@) + ":"@;
    assert(fs[1] == ("time"@, Value::Text(time_text(e.minute_of_day as nat))));
    let b1 = ","@ + in_quotes("time"@) + ":"@;
    assert(fs[2] == ("amount_l"@, Value::Bare(dec(e.amount_l as nat))));
    let b2 = ","@ + in_quotes("amount_l"@) + ":"@;
    assert(fs[3] == ("amount_r"@, Value::Bare(dec(e.amount_r as nat))));
    let b3 = ","@ + in_quotes("amount_r"@) + ":"@;
    assert(fs[4] == ("enabled"@, Value::Bare(bool_text(e.enabled))));
    let b4 = ","@ + in_quotes("enabled"@) + ":"@;
    assert(fs[5] == ("next_fire_utc"@, Value::Bare(next_text(e, tz, now_utc))));
    let b5 = ","@ + in_quotes("next_fire_utc"@) + ":"@;
    assert(fs[6] == ("last_fired_date"@, text_or_null(fired_date(fired))));
    let b6 = ","@ + in_quotes("last_fired_date"@) + ":"@;
    assert(fs[7] == ("last_fired_outcome"@, text_or_null(fired_outcome(fired))));
    let b7 = ","@ + in_quotes("last_fired_outcome"@) + ":"@;
    let q0 = "{\"id\":\""@;
    lemma_first(fs, b0);
    let q1 = q0 + escaped(e.id) + "\",\"time\":\""@;
    lemma_quoted_first(b0 + "\""@, b0, escaped(e.id), "\",\"time\":\""@, (","@ + in_quotes("time"@) + ":"@) + "\""@);
    assert(q1 == so_far(fs, 1) + ((","@ + in_quotes("time"@) + ":"@) + "\""@));
    lemma_more(fs, 1, b1);
    let q2 = q1 + time_text(e.minute_of_day as nat) + "\",\"amount_l\":"@;
    lemma_quoted_between(so_far(fs, 1), b1 + "\""@, b1, time_text(e.minute_of_day as nat), "\",\"amount_l\":"@, (","@ + in_quotes("amount_l"@) + ":"@));
    assert(q2 == so_far(fs, 2) + ((","@ + in_quotes("amount_l"@) + ":"@)));
    lemma_more(fs, 2, b2);
    let q3 = q2 + dec(e.amount_l as nat) + ",\"amount_r\":"@;
    assert(q3 == so_far(fs, 3) + ((","@ + in_quotes("amount_r"@) + ":"@)));
    lemma_more(fs, 3, b3);
    let q4 = q3 + dec(e.amount_r as nat) + ",\"enabled\":"@;
    assert(q4 == so_far(fs, 4) + ((","@ + in_quotes("enabled"@) + ":"@)));
    lemma_more(fs, 4, b4);
    let q5 = q4 + bool_text(e.enabled) + ",\"next_fire_utc\":"@;
    assert(q5 == so_far(fs, 5) + ((","@ + in_quotes("next_fire_utc"@) + ":"@)));
    lemma_more(fs, 5, b5);
    let q6 = q5 + (if e.enabled {
        dec_int(next_reading(tz, e.minute_of_day as int, now_utc))
    } else {
        "null"@
    }) + ",\"last_fired_date\":"@;
    assert(q6 == so_far(fs, 6) + ((","@ + in_quotes("last_fired_date"@) + ":"@)));
    lemma_more(fs, 6, b6);
    let q7 = q6 + (match fired {
        Some(r) => "\""@ + escaped(r.date) + "\""@,
        None => "null"@,
    }) + ",\"last_fired_outcome\":"@;
    assert(q7 == so_far(fs, 7) + ((","@ + in_quotes("last_fired_outcome"@) + ":"@)));
    lemma_more(fs, 7, b7);
    let q8 = q7 + (match fired {
        Some(r) => "\""@ + r.outcome.text() + "\""@,
        None => "null"@,
    }) + "}"@;
    assert(q8 == so_far(fs, 8) + ("}"@));
    lemma_whole(fs);
    assert(q8 =~= entry_status_text(e, fired, tz, now_utc));
}

#[verifier::rlimit(60)]
proof fn lemma_entry_status_tellable(e: EntryView, fired: Option<FiredView>, tz: Tz, now_utc: int)
    requires
        e.minute_of_day < 1440,
        is_quotable(escaped(e.id)) && escaped(e.id) != "time"@ && escaped(e.id) != "amount_l"@ && escaped(e.id) != "amount_r"@ && escaped(e.id) != "enabled"@ && escaped(e.id) != "next_fire_utc"@ && escaped(e.id) != "last_fired_date"@ && escaped(e.id) != "last_fired_outcome"@,
        fired matches Some(r) ==> is_quotable(escaped(r.date)) && escaped(r.date) != "last_fired_outcome"@,
    ensures
        tellable(entry_status_fields(e, fired, tz, now_utc), 8),
        entry_status_fields(e, fired, tz, now_utc)[0].1.is_read_back(),
        entry_status_fields(e, fired, tz, now_utc)[1].1.is_read_back(),
        entry_status_fields(e, fired, tz, now_utc)[2].1.is_read_back(),
        entry_status_fields(e, fired, tz, now_utc)[3].1.is_read_back(),
        entry_status_fields(e, fired, tz, now_utc)[4].1.is_read_back(),
        entry_status_fields(e, fired, tz, now_utc)[5].1.is_read_back(),
        entry_status_fields(e, fired, tz, now_utc)[6].1.is_read_back(),
        entry_status_fields(e, fired, tz, now_utc)[7].1.is_read_back(),
{
    let fs = entry_status_fields(e, fired, tz, now_utc);
    lemma_entry_status_keys();
    lemma_null_bare();
    lemma_numeral_bare(e.amount_l as nat);
    lemma_numeral_bare(e.amount_r as nat);
    lemma_truth_bare(e.enabled);
    lemma_time_quotable(e.minute_of_day as nat);
    lemma_integer_bare(next_reading(tz, e.minute_of_day as int, now_utc));
    assert(is_quotable("dispensed"@) && is_quotable("missed"@)) by {
        reveal_strlit("dispensed");
        reveal_strlit("missed");
    }
    assert("amount_l"@.len() == 8 && "amount_r"@.len() == 8 && "enabled"@.len() == 7 && "next_fire_utc"@.len()
        == 13 && "last_fired_date"@.len() == 15 && "last_fired_outcome"@.len() == 18) by {
        reveal_strlit("amount_l");
        reveal_strlit("amount_r");
        reveal_strlit("enabled");
        reveal_strlit("next_fire_utc");
        reveal_strlit("last_fired_date");
        reveal_strlit("last_fired_outcome");
    }
    assert(fs[0] == ("id"@, Value::Text(escaped(e.id))));
    assert(fs[1] == ("time"@, Value::Text(time_text(e.minute_of_day as nat))));
    assert(fs[2] == ("amount_l"@, Value::Bare(dec(e.amount_l as nat))));
    assert(fs[3] == ("amount_r"@, Value::Bare(dec(e.amount_r as nat))));
    assert(fs[4] == ("enabled"@, Value::Bare(bool_text(e.enabled))));
    assert(fs[5] == ("next_fire_utc"@, Value::Bare(next_text(e, tz, now_utc))));
    assert(fs[6] == ("last_fired_date"@, text_or_null(fired_date(fired))));
    assert(fs[7] == ("last_fired_outcome"@, text_or_null(fired_outcome(fired))));
    assert(apart(fs, "id"@, 0)) by {
        reveal_with_fuel(apart, 1);
    }
    assert(apart(fs, "time"@, 1)) by {
        reveal_with_fuel(apart, 2);
    }
    assert(apart(fs, "amount_l"@, 2)) by {
        reveal_with_fuel(apart, 3);
    }
    assert(apart(fs, "amount_r"@, 3)) by {
        reveal_with_fuel(apart, 4);
    }
    assert(apart(fs, "enabled"@, 4)) by {
        reveal_with_fuel(apart, 5);
    }
    assert(apart(fs, "next_fire_utc"@, 5)) by {
        reveal_with_fuel(apart, 6);
    }
    assert(apart(fs, "last_fired_date"@, 6)) by {
        reveal_with_fuel(apart, 7);
    }
    assert(apart(fs, "last_fired_outcome"@, 7)) by {
        reveal_with_fuel(apart, 8);
    }
    reveal_with_fuel(tellable, 9);
}

/// The status of an entry gives its id, its time, the portions of each hopper, whether it is enabled,
/// when it fires next, and on which day it last fired and with what outcome.
pub proof fn law_entry_status_reads_back(e: EntryView, fired: Option<FiredView>, tz: Tz, now_utc: int)
    requires
        e.minute_of_day < 1440,
        is_quotable(escaped(e.id)) && escaped(e.id) != "time"@ && escaped(e.id) != "amount_l"@ && escaped(e.id) != "amount_r"@ && escaped(e.id) != "enabled"@ && escaped(e.id) != "next_fire_utc"@ && escaped(e.id) != "last_fired_date"@ && escaped(e.id) != "last_fired_outcome"@,
        fired matches Some(r) ==> is_quotable(escaped(r.date)) && escaped(r.date) != "last_fired_outcome"@,
    ensures
        field_of(entry_status_text(e, fired, tz, now_utc), "id"@) == Some(escaped(e.id)),
        field_of(entry_status_text(e, fired, tz, now_utc), "time"@) == Some(time_text(e.minute_of_day as nat)),
        field_of(entry_status_text(e, fired, tz, now_utc), "amount_l"@) == Some(dec(e.amount_l as nat)),
        field_of(entry_status_text(e, fired, tz, now_utc), "amount_r"@) == Some(dec(e.amount_r as nat)),
        field_of(entry_status_text(e, fired, tz, now_utc), "enabled"@) == Some(bool_text(e.enabled)),
        field_of(entry_status_text(e, fired, tz, now_utc), "next_fire_utc"@) == Some(if e.enabled {
            dec_int(next_reading(tz, e.minute_of_day as int, now_utc))
        } else {
            "null"@
        }),
        field_of(entry_status_text(e, fired, tz, now_utc), "last_fired_date"@) == Some(match fired {
            Some(v) => escaped(v.date),
            None => "null"@,
        }),
        field_of(entry_status_text(e, fired, tz, now_utc), "last_fired_outcome"@) == Some(match fired {
            Some(v) => v.outcome.text(),
            None => "null"@,
        }),
{
    let fs = entry_status_fields(e, fired, tz, now_utc);
    lemma_entry_status_text(e, fired, tz, now_utc);
    lemma_entry_status_tellable(e, fired, tz, now_utc);
    lemma_field(fs, 0);
    lemma_field(fs, 1);
    lemma_field(fs, 2);
    lemma_field(fs, 3);
    lemma_field(fs, 4);
    lemma_field(fs, 5);
    lemma_field(fs, 6);
    lemma_field(fs, 7);
}

spec fn cat_fields(c: CatSummary, crops: Seq<LabelledView>) -> Seq<(Seq<char>, Value)> {
    seq![
        ("name"@, Value::Text(escaped(c.name@))),
        ("samples"@, Value::Bare(dec(c.samples as nat))),
        ("last_seen"@, Value::Bare(seen_text(seen_upto(crops, c.name@, crops.len() as int)))),
        ("avatar"@, text_or_null(escaped_opt(opt_text(c.avatar)))),
    ]
}

proof fn lemma_cat_keys()
    ensures
        is_key("name"@),
        is_key("samples"@),
        is_key("last_seen"@),
        is_key("avatar"@),
        "name"@ != "samples"@ && "name"@ != "last_seen"@ && "name"@ != "avatar"@,
        "samples"@ != "last_seen"@ && "samples"@ != "avatar"@,
        "last_seen"@ != "avatar"@,
{
    reveal_strlit("name");
    reveal_strlit("samples");
    reveal_strlit("last_seen");
    reveal_strlit("avatar");
    assert("name"@.len() == 4);
    assert("samples"@.len() == 7);
    assert("last_seen"@.len() == 9);
    assert("avatar"@.len() == 6);
}

proof fn lemma_cat_literals()
    ensures
        "{\"name\":\""@ == ("{"@ + in_quotes("name"@) + ":"@) + "\""@,
        "\",\"samples\":"@ == "\""@ + ((","@ + in_quotes("samples"@) + ":"@)),
        ",\"last_seen\":"@ == (","@ + in_quotes("last_seen"@) + ":"@),
        ",\"avatar\":"@ == (","@ + in_quotes("avatar"@) + ":"@),
{
    assert("{\"name\":\""@ =~= ("{"@ + in_quotes("name"@) + ":"@) + "\""@) by {
        reveal_strlit("{\"name\":\"");
        reveal_strlit("{");
        reveal_strlit("name");
        reveal_strlit(":");
        reveal_strlit("\"");
    }
    assert("\",\"samples\":"@ =~= "\""@ + ((","@ + in_quotes("samples"@) + ":"@))) by {
        reveal_strlit("\",\"samples\":");
        reveal_strlit(",");
        reveal_strlit("samples");
        reveal_strlit(":");
        reveal_strlit("\"");
    }
    assert(",\"last_seen\":"@ =~= (","@ + in_quotes("last_seen"@) + ":"@)) by {
        reveal_strlit(",\"last_seen\":");
        reveal_strlit(",");
        reveal_strlit("last_seen");
        reveal_strlit(":");
        reveal_strlit("\"");
    }
    assert(",\"avatar\":"@ =~= (","@ + in_quotes("avatar"@) + ":"@)) by {
        reveal_strlit(",\"avatar\":");
        reveal_strlit(",");
        reveal_strlit("avatar");
        reveal_strlit(":");
        reveal_strlit("\"");
    }
}

#[verifier::rlimit(40)]
proof fn lemma_cat_text(c: CatSummary, crops: Seq<LabelledView>)
    ensures
        cat_text(c, crops) == object(written(cat_fields(c, crops))),
{
    let fs = cat_fields(c, crops);
    lemma_cat_literals();
    assert(fs[0] == ("name"@, Value::Text(escaped(c.name@))));
    let b0 = "{"@ + in_quotes("name"@) + ":"@;
    assert(fs[1] == ("samples"@, Value::Bare(dec(c.samples as nat))));
    let b1 = ","@ + in_quotes("samples"@) + ":"@;
    assert(fs[2] == ("last_seen"@, Value::Bare(seen_text(seen_upto(crops, c.name@, crops.len() as int)))));
    let b2 = ","@ + in_quotes("last_seen"@) + ":"@;
    assert(fs[3] == ("avatar"@, text_or_null(escaped_opt(opt_text(c.avatar)))));
    let b3 = ","@ + in_quotes("avatar"@) + ":"@;
    let q0 = "{\"name\":\""@;
    lemma_first(fs, b0);
    let q1 = q0 + escaped(c.name@) + "\",\"samples\":"@;
    lemma_quoted_first(b0 + "\""@, b0, escaped(c.name@), "\",\"samples\":"@, (","@ + in_quotes("samples"@) + ":"@));
    assert(q1 == so_far(fs, 1) + ((","@ + in_quotes("samples"@) + ":"@)));
    lemma_more(fs, 1, b1);
    let q2 = q1 + dec(c.samples as nat) + ",\"last_seen\":"@;
    assert(q2 == so_far(fs, 2) + ((","@ + in_quotes("last_seen"@) + ":"@)));
    lemma_more(fs, 2, b2);
    let q3 = q2 + seen_text(seen_upto(crops, c.name@, crops.len() as int)) + ",\"avatar\":"@;
    assert(q3 == so_far(fs, 3) + ((","@ + in_quotes("avatar"@) + ":"@)));
    lemma_more(fs, 3, b3);
    let q4 = q3 + escaped_or_null(opt_text(c.avatar)) + "}"@;
    assert(q4 == so_far(fs, 4) + ("}"@));
    lemma_whole(fs);
    assert(q4 =~= cat_text(c, crops));
}

#[verifier::rlimit(40)]
proof fn lemma_cat_tellable(c: CatSummary, crops: Seq<LabelledView>)
    requires
        is_quotable(escaped(c.name@)) && escaped(c.name@) != "samples"@ && escaped(c.name@) != "last_seen"@ && escaped(c.name@) != "avatar"@,
        c.avatar matches Some(s) ==> is_quotable(escaped(s@)),
    ensures
        tellable(cat_fields(c, crops), 4),
        cat_fields(c, crops)[0].1.is_read_back(),
        cat_fields(c, crops)[1].1.is_read_back(),
        cat_fields(c, crops)[2].1.is_read_back(),
        cat_fields(c, crops)[3].1.is_read_back(),
{
    let fs = cat_fields(c, crops);
    lemma_cat_keys();
    lemma_null_bare();
    lemma_numeral_bare(c.samples as nat);
    if let Some(t) = seen_upto(crops, c.name@, crops.len() as int) {
        lemma_numeral_bare(t as nat);
    }
    assert(fs[0] == ("name"@, Value::Text(escaped(c.name@))));
    assert(fs[1] == ("samples"@, Value::Bare(dec(c.samples as nat))));
    assert(fs[2] == ("last_seen"@, Value::Bare(seen_text(seen_upto(crops, c.name@, crops.len() as int)))));
    assert(fs[3] == ("avatar"@, text_or_null(escaped_opt(opt_text(c.avatar)))));
    assert(apart(fs, "name"@, 0)) by {
        reveal_with_fuel(apart, 1);
    }
    assert(apart(fs, "samples"@, 1)) by {
        reveal_with_fuel(apart, 2);
    }
    assert(apart(fs, "last_seen"@, 2)) by {
        reveal_with_fuel(apart, 3);
    }
    assert(apart(fs, "avatar"@, 3)) by {
        reveal_with_fuel(apart, 4);
    }
    reveal_with_fuel(tellable, 5);
}

/// A cat is reported with its name, the number of its samples, when it was last seen and its picture.
pub proof fn law_cat_reads_back(c: CatSummary, crops: Seq<LabelledView>)
    requires
        is_quotable(escaped(c.name@)) && escaped(c.name@) != "samples"@ && escaped(c.name@) != "last_seen"@ && escaped(c.name@) != "avatar"@,
        c.avatar matches Some(s) ==> is_quotable(escaped(s@)),
    ensures
        field_of(cat_text(c, crops), "name"@) == Some(escaped(c.name@)),
        field_of(cat_text(c, crops), "samples"@) == Some(dec(c.samples as nat)),
        field_of(cat_text(c, crops), "last_seen"@) == Some(match seen_upto(crops, c.name@, crops.len() as int) {
            Some(v) => dec(v as nat),
            None => "null"@,
        }),
        field_of(cat_text(c, crops), "avatar"@) == Some(reported(opt_text(c.avatar))),
{
    let fs = cat_fields(c, crops);
    lemma_cat_text(c, crops);
    lemma_cat_tellable(c, crops);
    lemma_field(fs, 0);
    lemma_field(fs, 1);
    lemma_field(fs, 2);
    lemma_field(fs, 3);
}

spec fn clip_fields(c: (Seq<char>, u64)) -> Seq<(Seq<char>, Value)> {
    seq![
        ("name"@, Value::Text(escaped(c.0))),
        ("bytes"@, Value::Bare(dec(c.1 as nat))),
    ]
}

proof fn lemma_clip_keys()
    ensures
        is_key("name"@),
        is_key("bytes"@),
        "name"@ != "bytes"@,
{
    reveal_strlit("name");
    reveal_strlit("bytes");
    assert("name"@.len() == 4);
    assert("bytes"@.len() == 5);
}

proof fn lemma_clip_literals()
    ensures
        "{\"name\":\""@ == ("{"@ + in_quotes("name"@) + ":"@) + "\""@,
        "\",\"bytes\":"@ == "\""@ + ((","@ + in_quotes("bytes"@) + ":"@)),
{
    assert("{\"name\":\""@ =~= ("{"@ + in_quotes("name"@) + ":"@) + "\""@) by {
        reveal_strlit("{\"name\":\"");
        reveal_strlit("{");
        reveal_strlit("name");
        reveal_strlit(":");
        reveal_strlit("\"");
    }
    assert("\",\"bytes\":"@ =~= "\""@ + ((","@ + in_quotes("bytes"@) + ":"@))) by {
        reveal_strlit("\",\"bytes\":");
        reveal_strlit(",");
        reveal_strlit("bytes");
        reveal_strlit(":");
        reveal_strlit("\"");
    }
}

#[verifier::rlimit(40)]
proof fn lemma_clip_text(c: (Seq<char>, u64))
    ensures
        clip_text(c) == object(written(clip_fields(c))),
{
    let fs = clip_fields(c);
    lemma_clip_literals();
    assert(fs[0] == ("name"@, Value::Text(escaped(c.0))));
    let b0 = "{"@ + in_quotes("name"@) + ":"@;
    assert(fs[1] == ("bytes"@, Value::Bare(dec(c.1 as nat))));
    let b1 = ","@ + in_quotes("bytes"@) + ":"@;
    let q0 = "{\"name\":\""@;
    lemma_first(fs, b0);
    let q1 = q0 + escaped(c.0) + "\",\"bytes\":"@;
    lemma_quoted_first(b0 + "\""@, b0, escaped(c.0), "\",\"bytes\":"@, (","@ + in_quotes("bytes"@) + ":"@));
    assert(q1 == so_far(fs, 1) + ((","@ + in_quotes("bytes"@) + ":"@)));
    lemma_more(fs, 1, b1);
    let q2 = q1 + dec(c.1 as nat) + "}"@;
    assert(q2 == so_far(fs, 2) + ("}"@));
    lemma_whole(fs);
    assert(q2 =~= clip_text(c));
}

#[verifier::rlimit(40)]
proof fn lemma_clip_tellable(c: (Seq<char>, u64))
    requires
        is_quotable(escaped(c.0)) && escaped(c.0) != "bytes"@,
    ensures
        tellable(clip_fields(c), 2),
        clip_fields(c)[0].1.is_read_back(),
        clip_fields(c)[1].1.is_read_back(),
{
    let fs = clip_fields(c);
    lemma_clip_keys();
    lemma_numeral_bare(c.1 as nat);
    assert(fs[0] == ("name"@, Value::Text(escaped(c.0))));
    assert(fs[1] == ("bytes"@, Value::Bare(dec(c.1 as nat))));
    assert(apart(fs, "name"@, 0)) by {
        reveal_with_fuel(apart, 1);
    }
    assert(apart(fs, "bytes"@, 1)) by {
        reveal_with_fuel(apart, 2);
    }
    reveal_with_fuel(tellable, 3);
}

/// A clip is reported with its name and its size.
pub proof fn law_clip_reads_back(c: (Seq<char>, u64))
    requires
        is_quotable(escaped(c.0)) && escaped(c.0) != "bytes"@,
    ensures
        field_of(clip_text(c), "name"@) == Some(escaped(c.0)),
        field_of(clip_text(c), "bytes"@) == Some(dec(c.1 as nat)),
{
    let fs = clip_fields(c);
    lemma_clip_text(c);
    lemma_clip_tellable(c);
    lemma_field(fs, 0);
    lemma_field(fs, 1);
}

spec fn advertising_fields(on: bool, until: u64) -> Seq<(Seq<char>, Value)> {
    seq![
        ("advertising"@, Value::Bare(bool_text(on))),
        ("until"@, Value::Bare(
            if on {
                dec(until as nat)
            } else {
                "null"@
            },
        )),
    ]
}

proof fn lemma_advertising_keys()
    ensures
        is_key("advertising"@),
        is_key("until"@),
        "advertising"@ != "until"@,
{
    reveal_strlit("advertising");
    reveal_strlit("until");
    assert("advertising"@.len() == 11);
    assert("until"@.len() == 5);
}

proof fn lemma_advertising_literals()
    ensures
        "{\"advertising\":"@ == ("{"@ + in_quotes("advertising"@) + ":"@),
        ",\"until\":"@ == (","@ + in_quotes("until"@) + ":"@),
{
    assert("{\"advertising\":"@ =~= ("{"@ + in_quotes("advertising"@) + ":"@)) by {
        reveal_strlit("{\"advertising\":");
        reveal_strlit("{");
        reveal_strlit("advertising");
        reveal_strlit(":");
        reveal_strlit("\"");
    }
    assert(",\"until\":"@ =~= (","@ + in_quotes("until"@) + ":"@)) by {
        reveal_strlit(",\"until\":");
        reveal_strlit(",");
        reveal_strlit("until");
        reveal_strlit(":");
        reveal_strlit("\"");
    }
}

#[verifier::rlimit(40)]
proof fn lemma_advertising_text(on: bool, until: u64)
    ensures
        advertise::status_text(on, until) == object(written(advertising_fields(on, until))),
{
    let fs = advertising_fields(on, until);
    lemma_advertising_literals();
    assert(fs[0] == ("advertising"@, Value::Bare(bool_text(on))));
    let b0 = "{"@ + in_quotes("advertising"@) + ":"@;
    assert(fs[1] == ("until"@, Value::Bare(
            if on {
                dec(until as nat)
            } else {
                "null"@
            },
        )));
    let b1 = ","@ + in_quotes("until"@) + ":"@;
    let q0 = "{\"advertising\":"@;
    lemma_first(fs, b0);
    let q1 = q0 + bool_text(on) + ",\"until\":"@;
    assert(q1 == so_far(fs, 1) + ((","@ + in_quotes("until"@) + ":"@)));
    lemma_more(fs, 1, b1);
    let q2 = q1 + (if on {
        dec(until as nat)
    } else {
        "null"@
    }) + "}"@;
    assert(q2 == so_far(fs, 2) + ("}"@));
    lemma_whole(fs);
    assert(q2 =~= advertise::status_text(on, until));
}

#[verifier::rlimit(40)]
proof fn lemma_advertising_tellable(on: bool, until: u64)
    ensures
        tellable(advertising_fields(on, until), 2),
        advertising_fields(on, until)[0].1.is_read_back(),
        advertising_fields(on, until)[1].1.is_read_back(),
{
    let fs = advertising_fields(on, until);
    lemma_advertising_keys();
    lemma_null_bare();
    lemma_numeral_bare(until as nat);
    lemma_truth_bare(on);
    assert(fs[0] == ("advertising"@, Value::Bare(bool_text(on))));
    assert(fs[1] == ("until"@, Value::Bare(
            if on {
                dec(until as nat)
            } else {
                "null"@
            },
        )));
    assert(apart(fs, "advertising"@, 0)) by {
        reveal_with_fuel(apart, 1);
    }
    assert(apart(fs, "until"@, 1)) by {
        reveal_with_fuel(apart, 2);
    }
    reveal_with_fuel(tellable, 3);
}

/// Whether advertising is on is reported, and until when where it is.
pub proof fn law_advertising_reads_back(on: bool, until: u64)
    ensures
        field_of(advertise::status_text(on, until), "advertising"@) == Some(bool_text(on)),
        field_of(advertise::status_text(on, until), "until"@) == Some(if on {
            dec(until as nat)
        } else {
            "null"@
        }),
{
    let fs = advertising_fields(on, until);
    lemma_advertising_text(on, until);
    lemma_advertising_tellable(on, until);
    lemma_field(fs, 0);
    lemma_field(fs, 1);
}

spec fn health_fields(h: Health) -> Seq<(Seq<char>, Value)> {
    seq![
        ("start_count"@, Value::Bare(dec(h.start_count as nat))),
        ("last_start_unix"@, Value::Bare(dec(h.last_start_unix as nat))),
    ]
}

proof fn lemma_health_keys()
    ensures
        is_key("start_count"@),
        is_key("last_start_unix"@),
        "start_count"@ != "last_start_unix"@,
{
    reveal_strlit("start_count");
    reveal_strlit("last_start_unix");
    assert("start_count"@.len() == 11);
    assert("last_start_unix"@.len() == 15);
}

proof fn lemma_health_literals()
    ensures
        "{\"start_count\":"@ == ("{"@ + in_quotes("start_count"@) + ":"@),
        ",\"last_start_unix\":"@ == (","@ + in_quotes("last_start_unix"@) + ":"@),
{
    assert("{\"start_count\":"@ =~= ("{"@ + in_quotes("start_count"@) + ":"@)) by {
        reveal_strlit("{\"start_count\":");
        reveal_strlit("{");
        reveal_strlit("start_count");
        reveal_strlit(":");
        reveal_strlit("\"");
    }
    assert(",\"last_start_unix\":"@ =~= (","@ + in_quotes("last_start_unix"@) + ":"@)) by {
        reveal_strlit(",\"last_start_unix\":");
        reveal_strlit(",");
        reveal_strlit("last_start_unix");
        reveal_strlit(":");
        reveal_strlit("\"");
    }
}

#[verifier::rlimit(40)]
proof fn lemma_health_text(h: Health)
    ensures
        health_text(h) == object(written(health_fields(h))),
{
    let fs = health_fields(h);
    lemma_health_literals();
    assert(fs[0] == ("start_count"@, Value::Bare(dec(h.start_count as nat))));
    let b0 = "{"@ + in_quotes("start_count"@) + ":"@;
    assert(fs[1] == ("last_start_unix"@, Value::Bare(dec(h.last_start_unix as nat))));
    let b1 = ","@ + in_quotes("last_start_unix"@) + ":"@;
    let q0 = "{\"start_count\":"@;
    lemma_first(fs, b0);
    let q1 = q0 + dec(h.start_count as nat) + ",\"last_start_unix\":"@;
    assert(q1 == so_far(fs, 1) + ((","@ + in_quotes("last_start_unix"@) + ":"@)));
    lemma_more(fs, 1, b1);
    let q2 = q1 + dec(h.last_start_unix as nat) + "}"@;
    assert(q2 == so_far(fs, 2) + ("}"@));
    lemma_whole(fs);
    assert(q2 =~= health_text(h));
}

#[verifier::rlimit(40)]
proof fn lemma_health_tellable(h: Health)
    ensures
        tellable(health_fields(h), 2),
        health_fields(h)[0].1.is_read_back(),
        health_fields(h)[1].1.is_read_back(),
{
    let fs = health_fields(h);
    lemma_health_keys();
    lemma_numeral_bare(h.start_count as nat);
    lemma_numeral_bare(h.last_start_unix as nat);
    assert(fs[0] == ("start_count"@, Value::Bare(dec(h.start_count as nat))));
    assert(fs[1] == ("last_start_unix"@, Value::Bare(dec(h.last_start_unix as nat))));
    assert(apart(fs, "start_count"@, 0)) by {
        reveal_with_fuel(apart, 1);
    }
    assert(apart(fs, "last_start_unix"@, 1)) by {
        reveal_with_fuel(apart, 2);
    }
    reveal_with_fuel(tellable, 3);
}

/// The record of the starts gives their number and the time of the last.
pub proof fn law_health_reads_back(h: Health)
    ensures
        field_of(health_text(h), "start_count"@) == Some(dec(h.start_count as nat)),
        field_of(health_text(h), "last_start_unix"@) == Some(dec(h.last_start_unix as nat)),
{
    let fs = health_fields(h);
    lemma_health_text(h);
    lemma_health_tellable(h);
    lemma_field(fs, 0);
    lemma_field(fs, 1);
}

spec fn hello_fields(seq: u64) -> Seq<(Seq<char>, Value)> {
    seq![
        ("type"@, Value::Text("hello"@)),
        ("proto"@, Value::Bare(dec(crate::push::PROTO as nat))),
        ("seq"@, Value::Bare(dec(seq as nat))),
    ]
}

proof fn lemma_hello_keys()
    ensures
        is_key("type"@),
        is_key("proto"@),
        is_key("seq"@),
        "type"@ != "proto"@ && "type"@ != "seq"@,
        "proto"@ != "seq"@,
{
    reveal_strlit("type");
    reveal_strlit("proto");
    reveal_strlit("seq");
    assert("type"@.len() == 4);
    assert("proto"@.len() == 5);
    assert("seq"@.len() == 3);
}

proof fn lemma_hello_literals()
    ensures
        "{\"type\":\"hello\",\"proto\":"@ == ("{"@ + in_quotes("type"@) + ":"@) + in_quotes("hello"@) + ((","@ + in_quotes("proto"@) + ":"@)),
        ",\"seq\":"@ == (","@ + in_quotes("seq"@) + ":"@),
{
    assert("{\"type\":\"hello\",\"proto\":"@ =~= ("{"@ + in_quotes("type"@) + ":"@) + in_quotes("hello"@) + ((","@ + in_quotes("proto"@) + ":"@))) by {
        reveal_strlit("{\"type\":\"hello\",\"proto\":");
        reveal_strlit("{");
        reveal_strlit("type");
        reveal_strlit(":");
        reveal_strlit("\"");
        reveal_strlit("hello");
        reveal_strlit(",");
        reveal_strlit("proto");
    }
    assert(",\"seq\":"@ =~= (","@ + in_quotes("seq"@) + ":"@)) by {
        reveal_strlit(",\"seq\":");
        reveal_strlit(",");
        reveal_strlit("seq");
        reveal_strlit(":");
        reveal_strlit("\"");
    }
}

#[verifier::rlimit(40)]
proof fn lemma_hello_text(seq: u64)
    ensures
        crate::push::hello_text(seq) == object(written(hello_fields(seq))),
{
    let fs = hello_fields(seq);
    lemma_hello_literals();
    assert(fs[0] == ("type"@, Value::Text("hello"@)));
    let b0 = "{"@ + in_quotes("type"@) + ":"@;
    assert(fs[1] == ("proto"@, Value::Bare(dec(crate::push::PROTO as nat))));
    let b1 = ","@ + in_quotes("proto"@) + ":"@;
    assert(fs[2] == ("seq"@, Value::Bare(dec(seq as nat))));
    let b2 = ","@ + in_quotes("seq"@) + ":"@;
    let q0 = "{\"type\":\"hello\",\"proto\":"@;
    lemma_first(fs, b0);
    assert(q0 == so_far(fs, 1) + ((","@ + in_quotes("proto"@) + ":"@)));
    lemma_more(fs, 1, b1);
    let q1 = q0 + dec(crate::push::PROTO as nat) + ",\"seq\":"@;
    assert(q1 == so_far(fs, 2) + ((","@ + in_quotes("seq"@) + ":"@)));
    lemma_more(fs, 2, b2);
    let q2 = q1 + dec(seq as nat) + "}"@;
    assert(q2 == so_far(fs, 3) + ("}"@));
    lemma_whole(fs);
    assert(q2 =~= crate::push::hello_text(seq));
}

#[verifier::rlimit(40)]
proof fn lemma_hello_tellable(seq: u64)
    ensures
        tellable(hello_fields(seq), 3),
        hello_fields(seq)[0].1.is_read_back(),
        hello_fields(seq)[1].1.is_read_back(),
        hello_fields(seq)[2].1.is_read_back(),
{
    let fs = hello_fields(seq);
    lemma_hello_keys();
    lemma_numeral_bare(1);
    lemma_numeral_bare(seq as nat);
    assert("hello"@.len() == 5) by {
        reveal_strlit("hello");
    }
    reveal_strlit("proto");
    reveal_strlit("seq");
    assert("hello"@[0] == 'h') by {
        reveal_strlit("hello");
    }
    assert("proto"@[0] == 'p');
    reveal_strlit("hello");
    assert(fs[0] == ("type"@, Value::Text("hello"@)));
    assert(fs[1] == ("proto"@, Value::Bare(dec(crate::push::PROTO as nat))));
    assert(fs[2] == ("seq"@, Value::Bare(dec(seq as nat))));
    assert(apart(fs, "type"@, 0)) by {
        reveal_with_fuel(apart, 1);
    }
    assert(apart(fs, "proto"@, 1)) by {
        reveal_with_fuel(apart, 2);
    }
    assert(apart(fs, "seq"@, 2)) by {
        reveal_with_fuel(apart, 3);
    }
    reveal_with_fuel(tellable, 4);
}

/// The greeting gives the version of the protocol and the number of the last change.
pub proof fn law_hello_reads_back(seq: u64)
    ensures
        field_of(crate::push::hello_text(seq), "type"@) == Some("hello"@),
        field_of(crate::push::hello_text(seq), "proto"@) == Some(dec(1)),
        field_of(crate::push::hello_text(seq), "seq"@) == Some(dec(seq as nat)),
{
    let fs = hello_fields(seq);
    lemma_hello_text(seq);
    lemma_hello_tellable(seq);
    lemma_field(fs, 0);
    lemma_field(fs, 1);
    lemma_field(fs, 2);
}

/// The report of the events holds that of each, in their order.
pub proof fn law_events_are_listed(v: Seq<DetectionView>, i: int)
    requires
        0 <= i < v.len(),
        forall|k: int| 0 <= k < v.len() ==> is_item(detection_text(#[trigger] v[k])),
    ensures
        ({
            let t = events_text(v);
            let its = items(t.subrange(1, t.len() - 1));
            its.len() == v.len() && its[i] == detection_text(v[i])
        }),
{
    let parts = v.map_values(|x: DetectionView| detection_text(x));
    assert forall|k: int| 0 <= k < parts.len() implies is_item(#[trigger] parts[k]) by {
        assert(is_item(detection_text(v[k])));
    }
    law_array_reads_back(parts);
    assert(events_text(v) =~= crate::json::array_text(parts));
}

/// The report of the feeds holds that of each, in their order.
pub proof fn law_feeds_are_listed(v: Seq<FeedRecordView>, i: int)
    requires
        0 <= i < v.len(),
        forall|k: int| 0 <= k < v.len() ==> is_item(feed_text(#[trigger] v[k])),
    ensures
        ({
            let t = feeds_text(v);
            let its = items(t.subrange(1, t.len() - 1));
            its.len() == v.len() && its[i] == feed_text(v[i])
        }),
{
    let parts = v.map_values(|x: FeedRecordView| feed_text(x));
    assert forall|k: int| 0 <= k < parts.len() implies is_item(#[trigger] parts[k]) by {
        assert(is_item(feed_text(v[k])));
    }
    law_array_reads_back(parts);
    assert(feeds_text(v) =~= crate::json::array_text(parts));
}

/// The report of the clips holds that of each, in their order.
pub proof fn law_clips_are_listed(v: Seq<(Seq<char>, u64)>, i: int)
    requires
        0 <= i < v.len(),
        forall|k: int| 0 <= k < v.len() ==> is_item(clip_text(#[trigger] v[k])),
    ensures
        ({
            let t = clips_text(v);
            let its = items(t.subrange(1, t.len() - 1));
            its.len() == v.len() && its[i] == clip_text(v[i])
        }),
{
    let parts = v.map_values(|x: (Seq<char>, u64)| clip_text(x));
    assert forall|k: int| 0 <= k < parts.len() implies is_item(#[trigger] parts[k]) by {
        assert(is_item(clip_text(v[k])));
    }
    law_array_reads_back(parts);
    assert(clips_text(v) =~= crate::json::array_text(parts));
}

/// The report of the crops that wait holds that of each, in their order.
pub proof fn law_pending_crops_are_listed(v: Seq<PendingCropView>, i: int)
    requires
        0 <= i < v.len(),
        forall|k: int| 0 <= k < v.len() ==> is_item(pending_text(#[trigger] v[k])),
    ensures
        ({
            let t = pendings_text(v);
            let its = items(t.subrange(1, t.len() - 1));
            its.len() == v.len() && its[i] == pending_text(v[i])
        }),
{
    let parts = v.map_values(|x: PendingCropView| pending_text(x));
    assert forall|k: int| 0 <= k < parts.len() implies is_item(#[trigger] parts[k]) by {
        assert(is_item(pending_text(v[k])));
    }
    law_array_reads_back(parts);
    assert(pendings_text(v) =~= crate::json::array_text(parts));
}

/// The report of the samples holds that of each, in their order.
pub proof fn law_samples_are_listed(v: Seq<(u64, Seq<char>)>, i: int)
    requires
        0 <= i < v.len(),
        forall|k: int| 0 <= k < v.len() ==> is_item(sample_text(#[trigger] v[k])),
    ensures
        ({
            let t = samples_text(v);
            let its = items(t.subrange(1, t.len() - 1));
            its.len() == v.len() && its[i] == sample_text(v[i])
        }),
{
    let parts = v.map_values(|x: (u64, Seq<char>)| sample_text(x));
    assert forall|k: int| 0 <= k < parts.len() implies is_item(#[trigger] parts[k]) by {
        assert(is_item(sample_text(v[k])));
    }
    law_array_reads_back(parts);
    assert(samples_text(v) =~= crate::json::array_text(parts));
}

spec fn sessions_text(m: MountInfo) -> Seq<char> {
    "["@ + joined(quoted_upto(string_texts(m.sessions@)), ","@) + "]"@
}

spec fn mount_fields(m: MountInfo) -> Seq<(Seq<char>, Value)> {
    seq![
        ("width"@, Value::Bare(dec(m.width as nat))),
        ("height"@, Value::Bare(dec(m.height as nat))),
        ("fps"@, Value::Bare(m.fps@)),
        ("session_count"@, Value::Bare(dec(m.sessions@.len()))),
        ("sessions"@, Value::Raw(sessions_text(m))),
    ]
}

proof fn lemma_mount_keys()
    ensures
        is_key("width"@),
        is_key("height"@),
        is_key("fps"@),
        is_key("session_count"@),
        is_key("sessions"@),
        "width"@ != "height"@ && "width"@ != "fps"@ && "width"@ != "session_count"@ && "width"@ != "sessions"@,
        "height"@ != "fps"@ && "height"@ != "session_count"@ && "height"@ != "sessions"@,
        "fps"@ != "session_count"@ && "fps"@ != "sessions"@,
        "session_count"@ != "sessions"@,
{
    reveal_strlit("width");
    reveal_strlit("height");
    reveal_strlit("fps");
    reveal_strlit("session_count");
    reveal_strlit("sessions");
    assert("width"@.len() == 5);
    assert("height"@.len() == 6);
    assert("fps"@.len() == 3);
    assert("session_count"@.len() == 13);
    assert("sessions"@.len() == 8);
}

proof fn lemma_mount_literals()
    ensures
        "{\"width\":"@ == ("{"@ + in_quotes("width"@) + ":"@),
        ",\"height\":"@ == (","@ + in_quotes("height"@) + ":"@),
        ",\"fps\":"@ == (","@ + in_quotes("fps"@) + ":"@),
        ",\"session_count\":"@ == (","@ + in_quotes("session_count"@) + ":"@),
        ",\"sessions\":"@ == (","@ + in_quotes("sessions"@) + ":"@),
{
    assert("{\"width\":"@ =~= ("{"@ + in_quotes("width"@) + ":"@)) by {
        reveal_strlit("{\"width\":");
        reveal_strlit("{");
        reveal_strlit("width");
        reveal_strlit(":");
        reveal_strlit("\"");
    }
    assert(",\"height\":"@ =~= (","@ + in_quotes("height"@) + ":"@)) by {
        reveal_strlit(",\"height\":");
        reveal_strlit(",");
        reveal_strlit("height");
        reveal_strlit(":");
        reveal_strlit("\"");
    }
    assert(",\"fps\":"@ =~= (","@ + in_quotes("fps"@) + ":"@)) by {
        reveal_strlit(",\"fps\":");
        reveal_strlit(",");
        reveal_strlit("fps");
        reveal_strlit(":");
        reveal_strlit("\"");
    }
    assert(",\"session_count\":"@ =~= (","@ + in_quotes("session_count"@) + ":"@)) by {
        reveal_strlit(",\"session_count\":");
        reveal_strlit(",");
        reveal_strlit("session_count");
        reveal_strlit(":");
        reveal_strlit("\"");
    }
    assert(",\"sessions\":"@ =~= (","@ + in_quotes("sessions"@) + ":"@)) by {
        reveal_strlit(",\"sessions\":");
        reveal_strlit(",");
        reveal_strlit("sessions");
        reveal_strlit(":");
        reveal_strlit("\"");
    }
}

#[verifier::rlimit(40)]
proof fn lemma_mount_text(m: MountInfo)
    ensures
        mount_text(m) == object(written(mount_fields(m))),
{
    let fs = mount_fields(m);
    lemma_mount_literals();
    assert(fs[0] == ("width"@, Value::Bare(dec(m.width as nat))));
    let b0 = "{"@ + in_quotes("width"@) + ":"@;
    assert(fs[1] == ("height"@, Value::Bare(dec(m.height as nat))));
    let b1 = ","@ + in_quotes("height"@) + ":"@;
    assert(fs[2] == ("fps"@, Value::Bare(m.fps@)));
    let b2 = ","@ + in_quotes("fps"@) + ":"@;
    assert(fs[3] == ("session_count"@, Value::Bare(dec(m.sessions@.len()))));
    let b3 = ","@ + in_quotes("session_count"@) + ":"@;
    assert(fs[4] == ("sessions"@, Value::Raw(sessions_text(m))));
    let b4 = ","@ + in_quotes("sessions"@) + ":"@;
    let q0 = "{\"width\":"@;
    lemma_first(fs, b0);
    let q1 = q0 + dec(m.width as nat) + ",\"height\":"@;
    assert(q1 == so_far(fs, 1) + ((","@ + in_quotes("height"@) + ":"@)));
    lemma_more(fs, 1, b1);
    let q2 = q1 + dec(m.height as nat) + ",\"fps\":"@;
    assert(q2 == so_far(fs, 2) + ((","@ + in_quotes("fps"@) + ":"@)));
    lemma_more(fs, 2, b2);
    let q3 = q2 + m.fps@ + ",\"session_count\":"@;
    assert(q3 == so_far(fs, 3) + ((","@ + in_quotes("session_count"@) + ":"@)));
    lemma_more(fs, 3, b3);
    let q4 = q3 + dec(m.sessions@.len()) + ",\"sessions\":"@;
    assert(q4 == so_far(fs, 4) + ((","@ + in_quotes("sessions"@) + ":"@)));
    lemma_more(fs, 4, b4);
    let q5 = q4 + sessions_text(m) + "}"@;
    assert(q5 == so_far(fs, 5) + ("}"@));
    lemma_whole(fs);
    assert(",\"sessions\":["@ =~= ",\"sessions\":"@ + "["@) by {
        reveal_strlit(",\"sessions\":[");
        reveal_strlit(",\"sessions\":");
        reveal_strlit("[");
    }
    assert("]}"@ =~= "]"@ + "}"@) by {
        reveal_strlit("]}");
        reveal_strlit("]");
        reveal_strlit("}");
    }
    assert(q5 =~= mount_text(m));
}

#[verifier::rlimit(40)]
proof fn lemma_mount_tellable(m: MountInfo)
    requires
        is_bare(m.fps@),
    ensures
        tellable(mount_fields(m), 5),
        mount_fields(m)[0].1.is_read_back(),
        mount_fields(m)[1].1.is_read_back(),
        mount_fields(m)[2].1.is_read_back(),
        mount_fields(m)[3].1.is_read_back(),
{
    let fs = mount_fields(m);
    lemma_mount_keys();
    lemma_numeral_bare(m.width as nat);
    lemma_numeral_bare(m.height as nat);
    lemma_numeral_bare(m.sessions@.len());
    assert(fs[0] == ("width"@, Value::Bare(dec(m.width as nat))));
    assert(fs[1] == ("height"@, Value::Bare(dec(m.height as nat))));
    assert(fs[2] == ("fps"@, Value::Bare(m.fps@)));
    assert(fs[3] == ("session_count"@, Value::Bare(dec(m.sessions@.len()))));
    assert(fs[4] == ("sessions"@, Value::Raw(sessions_text(m))));
    assert(apart(fs, "width"@, 0)) by {
        reveal_with_fuel(apart, 1);
    }
    assert(apart(fs, "height"@, 1)) by {
        reveal_with_fuel(apart, 2);
    }
    assert(apart(fs, "fps"@, 2)) by {
        reveal_with_fuel(apart, 3);
    }
    assert(apart(fs, "session_count"@, 3)) by {
        reveal_with_fuel(apart, 4);
    }
    assert(apart(fs, "sessions"@, 4)) by {
        reveal_with_fuel(apart, 5);
    }
    reveal_with_fuel(tellable, 6);
}

/// A stream is reported with its size, its rate and the number of those who watch it.
pub proof fn law_mount_reads_back(m: MountInfo)
    requires
        is_bare(m.fps@),
    ensures
        field_of(mount_text(m), "width"@) == Some(dec(m.width as nat)),
        field_of(mount_text(m), "height"@) == Some(dec(m.height as nat)),
        field_of(mount_text(m), "fps"@) == Some(m.fps@),
        field_of(mount_text(m), "session_count"@) == Some(dec(m.sessions@.len())),
{
    let fs = mount_fields(m);
    lemma_mount_text(m);
    lemma_mount_tellable(m);
    lemma_field(fs, 0);
    lemma_field(fs, 1);
    lemma_field(fs, 2);
    lemma_field(fs, 3);
}

spec fn pushed_fields(fields: Seq<Field>, bodies: Seq<String>) -> Seq<char> {
    "{"@ + fields_text(fields, bodies, fields.len() as int) + "}"@
}

spec fn push_frame_fields(kind: Seq<char>, seq: u64, fields: Seq<Field>, bodies: Seq<String>) -> Seq<(Seq<char>, Value)> {
    seq![
        ("type"@, Value::Text(kind)),
        ("seq"@, Value::Bare(dec(seq as nat))),
        ("fields"@, Value::Raw(pushed_fields(fields, bodies))),
    ]
}

proof fn lemma_push_frame_keys()
    ensures
        is_key("type"@),
        is_key("seq"@),
        is_key("fields"@),
        "type"@ != "seq"@ && "type"@ != "fields"@,
        "seq"@ != "fields"@,
{
    reveal_strlit("type");
    reveal_strlit("seq");
    reveal_strlit("fields");
    assert("type"@.len() == 4);
    assert("seq"@.len() == 3);
    assert("fields"@.len() == 6);
}

proof fn lemma_push_frame_literals()
    ensures
        "{\"type\":\""@ == ("{"@ + in_quotes("type"@) + ":"@) + "\""@,
        "\",\"seq\":"@ == "\""@ + ((","@ + in_quotes("seq"@) + ":"@)),
        ",\"fields\":"@ == (","@ + in_quotes("fields"@) + ":"@),
{
    assert("{\"type\":\""@ =~= ("{"@ + in_quotes("type"@) + ":"@) + "\""@) by {
        reveal_strlit("{\"type\":\"");
        reveal_strlit("{");
        reveal_strlit("type");
        reveal_strlit(":");
        reveal_strlit("\"");
    }
    assert("\",\"seq\":"@ =~= "\""@ + ((","@ + in_quotes("seq"@) + ":"@))) by {
        reveal_strlit("\",\"seq\":");
        reveal_strlit(",");
        reveal_strlit("seq");
        reveal_strlit(":");
        reveal_strlit("\"");
    }
    assert(",\"fields\":"@ =~= (","@ + in_quotes("fields"@) + ":"@)) by {
        reveal_strlit(",\"fields\":");
        reveal_strlit(",");
        reveal_strlit("fields");
        reveal_strlit(":");
        reveal_strlit("\"");
    }
}

#[verifier::rlimit(40)]
proof fn lemma_push_frame_text(kind: Seq<char>, seq: u64, fields: Seq<Field>, bodies: Seq<String>)
    ensures
        frame_text(kind, seq, fields, bodies) == object(written(push_frame_fields(kind, seq, fields, bodies))),
{
    let fs = push_frame_fields(kind, seq, fields, bodies);
    lemma_push_frame_literals();
    assert(fs[0] == ("type"@, Value::Text(kind)));
    let b0 = "{"@ + in_quotes("type"@) + ":"@;
    assert(fs[1] == ("seq"@, Value::Bare(dec(seq as nat))));
    let b1 = ","@ + in_quotes("seq"@) + ":"@;
    assert(fs[2] == ("fields"@, Value::Raw(pushed_fields(fields, bodies))));
    let b2 = ","@ + in_quotes("fields"@) + ":"@;
    let q0 = "{\"type\":\""@;
    lemma_first(fs, b0);
    let q1 = q0 + kind + "\",\"seq\":"@;
    lemma_quoted_first(b0 + "\""@, b0, kind, "\",\"seq\":"@, (","@ + in_quotes("seq"@) + ":"@));
    assert(q1 == so_far(fs, 1) + ((","@ + in_quotes("seq"@) + ":"@)));
    lemma_more(fs, 1, b1);
    let q2 = q1 + dec(seq as nat) + ",\"fields\":"@;
    assert(q2 == so_far(fs, 2) + ((","@ + in_quotes("fields"@) + ":"@)));
    lemma_more(fs, 2, b2);
    let q3 = q2 + pushed_fields(fields, bodies) + "}"@;
    assert(q3 == so_far(fs, 3) + ("}"@));
    lemma_whole(fs);
    assert(",\"fields\":{"@ =~= ",\"fields\":"@ + "{"@) by {
        reveal_strlit(",\"fields\":{");
        reveal_strlit(",\"fields\":");
        reveal_strlit("{");
    }
    assert("}}"@ =~= "}"@ + "}"@) by {
        reveal_strlit("}}");
        reveal_strlit("}");
    }
    assert(q3 =~= frame_text(kind, seq, fields, bodies));
}

#[verifier::rlimit(40)]
proof fn lemma_push_frame_tellable(kind: Seq<char>, seq: u64, fields: Seq<Field>, bodies: Seq<String>)
    requires
        is_quotable(kind) && kind != "seq"@ && kind != "fields"@,
    ensures
        tellable(push_frame_fields(kind, seq, fields, bodies), 3),
        push_frame_fields(kind, seq, fields, bodies)[0].1.is_read_back(),
        push_frame_fields(kind, seq, fields, bodies)[1].1.is_read_back(),
{
    let fs = push_frame_fields(kind, seq, fields, bodies);
    lemma_push_frame_keys();
    lemma_numeral_bare(seq as nat);
    assert(fs[0] == ("type"@, Value::Text(kind)));
    assert(fs[1] == ("seq"@, Value::Bare(dec(seq as nat))));
    assert(fs[2] == ("fields"@, Value::Raw(pushed_fields(fields, bodies))));
    assert(apart(fs, "type"@, 0)) by {
        reveal_with_fuel(apart, 1);
    }
    assert(apart(fs, "seq"@, 1)) by {
        reveal_with_fuel(apart, 2);
    }
    assert(apart(fs, "fields"@, 2)) by {
        reveal_with_fuel(apart, 3);
    }
    reveal_with_fuel(tellable, 4);
}

/// A frame to a client gives its kind and the number of the change.
pub proof fn law_push_frame_reads_back(kind: Seq<char>, seq: u64, fields: Seq<Field>, bodies: Seq<String>)
    requires
        is_quotable(kind) && kind != "seq"@ && kind != "fields"@,
    ensures
        field_of(frame_text(kind, seq, fields, bodies), "type"@) == Some(kind),
        field_of(frame_text(kind, seq, fields, bodies), "seq"@) == Some(dec(seq as nat)),
{
    let fs = push_frame_fields(kind, seq, fields, bodies);
    lemma_push_frame_text(kind, seq, fields, bodies);
    lemma_push_frame_tellable(kind, seq, fields, bodies);
    lemma_field(fs, 0);
    lemma_field(fs, 1);
}

spec fn error_fields(m: Seq<char>) -> Seq<(Seq<char>, Value)> {
    seq![
        ("error"@, Value::Text(escaped(m))),
    ]
}

proof fn lemma_error_keys()
    ensures
        is_key("error"@),
{
    reveal_strlit("error");
    assert("error"@.len() == 5);
}

proof fn lemma_error_literals()
    ensures
        "{\"error\":\""@ == ("{"@ + in_quotes("error"@) + ":"@) + "\""@,
        "\"}"@ == "\""@ + ("}"@),
{
    assert("{\"error\":\""@ =~= ("{"@ + in_quotes("error"@) + ":"@) + "\""@) by {
        reveal_strlit("{\"error\":\"");
        reveal_strlit("{");
        reveal_strlit("error");
        reveal_strlit(":");
        reveal_strlit("\"");
    }
    assert("\"}"@ =~= "\""@ + ("}"@)) by {
        reveal_strlit("\"}");
        reveal_strlit("}");
        reveal_strlit("\"");
    }
}

#[verifier::rlimit(40)]
proof fn lemma_error_text(m: Seq<char>)
    ensures
        error_body(m) == object(written(error_fields(m))),
{
    let fs = error_fields(m);
    lemma_error_literals();
    assert(fs[0] == ("error"@, Value::Text(escaped(m))));
    let b0 = "{"@ + in_quotes("error"@) + ":"@;
    let q0 = "{\"error\":\""@;
    lemma_first(fs, b0);
    let q1 = q0 + escaped(m) + "\"}"@;
    lemma_quoted_first(b0 + "\""@, b0, escaped(m), "\"}"@, "}"@);
    assert(q1 == so_far(fs, 1) + ("}"@));
    lemma_whole(fs);
    assert(q1 =~= error_body(m));
}

#[verifier::rlimit(40)]
proof fn lemma_error_tellable(m: Seq<char>)
    requires
        is_quotable(escaped(m)),
    ensures
        tellable(error_fields(m), 1),
        error_fields(m)[0].1.is_read_back(),
{
    let fs = error_fields(m);
    lemma_error_keys();
    assert(fs[0] == ("error"@, Value::Text(escaped(m))));
    assert(apart(fs, "error"@, 0)) by {
        reveal_with_fuel(apart, 1);
    }
    reveal_with_fuel(tellable, 2);
}

/// An error is reported with its message.
pub proof fn law_error_reads_back(m: Seq<char>)
    requires
        is_quotable(escaped(m)),
    ensures
        field_of(error_body(m), "error"@) == Some(escaped(m)),
{
    let fs = error_fields(m);
    lemma_error_text(m);
    lemma_error_tellable(m);
    lemma_field(fs, 0);
}

} // verus!
