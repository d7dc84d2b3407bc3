//! What is found in the bodies that answer requests.

use vstd::prelude::*;
use vstd::string::*;

use crate::audioout::PlaybackStats;
use crate::faces::{guess_text, opt_guess, FaceTargetView, Guess, PendingCropView};
use crate::health::Health;
use crate::http::field_of;
use crate::json::fields::{
    apart, bare_or_null, is_bare, is_quotable, lemma_field, lemma_first, lemma_in_one_piece,
    lemma_more, lemma_null_bare, lemma_numeral_bare, lemma_quoted_between, lemma_quoted_first,
    lemma_truth_bare, lemma_whole, so_far, tellable, written, Value,
};
use crate::json::lemmas::{
    clear_of, ends_apart, in_quotes, is_key, lemma_bare_field, lemma_clear_concat, lemma_clear_unquoted,
    lemma_member_clear, member, object,
};
use crate::json::bool_text;
use crate::number::{dec, dec_int};
use crate::routes::bodies::{
    audio_status_text, clip_saved_text, config_written_text, current_info_text, exit_text, fed_text,
    identify_text, labelled_identity_text, labelled_text, notified_text, opt_dec, pending_text,
    sample_text, speak_ms, speak_text, state_text, uploaded_text, Verdict,
};
use crate::text::escaped;

verus! {

spec fn fed_fields(id: Seq<char>, amount1: u8, amount2: u8, cancel: bool) -> Seq<(Seq<char>, Value)> {
    seq![
        ("ok"@, Value::Bare("true"@)),
        ("id"@, Value::Text(escaped(id))),
        ("amount1"@, Value::Bare(dec(amount1 as nat))),
        ("amount2"@, Value::Bare(dec(amount2 as nat))),
        ("cancel"@, Value::Bare(bool_text(cancel))),
    ]
}

proof fn lemma_fed_keys()
    ensures
        is_key("ok"@),
        is_key("id"@),
        is_key("amount1"@),
        is_key("amount2"@),
        is_key("cancel"@),
        "ok"@ != "id"@ && "ok"@ != "amount1"@ && "ok"@ != "amount2"@ && "ok"@ != "cancel"@,
        "id"@ != "amount1"@ && "id"@ != "amount2"@ && "id"@ != "cancel"@,
        "amount1"@ != "amount2"@ && "amount1"@ != "cancel"@,
        "amount2"@ != "cancel"@,
{
    reveal_strlit("ok");
    reveal_strlit("id");
    reveal_strlit("amount1");
    reveal_strlit("amount2");
    reveal_strlit("cancel");
    assert("ok"@.len() == 2);
    assert("id"@.len() == 2);
    assert("amount1"@.len() == 7);
    assert("amount2"@.len() == 7);
    assert("cancel"@.len() == 6);
    assert("ok"@[0] == 'o');
    assert("id"@[0] == 'i');
    assert("amount1"@[6] == '1');
    assert("amount2"@[6] == '2');
}

proof fn lemma_fed_literals()
    ensures
        "{\"ok\":true,\"id\":\""@ == ("{"@ + in_quotes("ok"@) + ":"@) + "true"@ + ((","@ + in_quotes("id"@) + ":"@) + "\""@),
        "\",\"amount1\":"@ == "\""@ + ((","@ + in_quotes("amount1"@) + ":"@)),
        ",\"amount2\":"@ == (","@ + in_quotes("amount2"@) + ":"@),
        ",\"cancel\":"@ == (","@ + in_quotes("cancel"@) + ":"@),
{
    assert("{\"ok\":true,\"id\":\""@ =~= ("{"@ + in_quotes("ok"@) + ":"@) + "true"@ + ((","@ + in_quotes("id"@) + ":"@) + "\""@)) by {
        reveal_strlit("{\"ok\":true,\"id\":\"");
        reveal_strlit("{");
        reveal_strlit("ok");
        reveal_strlit(":");
        reveal_strlit("\"");
        reveal_strlit("true");
        reveal_strlit(",");
        reveal_strlit("id");
    }
    assert("\",\"amount1\":"@ =~= "\""@ + ((","@ + in_quotes("amount1"@) + ":"@))) by {
        reveal_strlit("\",\"amount1\":");
        reveal_strlit(",");
        reveal_strlit("amount1");
        reveal_strlit(":");
        reveal_strlit("\"");
    }
    assert(",\"amount2\":"@ =~= (","@ + in_quotes("amount2"@) + ":"@)) by {
        reveal_strlit(",\"amount2\":");
        reveal_strlit(",");
        reveal_strlit("amount2");
        reveal_strlit(":");
        reveal_strlit("\"");
    }
    assert(",\"cancel\":"@ =~= (","@ + in_quotes("cancel"@) + ":"@)) by {
        reveal_strlit(",\"cancel\":");
        reveal_strlit(",");
        reveal_strlit("cancel");
        reveal_strlit(":");
        reveal_strlit("\"");
    }
}

#[verifier::rlimit(40)]
proof fn lemma_fed_text(id: Seq<char>, amount1: u8, amount2: u8, cancel: bool)
    ensures
        fed_text(id, amount1, amount2, cancel) == object(written(fed_fields(id, amount1, amount2, cancel))),
{
    let fs = fed_fields(id, amount1, amount2, cancel);
    lemma_fed_literals();
    assert(fs[0] == ("ok"@, Value::Bare("true"@)));
    let b0 = "{"@ + in_quotes("ok"@) + ":"@;
    assert(fs[1] == ("id"@, Value::Text(escaped(id))));
    let b1 = ","@ + in_quotes("id"@) + ":"@;
    assert(fs[2] == ("amount1"@, Value::Bare(dec(amount1 as nat))));
    let b2 = ","@ + in_quotes("amount1"@) + ":"@;
    assert(fs[3] == ("amount2"@, Value::Bare(dec(amount2 as nat))));
    let b3 = ","@ + in_quotes("amount2"@) + ":"@;
    assert(fs[4] == ("cancel"@, Value::Bare(bool_text(cancel))));
    let b4 = ","@ + in_quotes("cancel"@) + ":"@;
    let q0 = "{\"ok\":true,\"id\":\""@;
    lemma_first(fs, b0);
    assert(q0 == so_far(fs, 1) + ((","@ + in_quotes("id"@) + ":"@) + "\""@));
    lemma_more(fs, 1, b1);
    let q1 = q0 + escaped(id) + "\",\"amount1\":"@;
    lemma_quoted_between(so_far(fs, 1), b1 + "\""@, b1, escaped(id), "\",\"amount1\":"@, (","@ + in_quotes("amount1"@) + ":"@));
    assert(q1 == so_far(fs, 2) + ((","@ + in_quotes("amount1"@) + ":"@)));
    lemma_more(fs, 2, b2);
    let q2 = q1 + dec(amount1 as nat) + ",\"amount2\":"@;
    assert(q2 == so_far(fs, 3) + ((","@ + in_quotes("amount2"@) + ":"@)));
    lemma_more(fs, 3, b3);
    let q3 = q2 + dec(amount2 as nat) + ",\"cancel\":"@;
    assert(q3 == so_far(fs, 4) + ((","@ + in_quotes("cancel"@) + ":"@)));
    lemma_more(fs, 4, b4);
    let q4 = q3 + bool_text(cancel) + "}"@;
    assert(q4 == so_far(fs, 5) + ("}"@));
    lemma_whole(fs);
    assert(q4 == fed_text(id, amount1, amount2, cancel));
}

#[verifier::rlimit(40)]
proof fn lemma_fed_tellable(id: Seq<char>, amount1: u8, amount2: u8, cancel: bool)
    requires
        is_quotable(escaped(id)) && escaped(id) != "amount1"@ && escaped(id) != "amount2"@ && escaped(id) != "cancel"@,
    ensures
        tellable(fed_fields(id, amount1, amount2, cancel), 5),
        fed_fields(id, amount1, amount2, cancel)[0].1.is_read_back(),
        fed_fields(id, amount1, amount2, cancel)[1].1.is_read_back(),
        fed_fields(id, amount1, amount2, cancel)[2].1.is_read_back(),
        fed_fields(id, amount1, amount2, cancel)[3].1.is_read_back(),
        fed_fields(id, amount1, amount2, cancel)[4].1.is_read_back(),
{
    let fs = fed_fields(id, amount1, amount2, cancel);
    lemma_fed_keys();
    lemma_numeral_bare(amount1 as nat);
    lemma_numeral_bare(amount2 as nat);
    lemma_truth_bare(cancel);
    reveal_strlit("true");
    assert(fs[0] == ("ok"@, Value::Bare("true"@)));
    assert(fs[1] == ("id"@, Value::Text(escaped(id))));
    assert(fs[2] == ("amount1"@, Value::Bare(dec(amount1 as nat))));
    assert(fs[3] == ("amount2"@, Value::Bare(dec(amount2 as nat))));
    assert(fs[4] == ("cancel"@, Value::Bare(bool_text(cancel))));
    assert(apart(fs, "ok"@, 0)) by {
        reveal_with_fuel(apart, 1);
    }
    assert(apart(fs, "id"@, 1)) by {
        reveal_with_fuel(apart, 2);
    }
    assert(apart(fs, "amount1"@, 2)) by {
        reveal_with_fuel(apart, 3);
    }
    assert(apart(fs, "amount2"@, 3)) by {
        reveal_with_fuel(apart, 4);
    }
    assert(apart(fs, "cancel"@, 4)) by {
        reveal_with_fuel(apart, 5);
    }
    reveal_with_fuel(tellable, 6);
}

/// The answer to an order to feed gives its id, the portions of each hopper and whether it cancels.
pub proof fn law_fed_answer(id: Seq<char>, amount1: u8, amount2: u8, cancel: bool)
    requires
        is_quotable(escaped(id)) && escaped(id) != "amount1"@ && escaped(id) != "amount2"@ && escaped(id) != "cancel"@,
    ensures
        field_of(fed_text(id, amount1, amount2, cancel), "ok"@) == Some("true"@),
        field_of(fed_text(id, amount1, amount2, cancel), "id"@) == Some(escaped(id)),
        field_of(fed_text(id, amount1, amount2, cancel), "amount1"@) == Some(dec(amount1 as nat)),
        field_of(fed_text(id, amount1, amount2, cancel), "amount2"@) == Some(dec(amount2 as nat)),
        field_of(fed_text(id, amount1, amount2, cancel), "cancel"@) == Some(bool_text(cancel)),
{
    let fs = fed_fields(id, amount1, amount2, cancel);
    lemma_fed_text(id, amount1, amount2, cancel);
    lemma_fed_tellable(id, amount1, amount2, cancel);
    lemma_field(fs, 0);
    lemma_field(fs, 1);
    lemma_field(fs, 2);
    lemma_field(fs, 3);
    lemma_field(fs, 4);
}

spec fn config_fields(key: Seq<char>, value: u32, notified: Option<bool>) -> Seq<(Seq<char>, Value)> {
    seq![
        ("ok"@, Value::Bare("true"@)),
        ("key"@, Value::Text(key)),
        ("value"@, Value::Bare(dec(value as nat))),
        ("notified"@, Value::Bare(notified_text(notified))),
    ]
}

proof fn lemma_config_keys()
    ensures
        is_key("ok"@),
        is_key("key"@),
        is_key("value"@),
        is_key("notified"@),
        "ok"@ != "key"@ && "ok"@ != "value"@ && "ok"@ != "notified"@,
        "key"@ != "value"@ && "key"@ != "notified"@,
        "value"@ != "notified"@,
{
    reveal_strlit("ok");
    reveal_strlit("key");
    reveal_strlit("value");
    reveal_strlit("notified");
    assert("ok"@.len() == 2);
    assert("key"@.len() == 3);
    assert("value"@.len() == 5);
    assert("notified"@.len() == 8);
}

proof fn lemma_config_literals()
    ensures
        "{\"ok\":true,\"key\":\""@ == ("{"@ + in_quotes("ok"@) + ":"@) + "true"@ + ((","@ + in_quotes("key"@) + ":"@) + "\""@),
        "\",\"value\":"@ == "\""@ + ((","@ + in_quotes("value"@) + ":"@)),
        ",\"notified\":"@ == (","@ + in_quotes("notified"@) + ":"@),
{
    assert("{\"ok\":true,\"key\":\""@ =~= ("{"@ + in_quotes("ok"@) + ":"@) + "true"@ + ((","@ + in_quotes("key"@) + ":"@) + "\""@)) by {
        reveal_strlit("{\"ok\":true,\"key\":\"");
        reveal_strlit("{");
        reveal_strlit("ok");
        reveal_strlit(":");
        reveal_strlit("\"");
        reveal_strlit("true");
        reveal_strlit(",");
        reveal_strlit("key");
    }
    assert("\",\"value\":"@ =~= "\""@ + ((","@ + in_quotes("value"@) + ":"@))) by {
        reveal_strlit("\",\"value\":");
        reveal_strlit(",");
        reveal_strlit("value");
        reveal_strlit(":");
        reveal_strlit("\"");
    }
    assert(",\"notified\":"@ =~= (","@ + in_quotes("notified"@) + ":"@)) by {
        reveal_strlit(",\"notified\":");
        reveal_strlit(",");
        reveal_strlit("notified");
        reveal_strlit(":");
        reveal_strlit("\"");
    }
}

#[verifier::rlimit(40)]
proof fn lemma_config_text(key: Seq<char>, value: u32, notified: Option<bool>)
    ensures
        config_written_text(key, value, notified) == object(written(config_fields(key, value, notified))),
{
    let fs = config_fields(key, value, notified);
    lemma_config_literals();
    assert(fs[0] == ("ok"@, Value::Bare("true"@)));
    let b0 = "{"@ + in_quotes("ok"@) + ":"@;
    assert(fs[1] == ("key"@, Value::Text(key)));
    let b1 = ","@ + in_quotes("key"@) + ":"@;
    assert(fs[2] == ("value"@, Value::Bare(dec(value as nat))));
    let b2 = ","@ + in_quotes("value"@) + ":"@;
    assert(fs[3] == ("notified"@, Value::Bare(notified_text(notified))));
    let b3 = ","@ + in_quotes("notified"@) + ":"@;
    let q0 = "{\"ok\":true,\"key\":\""@;
    lemma_first(fs, b0);
    assert(q0 == so_far(fs, 1) + ((","@ + in_quotes("key"@) + ":"@) + "\""@));
    lemma_more(fs, 1, b1);
    let q1 = q0 + key + "\",\"value\":"@;
    lemma_quoted_between(so_far(fs, 1), b1 + "\""@, b1, key, "\",\"value\":"@, (","@ + in_quotes("value"@) + ":"@));
    assert(q1 == so_far(fs, 2) + ((","@ + in_quotes("value"@) + ":"@)));
    lemma_more(fs, 2, b2);
    let q2 = q1 + dec(value as nat) + ",\"notified\":"@;
    assert(q2 == so_far(fs, 3) + ((","@ + in_quotes("notified"@) + ":"@)));
    lemma_more(fs, 3, b3);
    let q3 = q2 + notified_text(notified) + "}"@;
    assert(q3 == so_far(fs, 4) + ("}"@));
    lemma_whole(fs);
    assert(q3 == config_written_text(key, value, notified));
}

#[verifier::rlimit(40)]
proof fn lemma_config_tellable(key: Seq<char>, value: u32, notified: Option<bool>)
    requires
        is_quotable(key) && key != "value"@ && key != "notified"@,
    ensures
        tellable(config_fields(key, value, notified), 4),
        config_fields(key, value, notified)[0].1.is_read_back(),
        config_fields(key, value, notified)[1].1.is_read_back(),
        config_fields(key, value, notified)[2].1.is_read_back(),
        config_fields(key, value, notified)[3].1.is_read_back(),
{
    let fs = config_fields(key, value, notified);
    lemma_config_keys();
    lemma_numeral_bare(value as nat);
    lemma_null_bare();
    lemma_truth_bare(true);
    lemma_truth_bare(false);
    reveal_strlit("true");
    assert(fs[0] == ("ok"@, Value::Bare("true"@)));
    assert(fs[1] == ("key"@, Value::Text(key)));
    assert(fs[2] == ("value"@, Value::Bare(dec(value as nat))));
    assert(fs[3] == ("notified"@, Value::Bare(notified_text(notified))));
    assert(apart(fs, "ok"@, 0)) by {
        reveal_with_fuel(apart, 1);
    }
    assert(apart(fs, "key"@, 1)) by {
        reveal_with_fuel(apart, 2);
    }
    assert(apart(fs, "value"@, 2)) by {
        reveal_with_fuel(apart, 3);
    }
    assert(apart(fs, "notified"@, 3)) by {
        reveal_with_fuel(apart, 4);
    }
    reveal_with_fuel(tellable, 5);
}

/// The answer to a setting that was written gives its key and its value, and whether anyone was told.
pub proof fn law_config_answer(key: Seq<char>, value: u32, notified: Option<bool>)
    requires
        is_quotable(key) && key != "value"@ && key != "notified"@,
    ensures
        field_of(config_written_text(key, value, notified), "ok"@) == Some("true"@),
        field_of(config_written_text(key, value, notified), "key"@) == Some(key),
        field_of(config_written_text(key, value, notified), "value"@) == Some(dec(value as nat)),
        field_of(config_written_text(key, value, notified), "notified"@) == Some(match notified {
            Some(b) => bool_text(b),
            None => "null"@,
        }),
{
    let fs = config_fields(key, value, notified);
    lemma_config_text(key, value, notified);
    lemma_config_tellable(key, value, notified);
    lemma_field(fs, 0);
    lemma_field(fs, 1);
    lemma_field(fs, 2);
    lemma_field(fs, 3);
}

spec fn uploaded_fields(name: Seq<char>, samples: nat, low_quality: bool) -> Seq<(Seq<char>, Value)> {
    seq![
        ("ok"@, Value::Bare("true"@)),
        ("name"@, Value::Text(escaped(name))),
        ("samples"@, Value::Bare(dec(samples))),
        ("low_quality"@, Value::Bare(bool_text(low_quality))),
    ]
}

proof fn lemma_uploaded_keys()
    ensures
        is_key("ok"@),
        is_key("name"@),
        is_key("samples"@),
        is_key("low_quality"@),
        "ok"@ != "name"@ && "ok"@ != "samples"@ && "ok"@ != "low_quality"@,
        "name"@ != "samples"@ && "name"@ != "low_quality"@,
        "samples"@ != "low_quality"@,
{
    reveal_strlit("ok");
    reveal_strlit("name");
    reveal_strlit("samples");
    reveal_strlit("low_quality");
    assert("ok"@.len() == 2);
    assert("name"@.len() == 4);
    assert("samples"@.len() == 7);
    assert("low_quality"@.len() == 11);
}

proof fn lemma_uploaded_literals()
    ensures
        "{\"ok\":true,\"name\":\""@ == ("{"@ + in_quotes("ok"@) + ":"@) + "true"@ + ((","@ + in_quotes("name"@) + ":"@) + "\""@),
        "\",\"samples\":"@ == "\""@ + ((","@ + in_quotes("samples"@) + ":"@)),
        ",\"low_quality\":"@ == (","@ + in_quotes("low_quality"@) + ":"@),
{
    assert("{\"ok\":true,\"name\":\""@ =~= ("{"@ + in_quotes("ok"@) + ":"@) + "true"@ + ((","@ + in_quotes("name"@) + ":"@) + "\""@)) by {
        reveal_strlit("{\"ok\":true,\"name\":\"");
        reveal_strlit("{");
        reveal_strlit("ok");
        reveal_strlit(":");
        reveal_strlit("\"");
        reveal_strlit("true");
        reveal_strlit(",");
        reveal_strlit("name");
    }
    assert("\",\"samples\":"@ =~= "\""@ + ((","@ + in_quotes("samples"@) + ":"@))) by {
        reveal_strlit("\",\"samples\":");
        reveal_strlit(",");
        reveal_strlit("samples");
        reveal_strlit(":");
        reveal_strlit("\"");
    }
    assert(",\"low_quality\":"@ =~= (","@ + in_quotes("low_quality"@) + ":"@)) by {
        reveal_strlit(",\"low_quality\":");
        reveal_strlit(",");
        reveal_strlit("low_quality");
        reveal_strlit(":");
        reveal_strlit("\"");
    }
}

#[verifier::rlimit(40)]
proof fn lemma_uploaded_text(name: Seq<char>, samples: nat, low_quality: bool)
    ensures
        uploaded_text(name, samples, low_quality) == object(written(uploaded_fields(name, samples, low_quality))),
{
    let fs = uploaded_fields(name, samples, low_quality);
    lemma_uploaded_literals();
    assert(fs[0] == ("ok"@, Value::Bare("true"@)));
    let b0 = "{"@ + in_quotes("ok"@) + ":"@;
    assert(fs[1] == ("name"@, Value::Text(escaped(name))));
    let b1 = ","@ + in_quotes("name"@) + ":"@;
    assert(fs[2] == ("samples"@, Value::Bare(dec(samples))));
    let b2 = ","@ + in_quotes("samples"@) + ":"@;
    assert(fs[3] == ("low_quality"@, Value::Bare(bool_text(low_quality))));
    let b3 = ","@ + in_quotes("low_quality"@) + ":"@;
    let q0 = "{\"ok\":true,\"name\":\""@;
    lemma_first(fs, b0);
    assert(q0 == so_far(fs, 1) + ((","@ + in_quotes("name"@) + ":"@) + "\""@));
    lemma_more(fs, 1, b1);
    let q1 = q0 + escaped(name) + "\",\"samples\":"@;
    lemma_quoted_between(so_far(fs, 1), b1 + "\""@, b1, escaped(name), "\",\"samples\":"@, (","@ + in_quotes("samples"@) + ":"@));
    assert(q1 == so_far(fs, 2) + ((","@ + in_quotes("samples"@) + ":"@)));
    lemma_more(fs, 2, b2);
    let q2 = q1 + dec(samples) + ",\"low_quality\":"@;
    assert(q2 == so_far(fs, 3) + ((","@ + in_quotes("low_quality"@) + ":"@)));
    lemma_more(fs, 3, b3);
    let q3 = q2 + bool_text(low_quality) + "}"@;
    assert(q3 == so_far(fs, 4) + ("}"@));
    lemma_whole(fs);
    assert(q3 == uploaded_text(name, samples, low_quality));
}

#[verifier::rlimit(40)]
proof fn lemma_uploaded_tellable(name: Seq<char>, samples: nat, low_quality: bool)
    requires
        is_quotable(escaped(name)) && escaped(name) != "samples"@ && escaped(name) != "low_quality"@,
    ensures
        tellable(uploaded_fields(name, samples, low_quality), 4),
        uploaded_fields(name, samples, low_quality)[0].1.is_read_back(),
        uploaded_fields(name, samples, low_quality)[1].1.is_read_back(),
        uploaded_fields(name, samples, low_quality)[2].1.is_read_back(),
        uploaded_fields(name, samples, low_quality)[3].1.is_read_back(),
{
    let fs = uploaded_fields(name, samples, low_quality);
    lemma_uploaded_keys();
    lemma_numeral_bare(samples);
    lemma_truth_bare(low_quality);
    reveal_strlit("true");
    assert(fs[0] == ("ok"@, Value::Bare("true"@)));
    assert(fs[1] == ("name"@, Value::Text(escaped(name))));
    assert(fs[2] == ("samples"@, Value::Bare(dec(samples))));
    assert(fs[3] == ("low_quality"@, Value::Bare(bool_text(low_quality))));
    assert(apart(fs, "ok"@, 0)) by {
        reveal_with_fuel(apart, 1);
    }
    assert(apart(fs, "name"@, 1)) by {
        reveal_with_fuel(apart, 2);
    }
    assert(apart(fs, "samples"@, 2)) by {
        reveal_with_fuel(apart, 3);
    }
    assert(apart(fs, "low_quality"@, 3)) by {
        reveal_with_fuel(apart, 4);
    }
    reveal_with_fuel(tellable, 5);
}

/// The answer to a photo gives its name, how many samples the cat now has, and whether it is poor.
pub proof fn law_uploaded_answer(name: Seq<char>, samples: nat, low_quality: bool)
    requires
        is_quotable(escaped(name)) && escaped(name) != "samples"@ && escaped(name) != "low_quality"@,
    ensures
        field_of(uploaded_text(name, samples, low_quality), "ok"@) == Some("true"@),
        field_of(uploaded_text(name, samples, low_quality), "name"@) == Some(escaped(name)),
        field_of(uploaded_text(name, samples, low_quality), "samples"@) == Some(dec(samples)),
        field_of(uploaded_text(name, samples, low_quality), "low_quality"@) == Some(bool_text(low_quality)),
{
    let fs = uploaded_fields(name, samples, low_quality);
    lemma_uploaded_text(name, samples, low_quality);
    lemma_uploaded_tellable(name, samples, low_quality);
    lemma_field(fs, 0);
    lemma_field(fs, 1);
    lemma_field(fs, 2);
    lemma_field(fs, 3);
}

spec fn labelled_fields(name: Seq<char>, cat: Seq<char>) -> Seq<(Seq<char>, Value)> {
    seq![
        ("ok"@, Value::Bare("true"@)),
        ("name"@, Value::Text(escaped(name))),
        ("cat"@, Value::Text(escaped(cat))),
    ]
}

proof fn lemma_labelled_keys()
    ensures
        is_key("ok"@),
        is_key("name"@),
        is_key("cat"@),
        "ok"@ != "name"@ && "ok"@ != "cat"@,
        "name"@ != "cat"@,
{
    reveal_strlit("ok");
    reveal_strlit("name");
    reveal_strlit("cat");
    assert("ok"@.len() == 2);
    assert("name"@.len() == 4);
    assert("cat"@.len() == 3);
}

proof fn lemma_labelled_literals()
    ensures
        "{\"ok\":true,\"name\":\""@ == ("{"@ + in_quotes("ok"@) + ":"@) + "true"@ + ((","@ + in_quotes("name"@) + ":"@) + "\""@),
        "\",\"cat\":\""@ == "\""@ + ((","@ + in_quotes("cat"@) + ":"@) + "\""@),
        "\"}"@ == "\""@ + ("}"@),
{
    assert("{\"ok\":true,\"name\":\""@ =~= ("{"@ + in_quotes("ok"@) + ":"@) + "true"@ + ((","@ + in_quotes("name"@) + ":"@) + "\""@)) by {
        reveal_strlit("{\"ok\":true,\"name\":\"");
        reveal_strlit("{");
        reveal_strlit("ok");
        reveal_strlit(":");
        reveal_strlit("\"");
        reveal_strlit("true");
        reveal_strlit(",");
        reveal_strlit("name");
    }
    assert("\",\"cat\":\""@ =~= "\""@ + ((","@ + in_quotes("cat"@) + ":"@) + "\""@)) by {
        reveal_strlit("\",\"cat\":\"");
        reveal_strlit(",");
        reveal_strlit("cat");
        reveal_strlit(":");
        reveal_strlit("\"");
    }
    assert("\"}"@ =~= "\""@ + ("}"@)) by {
        reveal_strlit("\"}");
        reveal_strlit("}");
        reveal_strlit("\"");
    }
}

#[verifier::rlimit(40)]
proof fn lemma_labelled_text(name: Seq<char>, cat: Seq<char>)
    ensures
        labelled_text(name, cat) == object(written(labelled_fields(name, cat))),
{
    let fs = labelled_fields(name, cat);
    lemma_labelled_literals();
    assert(fs[0] == ("ok"@, Value::Bare("true"@)));
    let b0 = "{"@ + in_quotes("ok"@) + ":"@;
    assert(fs[1] == ("name"@, Value::Text(escaped(name))));
    let b1 = ","@ + in_quotes("name"@) + ":"@;
    assert(fs[2] == ("cat"@, Value::Text(escaped(cat))));
    let b2 = ","@ + in_quotes("cat"@) + ":"@;
    let q0 = "{\"ok\":true,\"name\":\""@;
    lemma_first(fs, b0);
    assert(q0 == so_far(fs, 1) + ((","@ + in_quotes("name"@) + ":"@) + "\""@));
    lemma_more(fs, 1, b1);
    let q1 = q0 + escaped(name) + "\",\"cat\":\""@;
    lemma_quoted_between(so_far(fs, 1), b1 + "\""@, b1, escaped(name), "\",\"cat\":\""@, (","@ + in_quotes("cat"@) + ":"@) + "\""@);
    assert(q1 == so_far(fs, 2) + ((","@ + in_quotes("cat"@) + ":"@) + "\""@));
    lemma_more(fs, 2, b2);
    let q2 = q1 + escaped(cat) + "\"}"@;
    lemma_quoted_between(so_far(fs, 2), b2 + "\""@, b2, escaped(cat), "\"}"@, "}"@);
    assert(q2 == so_far(fs, 3) + ("}"@));
    lemma_whole(fs);
    assert(q2 == labelled_text(name, cat));
}

#[verifier::rlimit(40)]
proof fn lemma_labelled_tellable(name: Seq<char>, cat: Seq<char>)
    requires
        is_quotable(escaped(name)) && escaped(name) != "cat"@,
        is_quotable(escaped(cat)),
    ensures
        tellable(labelled_fields(name, cat), 3),
        labelled_fields(name, cat)[0].1.is_read_back(),
        labelled_fields(name, cat)[1].1.is_read_back(),
        labelled_fields(name, cat)[2].1.is_read_back(),
{
    let fs = labelled_fields(name, cat);
    lemma_labelled_keys();
    reveal_strlit("true");
    assert(fs[0] == ("ok"@, Value::Bare("true"@)));
    assert(fs[1] == ("name"@, Value::Text(escaped(name))));
    assert(fs[2] == ("cat"@, Value::Text(escaped(cat))));
    assert(apart(fs, "ok"@, 0)) by {
        reveal_with_fuel(apart, 1);
    }
    assert(apart(fs, "name"@, 1)) by {
        reveal_with_fuel(apart, 2);
    }
    assert(apart(fs, "cat"@, 2)) by {
        reveal_with_fuel(apart, 3);
    }
    reveal_with_fuel(tellable, 4);
}

/// The answer to a label gives the crop and the cat.
pub proof fn law_labelled_answer(name: Seq<char>, cat: Seq<char>)
    requires
        is_quotable(escaped(name)) && escaped(name) != "cat"@,
        is_quotable(escaped(cat)),
    ensures
        field_of(labelled_text(name, cat), "ok"@) == Some("true"@),
        field_of(labelled_text(name, cat), "name"@) == Some(escaped(name)),
        field_of(labelled_text(name, cat), "cat"@) == Some(escaped(cat)),
{
    let fs = labelled_fields(name, cat);
    lemma_labelled_text(name, cat);
    lemma_labelled_tellable(name, cat);
    lemma_field(fs, 0);
    lemma_field(fs, 1);
    lemma_field(fs, 2);
}

spec fn speak_fields(samples: nat) -> Seq<(Seq<char>, Value)> {
    seq![
        ("ok"@, Value::Bare("true"@)),
        ("samples"@, Value::Bare(dec(samples))),
        ("estimated_ms"@, Value::Bare(dec(speak_ms(samples)))),
    ]
}

proof fn lemma_speak_keys()
    ensures
        is_key("ok"@),
        is_key("samples"@),
        is_key("estimated_ms"@),
        "ok"@ != "samples"@ && "ok"@ != "estimated_ms"@,
        "samples"@ != "estimated_ms"@,
{
    reveal_strlit("ok");
    reveal_strlit("samples");
    reveal_strlit("estimated_ms");
    assert("ok"@.len() == 2);
    assert("samples"@.len() == 7);
    assert("estimated_ms"@.len() == 12);
}

proof fn lemma_speak_literals()
    ensures
        "{\"ok\":true,\"samples\":"@ == ("{"@ + in_quotes("ok"@) + ":"@) + "true"@ + ((","@ + in_quotes("samples"@) + ":"@)),
        ",\"estimated_ms\":"@ == (","@ + in_quotes("estimated_ms"@) + ":"@),
{
    assert("{\"ok\":true,\"samples\":"@ =~= ("{"@ + in_quotes("ok"@) + ":"@) + "true"@ + ((","@ + in_quotes("samples"@) + ":"@))) by {
        reveal_strlit("{\"ok\":true,\"samples\":");
        reveal_strlit("{");
        reveal_strlit("ok");
        reveal_strlit(":");
        reveal_strlit("\"");
        reveal_strlit("true");
        reveal_strlit(",");
        reveal_strlit("samples");
    }
    assert(",\"estimated_ms\":"@ =~= (","@ + in_quotes("estimated_ms"@) + ":"@)) by {
        reveal_strlit(",\"estimated_ms\":");
        reveal_strlit(",");
        reveal_strlit("estimated_ms");
        reveal_strlit(":");
        reveal_strlit("\"");
    }
}

#[verifier::rlimit(40)]
proof fn lemma_speak_text(samples: nat)
    ensures
        speak_text(samples) == object(written(speak_fields(samples))),
{
    let fs = speak_fields(samples);
    lemma_speak_literals();
    assert(fs[0] == ("ok"@, Value::Bare("true"@)));
    let b0 = "{"@ + in_quotes("ok"@) + ":"@;
    assert(fs[1] == ("samples"@, Value::Bare(dec(samples))));
    let b1 = ","@ + in_quotes("samples"@) + ":"@;
    assert(fs[2] == ("estimated_ms"@, Value::Bare(dec(speak_ms(samples)))));
    let b2 = ","@ + in_quotes("estimated_ms"@) + ":"@;
    let q0 = "{\"ok\":true,\"samples\":"@;
    lemma_first(fs, b0);
    assert(q0 == so_far(fs, 1) + ((","@ + in_quotes("samples"@) + ":"@)));
    lemma_more(fs, 1, b1);
    let q1 = q0 + dec(samples) + ",\"estimated_ms\":"@;
    assert(q1 == so_far(fs, 2) + ((","@ + in_quotes("estimated_ms"@) + ":"@)));
    lemma_more(fs, 2, b2);
    let q2 = q1 + dec(speak_ms(samples)) + "}"@;
    assert(q2 == so_far(fs, 3) + ("}"@));
    lemma_whole(fs);
    assert(q2 == speak_text(samples));
}

#[verifier::rlimit(40)]
proof fn lemma_speak_tellable(samples: nat)
    ensures
        tellable(speak_fields(samples), 3),
        speak_fields(samples)[0].1.is_read_back(),
        speak_fields(samples)[1].1.is_read_back(),
        speak_fields(samples)[2].1.is_read_back(),
{
    let fs = speak_fields(samples);
    lemma_speak_keys();
    lemma_numeral_bare(samples);
    lemma_numeral_bare(speak_ms(samples));
    reveal_strlit("true");
    assert(fs[0] == ("ok"@, Value::Bare("true"@)));
    assert(fs[1] == ("samples"@, Value::Bare(dec(samples))));
    assert(fs[2] == ("estimated_ms"@, Value::Bare(dec(speak_ms(samples)))));
    assert(apart(fs, "ok"@, 0)) by {
        reveal_with_fuel(apart, 1);
    }
    assert(apart(fs, "samples"@, 1)) by {
        reveal_with_fuel(apart, 2);
    }
    assert(apart(fs, "estimated_ms"@, 2)) by {
        reveal_with_fuel(apart, 3);
    }
    reveal_with_fuel(tellable, 4);
}

/// The answer to speech gives the number of its samples and how long they take.
pub proof fn law_speak_answer(samples: nat)
    ensures
        field_of(speak_text(samples), "ok"@) == Some("true"@),
        field_of(speak_text(samples), "samples"@) == Some(dec(samples)),
        field_of(speak_text(samples), "estimated_ms"@) == Some(dec(speak_ms(samples))),
{
    let fs = speak_fields(samples);
    lemma_speak_text(samples);
    lemma_speak_tellable(samples);
    lemma_field(fs, 0);
    lemma_field(fs, 1);
    lemma_field(fs, 2);
}

/// Samples at 16 kHz take a millisecond for each sixteen of them, the last one begun not counted.
pub proof fn law_speech_takes_its_time(samples: nat)
    ensures
        16 * speak_ms(samples) <= samples < 16 * (speak_ms(samples) + 1),
{
}

spec fn clip_fields(name: Seq<char>, bytes: nat) -> Seq<(Seq<char>, Value)> {
    seq![
        ("ok"@, Value::Bare("true"@)),
        ("name"@, Value::Text(escaped(name))),
        ("bytes"@, Value::Bare(dec(bytes))),
    ]
}

proof fn lemma_clip_keys()
    ensures
        is_key("ok"@),
        is_key("name"@),
        is_key("bytes"@),
        "ok"@ != "name"@ && "ok"@ != "bytes"@,
        "name"@ != "bytes"@,
{
    reveal_strlit("ok");
    reveal_strlit("name");
    reveal_strlit("bytes");
    assert("ok"@.len() == 2);
    assert("name"@.len() == 4);
    assert("bytes"@.len() == 5);
}

proof fn lemma_clip_literals()
    ensures
        "{\"ok\":true,\"name\":\""@ == ("{"@ + in_quotes("ok"@) + ":"@) + "true"@ + ((","@ + in_quotes("name"@) + ":"@) + "\""@),
        "\",\"bytes\":"@ == "\""@ + ((","@ + in_quotes("bytes"@) + ":"@)),
{
    assert("{\"ok\":true,\"name\":\""@ =~= ("{"@ + in_quotes("ok"@) + ":"@) + "true"@ + ((","@ + in_quotes("name"@) + ":"@) + "\""@)) by {
        reveal_strlit("{\"ok\":true,\"name\":\"");
        reveal_strlit("{");
        reveal_strlit("ok");
        reveal_strlit(":");
        reveal_strlit("\"");
        reveal_strlit("true");
        reveal_strlit(",");
        reveal_strlit("name");
    }
    assert("\",\"bytes\":"@ =~= "\""@ + ((","@ + in_quotes("bytes"@) + ":"@))) by {
        reveal_strlit("\",\"bytes\":");
        reveal_strlit(",");
        reveal_strlit("bytes");
        reveal_strlit(":");
        reveal_strlit("\"");
    }
}

#[verifier::rlimit(40)]
proof fn lemma_clip_text(name: Seq<char>, bytes: nat)
    ensures
        clip_saved_text(name, bytes) == object(written(clip_fields(name, bytes))),
{
    let fs = clip_fields(name, bytes);
    lemma_clip_literals();
    assert(fs[0] == ("ok"@, Value::Bare("true"@)));
    let b0 = "{"@ + in_quotes("ok"@) + ":"@;
    assert(fs[1] == ("name"@, Value::Text(escaped(name))));
    let b1 = ","@ + in_quotes("name"@) + ":"@;
    assert(fs[2] == ("bytes"@, Value::Bare(dec(bytes))));
    let b2 = ","@ + in_quotes("bytes"@) + ":"@;
    let q0 = "{\"ok\":true,\"name\":\""@;
    lemma_first(fs, b0);
    assert(q0 == so_far(fs, 1) + ((","@ + in_quotes("name"@) + ":"@) + "\""@));
    lemma_more(fs, 1, b1);
    let q1 = q0 + escaped(name) + "\",\"bytes\":"@;
    lemma_quoted_between(so_far(fs, 1), b1 + "\""@, b1, escaped(name), "\",\"bytes\":"@, (","@ + in_quotes("bytes"@) + ":"@));
    assert(q1 == so_far(fs, 2) + ((","@ + in_quotes("bytes"@) + ":"@)));
    lemma_more(fs, 2, b2);
    let q2 = q1 + dec(bytes) + "}"@;
    assert(q2 == so_far(fs, 3) + ("}"@));
    lemma_whole(fs);
    assert(q2 == clip_saved_text(name, bytes));
}

#[verifier::rlimit(40)]
proof fn lemma_clip_tellable(name: Seq<char>, bytes: nat)
    requires
        is_quotable(escaped(name)) && escaped(name) != "bytes"@,
    ensures
        tellable(clip_fields(name, bytes), 3),
        clip_fields(name, bytes)[0].1.is_read_back(),
        clip_fields(name, bytes)[1].1.is_read_back(),
        clip_fields(name, bytes)[2].1.is_read_back(),
{
    let fs = clip_fields(name, bytes);
    lemma_clip_keys();
    lemma_numeral_bare(bytes);
    reveal_strlit("true");
    assert(fs[0] == ("ok"@, Value::Bare("true"@)));
    assert(fs[1] == ("name"@, Value::Text(escaped(name))));
    assert(fs[2] == ("bytes"@, Value::Bare(dec(bytes))));
    assert(apart(fs, "ok"@, 0)) by {
        reveal_with_fuel(apart, 1);
    }
    assert(apart(fs, "name"@, 1)) by {
        reveal_with_fuel(apart, 2);
    }
    assert(apart(fs, "bytes"@, 2)) by {
        reveal_with_fuel(apart, 3);
    }
    reveal_with_fuel(tellable, 4);
}

/// The answer to a clip gives its name and its size.
pub proof fn law_clip_answer(name: Seq<char>, bytes: nat)
    requires
        is_quotable(escaped(name)) && escaped(name) != "bytes"@,
    ensures
        field_of(clip_saved_text(name, bytes), "ok"@) == Some("true"@),
        field_of(clip_saved_text(name, bytes), "name"@) == Some(escaped(name)),
        field_of(clip_saved_text(name, bytes), "bytes"@) == Some(dec(bytes)),
{
    let fs = clip_fields(name, bytes);
    lemma_clip_text(name, bytes);
    lemma_clip_tellable(name, bytes);
    lemma_field(fs, 0);
    lemma_field(fs, 1);
    lemma_field(fs, 2);
}

spec fn sample_fields(s: (u64, Seq<char>)) -> Seq<(Seq<char>, Value)> {
    seq![
        ("name"@, Value::Text(escaped(s.1))),
        ("ts"@, Value::Bare(dec(s.0 as nat))),
    ]
}

proof fn lemma_sample_keys()
    ensures
        is_key("name"@),
        is_key("ts"@),
        "name"@ != "ts"@,
{
    reveal_strlit("name");
    reveal_strlit("ts");
    assert("name"@.len() == 4);
    assert("ts"@.len() == 2);
}

proof fn lemma_sample_literals()
    ensures
        "{\"name\":\""@ == ("{"@ + in_quotes("name"@) + ":"@) + "\""@,
        "\",\"ts\":"@ == "\""@ + ((","@ + in_quotes("ts"@) + ":"@)),
{
    assert("{\"name\":\""@ =~= ("{"@ + in_quotes("name"@) + ":"@) + "\""@) by {
        reveal_strlit("{\"name\":\"");
        reveal_strlit("{");
        reveal_strlit("name");
        reveal_strlit(":");
        reveal_strlit("\"");
    }
    assert("\",\"ts\":"@ =~= "\""@ + ((","@ + in_quotes("ts"@) + ":"@))) by {
        reveal_strlit("\",\"ts\":");
        reveal_strlit(",");
        reveal_strlit("ts");
        reveal_strlit(":");
        reveal_strlit("\"");
    }
}

#[verifier::rlimit(40)]
proof fn lemma_sample_text(s: (u64, Seq<char>))
    ensures
        sample_text(s) == object(written(sample_fields(s))),
{
    let fs = sample_fields(s);
    lemma_sample_literals();
    assert(fs[0] == ("name"@, Value::Text(escaped(s.1))));
    let b0 = "{"@ + in_quotes("name"@) + ":"@;
    assert(fs[1] == ("ts"@, Value::Bare(dec(s.0 as nat))));
    let b1 = ","@ + in_quotes("ts"@) + ":"@;
    let q0 = "{\"name\":\""@;
    lemma_first(fs, b0);
    let q1 = q0 + escaped(s.1) + "\",\"ts\":"@;
    lemma_quoted_first(b0 + "\""@, b0, escaped(s.1), "\",\"ts\":"@, (","@ + in_quotes("ts"@) + ":"@));
    assert(q1 == so_far(fs, 1) + ((","@ + in_quotes("ts"@) + ":"@)));
    lemma_more(fs, 1, b1);
    let q2 = q1 + dec(s.0 as nat) + "}"@;
    assert(q2 == so_far(fs, 2) + ("}"@));
    lemma_whole(fs);
    assert(q2 == sample_text(s));
}

#[verifier::rlimit(40)]
proof fn lemma_sample_tellable(s: (u64, Seq<char>))
    requires
        is_quotable(escaped(s.1)) && escaped(s.1) != "ts"@,
    ensures
        tellable(sample_fields(s), 2),
        sample_fields(s)[0].1.is_read_back(),
        sample_fields(s)[1].1.is_read_back(),
{
    let fs = sample_fields(s);
    lemma_sample_keys();
    lemma_numeral_bare(s.0 as nat);
    assert(fs[0] == ("name"@, Value::Text(escaped(s.1))));
    assert(fs[1] == ("ts"@, Value::Bare(dec(s.0 as nat))));
    assert(apart(fs, "name"@, 0)) by {
        reveal_with_fuel(apart, 1);
    }
    assert(apart(fs, "ts"@, 1)) by {
        reveal_with_fuel(apart, 2);
    }
    reveal_with_fuel(tellable, 3);
}

/// A sample is reported with its name and its time.
pub proof fn law_sample_reads_back(s: (u64, Seq<char>))
    requires
        is_quotable(escaped(s.1)) && escaped(s.1) != "ts"@,
    ensures
        field_of(sample_text(s), "name"@) == Some(escaped(s.1)),
        field_of(sample_text(s), "ts"@) == Some(dec(s.0 as nat)),
{
    let fs = sample_fields(s);
    lemma_sample_text(s);
    lemma_sample_tellable(s);
    lemma_field(fs, 0);
    lemma_field(fs, 1);
}

spec fn dec_or_none(o: Option<u32>) -> Option<Seq<char>> {
    match o {
        Some(n) => Some(dec(n as nat)),
        None => None,
    }
}

spec fn pending_fields(c: PendingCropView) -> Seq<(Seq<char>, Value)> {
    seq![
        ("name"@, Value::Text(escaped(c.name))),
        ("ts"@, Value::Bare(dec(c.ts as nat))),
        ("vendor_pet_id"@, bare_or_null(dec_or_none(c.vendor_pet_id))),
        ("guess"@, Value::Raw(
            match c.guess {
                Some(g) => guess_text(g),
                None => "null"@,
            },
        )),
    ]
}

proof fn lemma_pending_keys()
    ensures
        is_key("name"@),
        is_key("ts"@),
        is_key("vendor_pet_id"@),
        is_key("guess"@),
        "name"@ != "ts"@ && "name"@ != "vendor_pet_id"@ && "name"@ != "guess"@,
        "ts"@ != "vendor_pet_id"@ && "ts"@ != "guess"@,
        "vendor_pet_id"@ != "guess"@,
{
    reveal_strlit("name");
    reveal_strlit("ts");
    reveal_strlit("vendor_pet_id");
    reveal_strlit("guess");
    assert("name"@.len() == 4);
    assert("ts"@.len() == 2);
    assert("vendor_pet_id"@.len() == 13);
    assert("guess"@.len() == 5);
}

proof fn lemma_pending_literals()
    ensures
        "{\"name\":\""@ == ("{"@ + in_quotes("name"@) + ":"@) + "\""@,
        "\",\"ts\":"@ == "\""@ + ((","@ + in_quotes("ts"@) + ":"@)),
        ",\"vendor_pet_id\":"@ == (","@ + in_quotes("vendor_pet_id"@) + ":"@),
        ",\"guess\":"@ == (","@ + in_quotes("guess"@) + ":"@),
{
    assert("{\"name\":\""@ =~= ("{"@ + in_quotes("name"@) + ":"@) + "\""@) by {
        reveal_strlit("{\"name\":\"");
        reveal_strlit("{");
        reveal_strlit("name");
        reveal_strlit(":");
        reveal_strlit("\"");
    }
    assert("\",\"ts\":"@ =~= "\""@ + ((","@ + in_quotes("ts"@) + ":"@))) by {
        reveal_strlit("\",\"ts\":");
        reveal_strlit(",");
        reveal_strlit("ts");
        reveal_strlit(":");
        reveal_strlit("\"");
    }
    assert(",\"vendor_pet_id\":"@ =~= (","@ + in_quotes("vendor_pet_id"@) + ":"@)) by {
        reveal_strlit(",\"vendor_pet_id\":");
        reveal_strlit(",");
        reveal_strlit("vendor_pet_id");
        reveal_strlit(":");
        reveal_strlit("\"");
    }
    assert(",\"guess\":"@ =~= (","@ + in_quotes("guess"@) + ":"@)) by {
        reveal_strlit(",\"guess\":");
        reveal_strlit(",");
        reveal_strlit("guess");
        reveal_strlit(":");
        reveal_strlit("\"");
    }
}

#[verifier::rlimit(40)]
proof fn lemma_pending_text(c: PendingCropView)
    ensures
        pending_text(c) == object(written(pending_fields(c))),
{
    let fs = pending_fields(c);
    lemma_pending_literals();
    assert(fs[0] == ("name"@, Value::Text(escaped(c.name))));
    let b0 = "{"@ + in_quotes("name"@) + ":"@;
    assert(fs[1] == ("ts"@, Value::Bare(dec(c.ts as nat))));
    let b1 = ","@ + in_quotes("ts"@) + ":"@;
    assert(fs[2] == ("vendor_pet_id"@, bare_or_null(dec_or_none(c.vendor_pet_id))));
    let b2 = ","@ + in_quotes("vendor_pet_id"@) + ":"@;
    assert(fs[3] == ("guess"@, Value::Raw(
            match c.guess {
                Some(g) => guess_text(g),
                None => "null"@,
            },
        )));
    let b3 = ","@ + in_quotes("guess"@) + ":"@;
    let q0 = "{\"name\":\""@;
    lemma_first(fs, b0);
    let q1 = q0 + escaped(c.name) + "\",\"ts\":"@;
    lemma_quoted_first(b0 + "\""@, b0, escaped(c.name), "\",\"ts\":"@, (","@ + in_quotes("ts"@) + ":"@));
    assert(q1 == so_far(fs, 1) + ((","@ + in_quotes("ts"@) + ":"@)));
    lemma_more(fs, 1, b1);
    let q2 = q1 + dec(c.ts as nat) + ",\"vendor_pet_id\":"@;
    assert(q2 == so_far(fs, 2) + ((","@ + in_quotes("vendor_pet_id"@) + ":"@)));
    lemma_more(fs, 2, b2);
    let q3 = q2 + (match c.vendor_pet_id {
        Some(n) => dec(n as nat),
        None => "null"@,
    }) + ",\"guess\":"@;
    assert(q3 == so_far(fs, 3) + ((","@ + in_quotes("guess"@) + ":"@)));
    lemma_more(fs, 3, b3);
    let q4 = q3 + (match c.guess {
        Some(g) => guess_text(g),
        None => "null"@,
    }) + "}"@;
    assert(q4 == so_far(fs, 4) + ("}"@));
    lemma_whole(fs);
    assert(q4 == pending_text(c));
}

#[verifier::rlimit(40)]
proof fn lemma_pending_tellable(c: PendingCropView)
    requires
        is_quotable(escaped(c.name)) && escaped(c.name) != "ts"@ && escaped(c.name) != "vendor_pet_id"@ && escaped(c.name) != "guess"@,
    ensures
        tellable(pending_fields(c), 4),
        pending_fields(c)[0].1.is_read_back(),
        pending_fields(c)[1].1.is_read_back(),
        pending_fields(c)[2].1.is_read_back(),
{
    let fs = pending_fields(c);
    lemma_pending_keys();
    lemma_numeral_bare(c.ts as nat);
    lemma_null_bare();
    if let Some(n) = c.vendor_pet_id {
        lemma_numeral_bare(n as nat);
    }
    assert(fs[0] == ("name"@, Value::Text(escaped(c.name))));
    assert(fs[1] == ("ts"@, Value::Bare(dec(c.ts as nat))));
    assert(fs[2] == ("vendor_pet_id"@, bare_or_null(dec_or_none(c.vendor_pet_id))));
    assert(fs[3] == ("guess"@, Value::Raw(
            match c.guess {
                Some(g) => guess_text(g),
                None => "null"@,
            },
        )));
    assert(apart(fs, "name"@, 0)) by {
        reveal_with_fuel(apart, 1);
    }
    assert(apart(fs, "ts"@, 1)) by {
        reveal_with_fuel(apart, 2);
    }
    assert(apart(fs, "vendor_pet_id"@, 2)) by {
        reveal_with_fuel(apart, 3);
    }
    assert(apart(fs, "guess"@, 3)) by {
        reveal_with_fuel(apart, 4);
    }
    reveal_with_fuel(tellable, 5);
}

/// A crop that waits is reported with its name, its time and the pet that the vendor saw.
pub proof fn law_pending_crop_reads_back(c: PendingCropView)
    requires
        is_quotable(escaped(c.name)) && escaped(c.name) != "ts"@ && escaped(c.name) != "vendor_pet_id"@ && escaped(c.name) != "guess"@,
    ensures
        field_of(pending_text(c), "name"@) == Some(escaped(c.name)),
        field_of(pending_text(c), "ts"@) == Some(dec(c.ts as nat)),
        field_of(pending_text(c), "vendor_pet_id"@) == Some(match c.vendor_pet_id {
            Some(n) => dec(n as nat),
            None => "null"@,
        }),
{
    let fs = pending_fields(c);
    lemma_pending_text(c);
    lemma_pending_tellable(c);
    lemma_field(fs, 0);
    lemma_field(fs, 1);
    lemma_field(fs, 2);
}

spec fn current_pending_fields(name: Seq<char>) -> Seq<(Seq<char>, Value)> {
    seq![
        ("status"@, Value::Text("pending"@)),
        ("name"@, Value::Text(escaped(name))),
        ("cat"@, Value::Bare("null"@)),
    ]
}

proof fn lemma_current_pending_keys()
    ensures
        is_key("status"@),
        is_key("name"@),
        is_key("cat"@),
        "status"@ != "name"@ && "status"@ != "cat"@,
        "name"@ != "cat"@,
{
    reveal_strlit("status");
    reveal_strlit("name");
    reveal_strlit("cat");
    assert("status"@.len() == 6);
    assert("name"@.len() == 4);
    assert("cat"@.len() == 3);
}

proof fn lemma_current_pending_literals()
    ensures
        "{\"status\":\"pending\",\"name\":\""@ == ("{"@ + in_quotes("status"@) + ":"@) + in_quotes("pending"@) + ((","@ + in_quotes("name"@) + ":"@) + "\""@),
        "\",\"cat\":null}"@ == "\""@ + ((","@ + in_quotes("cat"@) + ":"@) + "null"@ + ("}"@)),
{
    assert("{\"status\":\"pending\",\"name\":\""@ =~= ("{"@ + in_quotes("status"@) + ":"@) + in_quotes("pending"@) + ((","@ + in_quotes("name"@) + ":"@) + "\""@)) by {
        reveal_strlit("{\"status\":\"pending\",\"name\":\"");
        reveal_strlit("{");
        reveal_strlit("status");
        reveal_strlit(":");
        reveal_strlit("\"");
        reveal_strlit("pending");
        reveal_strlit(",");
        reveal_strlit("name");
    }
    assert("\",\"cat\":null}"@ =~= "\""@ + ((","@ + in_quotes("cat"@) + ":"@) + "null"@ + ("}"@))) by {
        reveal_strlit("\",\"cat\":null}");
        reveal_strlit(",");
        reveal_strlit("cat");
        reveal_strlit(":");
        reveal_strlit("\"");
        reveal_strlit("null");
        reveal_strlit("}");
    }
}

#[verifier::rlimit(40)]
proof fn lemma_current_pending_text(name: Seq<char>)
    ensures
        current_info_text(Some(FaceTargetView::Pending(name))) == object(written(current_pending_fields(name))),
{
    let fs = current_pending_fields(name);
    lemma_current_pending_literals();
    assert(fs[0] == ("status"@, Value::Text("pending"@)));
    let b0 = "{"@ + in_quotes("status"@) + ":"@;
    assert(fs[1] == ("name"@, Value::Text(escaped(name))));
    let b1 = ","@ + in_quotes("name"@) + ":"@;
    assert(fs[2] == ("cat"@, Value::Bare("null"@)));
    let b2 = ","@ + in_quotes("cat"@) + ":"@;
    let q0 = "{\"status\":\"pending\",\"name\":\""@;
    lemma_first(fs, b0);
    assert(q0 == so_far(fs, 1) + ((","@ + in_quotes("name"@) + ":"@) + "\""@));
    lemma_more(fs, 1, b1);
    let q1 = q0 + escaped(name) + "\",\"cat\":null}"@;
    lemma_quoted_between(so_far(fs, 1), b1 + "\""@, b1, escaped(name), "\",\"cat\":null}"@, (","@ + in_quotes("cat"@) + ":"@) + "null"@ + ("}"@));
    assert(q1 == so_far(fs, 2) + ((","@ + in_quotes("cat"@) + ":"@) + "null"@ + ("}"@)));
    lemma_more(fs, 2, b2);
    lemma_in_one_piece(so_far(fs, 2), b2, "null"@, "}"@);
    assert(q1 == so_far(fs, 3) + ("}"@));
    lemma_whole(fs);
    assert(q1 == current_info_text(Some(FaceTargetView::Pending(name))));
}

#[verifier::rlimit(40)]
proof fn lemma_current_pending_tellable(name: Seq<char>)
    requires
        is_quotable(escaped(name)) && escaped(name) != "cat"@,
    ensures
        tellable(current_pending_fields(name), 3),
        current_pending_fields(name)[0].1.is_read_back(),
        current_pending_fields(name)[1].1.is_read_back(),
        current_pending_fields(name)[2].1.is_read_back(),
{
    let fs = current_pending_fields(name);
    lemma_current_pending_keys();
    assert("pending"@.len() == 7) by {
        reveal_strlit("pending");
    }
    reveal_strlit("name");
    reveal_strlit("cat");
    reveal_strlit("pending");
    reveal_strlit("null");
    assert(fs[0] == ("status"@, Value::Text("pending"@)));
    assert(fs[1] == ("name"@, Value::Text(escaped(name))));
    assert(fs[2] == ("cat"@, Value::Bare("null"@)));
    assert(apart(fs, "status"@, 0)) by {
        reveal_with_fuel(apart, 1);
    }
    assert(apart(fs, "name"@, 1)) by {
        reveal_with_fuel(apart, 2);
    }
    assert(apart(fs, "cat"@, 2)) by {
        reveal_with_fuel(apart, 3);
    }
    reveal_with_fuel(tellable, 4);
}

/// A crop that waits is reported as such, with its name and no cat.
pub proof fn law_current_pending(name: Seq<char>)
    requires
        is_quotable(escaped(name)) && escaped(name) != "cat"@,
    ensures
        field_of(current_info_text(Some(FaceTargetView::Pending(name))), "status"@) == Some("pending"@),
        field_of(current_info_text(Some(FaceTargetView::Pending(name))), "name"@) == Some(escaped(name)),
        field_of(current_info_text(Some(FaceTargetView::Pending(name))), "cat"@) == Some("null"@),
{
    let fs = current_pending_fields(name);
    lemma_current_pending_text(name);
    lemma_current_pending_tellable(name);
    lemma_field(fs, 0);
    lemma_field(fs, 1);
    lemma_field(fs, 2);
}

spec fn current_labelled_fields(cat: Seq<char>, name: Seq<char>) -> Seq<(Seq<char>, Value)> {
    seq![
        ("status"@, Value::Text("labelled"@)),
        ("name"@, Value::Text(escaped(name))),
        ("cat"@, Value::Text(escaped(cat))),
    ]
}

proof fn lemma_current_labelled_keys()
    ensures
        is_key("status"@),
        is_key("name"@),
        is_key("cat"@),
        "status"@ != "name"@ && "status"@ != "cat"@,
        "name"@ != "cat"@,
{
    reveal_strlit("status");
    reveal_strlit("name");
    reveal_strlit("cat");
    assert("status"@.len() == 6);
    assert("name"@.len() == 4);
    assert("cat"@.len() == 3);
}

proof fn lemma_current_labelled_literals()
    ensures
        "{\"status\":\"labelled\",\"name\":\""@ == ("{"@ + in_quotes("status"@) + ":"@) + in_quotes("labelled"@) + ((","@ + in_quotes("name"@) + ":"@) + "\""@),
        "\",\"cat\":\""@ == "\""@ + ((","@ + in_quotes("cat"@) + ":"@) + "\""@),
        "\"}"@ == "\""@ + ("}"@),
{
    assert("{\"status\":\"labelled\",\"name\":\""@ =~= ("{"@ + in_quotes("status"@) + ":"@) + in_quotes("labelled"@) + ((","@ + in_quotes("name"@) + ":"@) + "\""@)) by {
        reveal_strlit("{\"status\":\"labelled\",\"name\":\"");
        reveal_strlit("{");
        reveal_strlit("status");
        reveal_strlit(":");
        reveal_strlit("\"");
        reveal_strlit("labelled");
        reveal_strlit(",");
        reveal_strlit("name");
    }
    assert("\",\"cat\":\""@ =~= "\""@ + ((","@ + in_quotes("cat"@) + ":"@) + "\""@)) by {
        reveal_strlit("\",\"cat\":\"");
        reveal_strlit(",");
        reveal_strlit("cat");
        reveal_strlit(":");
        reveal_strlit("\"");
    }
    assert("\"}"@ =~= "\""@ + ("}"@)) by {
        reveal_strlit("\"}");
        reveal_strlit("}");
        reveal_strlit("\"");
    }
}

#[verifier::rlimit(40)]
proof fn lemma_current_labelled_text(cat: Seq<char>, name: Seq<char>)
    ensures
        current_info_text(Some(FaceTargetView::Labelled(cat, name))) == object(written(current_labelled_fields(cat, name))),
{
    let fs = current_labelled_fields(cat, name);
    lemma_current_labelled_literals();
    assert(fs[0] == ("status"@, Value::Text("labelled"@)));
    let b0 = "{"@ + in_quotes("status"@) + ":"@;
    assert(fs[1] == ("name"@, Value::Text(escaped(name))));
    let b1 = ","@ + in_quotes("name"@) + ":"@;
    assert(fs[2] == ("cat"@, Value::Text(escaped(cat))));
    let b2 = ","@ + in_quotes("cat"@) + ":"@;
    let q0 = "{\"status\":\"labelled\",\"name\":\""@;
    lemma_first(fs, b0);
    assert(q0 == so_far(fs, 1) + ((","@ + in_quotes("name"@) + ":"@) + "\""@));
    lemma_more(fs, 1, b1);
    let q1 = q0 + escaped(name) + "\",\"cat\":\""@;
    lemma_quoted_between(so_far(fs, 1), b1 + "\""@, b1, escaped(name), "\",\"cat\":\""@, (","@ + in_quotes("cat"@) + ":"@) + "\""@);
    assert(q1 == so_far(fs, 2) + ((","@ + in_quotes("cat"@) + ":"@) + "\""@));
    lemma_more(fs, 2, b2);
    let q2 = q1 + escaped(cat) + "\"}"@;
    lemma_quoted_between(so_far(fs, 2), b2 + "\""@, b2, escaped(cat), "\"}"@, "}"@);
    assert(q2 == so_far(fs, 3) + ("}"@));
    lemma_whole(fs);
    assert(q2 == current_info_text(Some(FaceTargetView::Labelled(cat, name))));
}

#[verifier::rlimit(40)]
proof fn lemma_current_labelled_tellable(cat: Seq<char>, name: Seq<char>)
    requires
        is_quotable(escaped(name)) && escaped(name) != "cat"@,
        is_quotable(escaped(cat)),
    ensures
        tellable(current_labelled_fields(cat, name), 3),
        current_labelled_fields(cat, name)[0].1.is_read_back(),
        current_labelled_fields(cat, name)[1].1.is_read_back(),
        current_labelled_fields(cat, name)[2].1.is_read_back(),
{
    let fs = current_labelled_fields(cat, name);
    lemma_current_labelled_keys();
    assert("labelled"@.len() == 8) by {
        reveal_strlit("labelled");
    }
    reveal_strlit("name");
    reveal_strlit("cat");
    reveal_strlit("labelled");
    assert(fs[0] == ("status"@, Value::Text("labelled"@)));
    assert(fs[1] == ("name"@, Value::Text(escaped(name))));
    assert(fs[2] == ("cat"@, Value::Text(escaped(cat))));
    assert(apart(fs, "status"@, 0)) by {
        reveal_with_fuel(apart, 1);
    }
    assert(apart(fs, "name"@, 1)) by {
        reveal_with_fuel(apart, 2);
    }
    assert(apart(fs, "cat"@, 2)) by {
        reveal_with_fuel(apart, 3);
    }
    reveal_with_fuel(tellable, 4);
}

/// A labelled crop is reported as such, with its name and its cat.
pub proof fn law_current_labelled(cat: Seq<char>, name: Seq<char>)
    requires
        is_quotable(escaped(name)) && escaped(name) != "cat"@,
        is_quotable(escaped(cat)),
    ensures
        field_of(current_info_text(Some(FaceTargetView::Labelled(cat, name))), "status"@) == Some("labelled"@),
        field_of(current_info_text(Some(FaceTargetView::Labelled(cat, name))), "name"@) == Some(escaped(name)),
        field_of(current_info_text(Some(FaceTargetView::Labelled(cat, name))), "cat"@) == Some(escaped(cat)),
{
    let fs = current_labelled_fields(cat, name);
    lemma_current_labelled_text(cat, name);
    lemma_current_labelled_tellable(cat, name);
    lemma_field(fs, 0);
    lemma_field(fs, 1);
    lemma_field(fs, 2);
}

spec fn audio_status_fields(enabled: bool, last: Option<PlaybackStats>) -> Seq<(Seq<char>, Value)> {
    seq![
        ("enabled"@, Value::Bare(bool_text(enabled))),
        ("last_session"@, Value::Raw(
            match last {
                Some(st) => st.text(),
                None => "null"@,
            },
        )),
    ]
}

proof fn lemma_audio_status_keys()
    ensures
        is_key("enabled"@),
        is_key("last_session"@),
        "enabled"@ != "last_session"@,
{
    reveal_strlit("enabled");
    reveal_strlit("last_session");
    assert("enabled"@.len() == 7);
    assert("last_session"@.len() == 12);
}

proof fn lemma_audio_status_literals()
    ensures
        "{\"enabled\":"@ == ("{"@ + in_quotes("enabled"@) + ":"@),
        ",\"last_session\":"@ == (","@ + in_quotes("last_session"@) + ":"@),
{
    assert("{\"enabled\":"@ =~= ("{"@ + in_quotes("enabled"@) + ":"@)) by {
        reveal_strlit("{\"enabled\":");
        reveal_strlit("{");
        reveal_strlit("enabled");
        reveal_strlit(":");
        reveal_strlit("\"");
    }
    assert(",\"last_session\":"@ =~= (","@ + in_quotes("last_session"@) + ":"@)) by {
        reveal_strlit(",\"last_session\":");
        reveal_strlit(",");
        reveal_strlit("last_session");
        reveal_strlit(":");
        reveal_strlit("\"");
    }
}

#[verifier::rlimit(40)]
proof fn lemma_audio_status_text(enabled: bool, last: Option<PlaybackStats>)
    ensures
        audio_status_text(enabled, last) == object(written(audio_status_fields(enabled, last))),
{
    let fs = audio_status_fields(enabled, last);
    lemma_audio_status_literals();
    assert(fs[0] == ("enabled"@, Value::Bare(bool_text(enabled))));
    let b0 = "{"@ + in_quotes("enabled"@) + ":"@;
    assert(fs[1] == ("last_session"@, Value::Raw(
            match last {
                Some(st) => st.text(),
                None => "null"@,
            },
        )));
    let b1 = ","@ + in_quotes("last_session"@) + ":"@;
    let q0 = "{\"enabled\":"@;
    lemma_first(fs, b0);
    let q1 = q0 + bool_text(enabled) + ",\"last_session\":"@;
    assert(q1 == so_far(fs, 1) + ((","@ + in_quotes("last_session"@) + ":"@)));
    lemma_more(fs, 1, b1);
    let q2 = q1 + (match last {
        Some(st) => st.text(),
        None => "null"@,
    }) + "}"@;
    assert(q2 == so_far(fs, 2) + ("}"@));
    lemma_whole(fs);
    assert(q2 == audio_status_text(enabled, last));
}

#[verifier::rlimit(40)]
proof fn lemma_audio_status_tellable(enabled: bool, last: Option<PlaybackStats>)
    ensures
        tellable(audio_status_fields(enabled, last), 2),
        audio_status_fields(enabled, last)[0].1.is_read_back(),
{
    let fs = audio_status_fields(enabled, last);
    lemma_audio_status_keys();
    lemma_truth_bare(enabled);
    assert(fs[0] == ("enabled"@, Value::Bare(bool_text(enabled))));
    assert(fs[1] == ("last_session"@, Value::Raw(
            match last {
                Some(st) => st.text(),
                None => "null"@,
            },
        )));
    assert(apart(fs, "enabled"@, 0)) by {
        reveal_with_fuel(apart, 1);
    }
    assert(apart(fs, "last_session"@, 1)) by {
        reveal_with_fuel(apart, 2);
    }
    reveal_with_fuel(tellable, 3);
}

/// Whether audio is on is found in the status, whatever the last session did.
pub proof fn law_audio_status(enabled: bool, last: Option<PlaybackStats>)
    ensures
        field_of(audio_status_text(enabled, last), "enabled"@) == Some(bool_text(enabled)),
{
    let fs = audio_status_fields(enabled, last);
    lemma_audio_status_text(enabled, last);
    lemma_audio_status_tellable(enabled, last);
    lemma_field(fs, 0);
}

spec fn playback_fields(st: PlaybackStats) -> Seq<(Seq<char>, Value)> {
    seq![
        ("frames_written"@, Value::Bare(dec(st.frames_written as nat))),
        ("frames_played"@, Value::Bare(dec(st.frames_played as nat))),
        ("silence_frames"@, Value::Bare(dec(st.silence_frames as nat))),
        ("max_lag_frames"@, Value::Bare(dec(st.max_lag_frames as nat))),
        ("aborted_call_active"@, Value::Bare(bool_text(st.aborted_call_active))),
    ]
}

proof fn lemma_playback_keys()
    ensures
        is_key("frames_written"@),
        is_key("frames_played"@),
        is_key("silence_frames"@),
        is_key("max_lag_frames"@),
        is_key("aborted_call_active"@),
        "frames_written"@ != "frames_played"@ && "frames_written"@ != "silence_frames"@ && "frames_written"@ != "max_lag_frames"@ && "frames_written"@ != "aborted_call_active"@,
        "frames_played"@ != "silence_frames"@ && "frames_played"@ != "max_lag_frames"@ && "frames_played"@ != "aborted_call_active"@,
        "silence_frames"@ != "max_lag_frames"@ && "silence_frames"@ != "aborted_call_active"@,
        "max_lag_frames"@ != "aborted_call_active"@,
{
    reveal_strlit("frames_written");
    reveal_strlit("frames_played");
    reveal_strlit("silence_frames");
    reveal_strlit("max_lag_frames");
    reveal_strlit("aborted_call_active");
    assert("frames_written"@.len() == 14);
    assert("frames_played"@.len() == 13);
    assert("silence_frames"@.len() == 14);
    assert("max_lag_frames"@.len() == 14);
    assert("aborted_call_active"@.len() == 19);
    assert("frames_written"@[0] == 'f');
    assert("silence_frames"@[0] == 's');
    assert("max_lag_frames"@[0] == 'm');
}

proof fn lemma_playback_literals()
    ensures
        "{\"frames_written\":"@ == ("{"@ + in_quotes("frames_written"@) + ":"@),
        ",\"frames_played\":"@ == (","@ + in_quotes("frames_played"@) + ":"@),
        ",\"silence_frames\":"@ == (","@ + in_quotes("silence_frames"@) + ":"@),
        ",\"max_lag_frames\":"@ == (","@ + in_quotes("max_lag_frames"@) + ":"@),
        ",\"aborted_call_active\":"@ == (","@ + in_quotes("aborted_call_active"@) + ":"@),
{
    assert("{\"frames_written\":"@ =~= ("{"@ + in_quotes("frames_written"@) + ":"@)) by {
        reveal_strlit("{\"frames_written\":");
        reveal_strlit("{");
        reveal_strlit("frames_written");
        reveal_strlit(":");
        reveal_strlit("\"");
    }
    assert(",\"frames_played\":"@ =~= (","@ + in_quotes("frames_played"@) + ":"@)) by {
        reveal_strlit(",\"frames_played\":");
        reveal_strlit(",");
        reveal_strlit("frames_played");
        reveal_strlit(":");
        reveal_strlit("\"");
    }
    assert(",\"silence_frames\":"@ =~= (","@ + in_quotes("silence_frames"@) + ":"@)) by {
        reveal_strlit(",\"silence_frames\":");
        reveal_strlit(",");
        reveal_strlit("silence_frames");
        reveal_strlit(":");
        reveal_strlit("\"");
    }
    assert(",\"max_lag_frames\":"@ =~= (","@ + in_quotes("max_lag_frames"@) + ":"@)) by {
        reveal_strlit(",\"max_lag_frames\":");
        reveal_strlit(",");
        reveal_strlit("max_lag_frames");
        reveal_strlit(":");
        reveal_strlit("\"");
    }
    assert(",\"aborted_call_active\":"@ =~= (","@ + in_quotes("aborted_call_active"@) + ":"@)) by {
        reveal_strlit(",\"aborted_call_active\":");
        reveal_strlit(",");
        reveal_strlit("aborted_call_active");
        reveal_strlit(":");
        reveal_strlit("\"");
    }
}

#[verifier::rlimit(40)]
proof fn lemma_playback_text(st: PlaybackStats)
    ensures
        st.text() == object(written(playback_fields(st))),
{
    let fs = playback_fields(st);
    lemma_playback_literals();
    assert(fs[0] == ("frames_written"@, Value::Bare(dec(st.frames_written as nat))));
    let b0 = "{"@ + in_quotes("frames_written"@) + ":"@;
    assert(fs[1] == ("frames_played"@, Value::Bare(dec(st.frames_played as nat))));
    let b1 = ","@ + in_quotes("frames_played"@) + ":"@;
    assert(fs[2] == ("silence_frames"@, Value::Bare(dec(st.silence_frames as nat))));
    let b2 = ","@ + in_quotes("silence_frames"@) + ":"@;
    assert(fs[3] == ("max_lag_frames"@, Value::Bare(dec(st.max_lag_frames as nat))));
    let b3 = ","@ + in_quotes("max_lag_frames"@) + ":"@;
    assert(fs[4] == ("aborted_call_active"@, Value::Bare(bool_text(st.aborted_call_active))));
    let b4 = ","@ + in_quotes("aborted_call_active"@) + ":"@;
    let q0 = "{\"frames_written\":"@;
    lemma_first(fs, b0);
    let q1 = q0 + dec(st.frames_written as nat) + ",\"frames_played\":"@;
    assert(q1 == so_far(fs, 1) + ((","@ + in_quotes("frames_played"@) + ":"@)));
    lemma_more(fs, 1, b1);
    let q2 = q1 + dec(st.frames_played as nat) + ",\"silence_frames\":"@;
    assert(q2 == so_far(fs, 2) + ((","@ + in_quotes("silence_frames"@) + ":"@)));
    lemma_more(fs, 2, b2);
    let q3 = q2 + dec(st.silence_frames as nat) + ",\"max_lag_frames\":"@;
    assert(q3 == so_far(fs, 3) + ((","@ + in_quotes("max_lag_frames"@) + ":"@)));
    lemma_more(fs, 3, b3);
    let q4 = q3 + dec(st.max_lag_frames as nat) + ",\"aborted_call_active\":"@;
    assert(q4 == so_far(fs, 4) + ((","@ + in_quotes("aborted_call_active"@) + ":"@)));
    lemma_more(fs, 4, b4);
    let q5 = q4 + bool_text(st.aborted_call_active) + "}"@;
    assert(q5 == so_far(fs, 5) + ("}"@));
    lemma_whole(fs);
    assert(q5 == st.text());
}

#[verifier::rlimit(40)]
proof fn lemma_playback_tellable(st: PlaybackStats)
    ensures
        tellable(playback_fields(st), 5),
        playback_fields(st)[0].1.is_read_back(),
        playback_fields(st)[1].1.is_read_back(),
        playback_fields(st)[2].1.is_read_back(),
        playback_fields(st)[3].1.is_read_back(),
        playback_fields(st)[4].1.is_read_back(),
{
    let fs = playback_fields(st);
    lemma_playback_keys();
    lemma_numeral_bare(st.frames_written as nat);
    lemma_numeral_bare(st.frames_played as nat);
    lemma_numeral_bare(st.silence_frames as nat);
    lemma_numeral_bare(st.max_lag_frames as nat);
    lemma_truth_bare(st.aborted_call_active);
    assert(fs[0] == ("frames_written"@, Value::Bare(dec(st.frames_written as nat))));
    assert(fs[1] == ("frames_played"@, Value::Bare(dec(st.frames_played as nat))));
    assert(fs[2] == ("silence_frames"@, Value::Bare(dec(st.silence_frames as nat))));
    assert(fs[3] == ("max_lag_frames"@, Value::Bare(dec(st.max_lag_frames as nat))));
    assert(fs[4] == ("aborted_call_active"@, Value::Bare(bool_text(st.aborted_call_active))));
    assert(apart(fs, "frames_written"@, 0)) by {
        reveal_with_fuel(apart, 1);
    }
    assert(apart(fs, "frames_played"@, 1)) by {
        reveal_with_fuel(apart, 2);
    }
    assert(apart(fs, "silence_frames"@, 2)) by {
        reveal_with_fuel(apart, 3);
    }
    assert(apart(fs, "max_lag_frames"@, 3)) by {
        reveal_with_fuel(apart, 4);
    }
    assert(apart(fs, "aborted_call_active"@, 4)) by {
        reveal_with_fuel(apart, 5);
    }
    reveal_with_fuel(tellable, 6);
}

/// Each count of a playback is found under its own name.
pub proof fn law_playback_reads_back(st: PlaybackStats)
    ensures
        field_of(st.text(), "frames_written"@) == Some(dec(st.frames_written as nat)),
        field_of(st.text(), "frames_played"@) == Some(dec(st.frames_played as nat)),
        field_of(st.text(), "silence_frames"@) == Some(dec(st.silence_frames as nat)),
        field_of(st.text(), "max_lag_frames"@) == Some(dec(st.max_lag_frames as nat)),
        field_of(st.text(), "aborted_call_active"@) == Some(bool_text(st.aborted_call_active)),
{
    let fs = playback_fields(st);
    lemma_playback_text(st);
    lemma_playback_tellable(st);
    lemma_field(fs, 0);
    lemma_field(fs, 1);
    lemma_field(fs, 2);
    lemma_field(fs, 3);
    lemma_field(fs, 4);
}

spec fn labelled_identity_fields(cat: Seq<char>, name: Seq<char>, ts: Option<u64>) -> Seq<(Seq<char>, Value)> {
    seq![
        ("cat"@, Value::Text(escaped(cat))),
        ("score"@, Value::Bare("null"@)),
        ("second_best"@, Value::Bare("null"@)),
        ("crop"@, Value::Text(escaped(name))),
        ("source"@, Value::Text("labelled"@)),
        ("ts"@, Value::Bare(opt_dec(ts))),
    ]
}

proof fn lemma_labelled_identity_keys()
    ensures
        is_key("cat"@),
        is_key("score"@),
        is_key("second_best"@),
        is_key("crop"@),
        is_key("source"@),
        is_key("ts"@),
        "cat"@ != "score"@ && "cat"@ != "second_best"@ && "cat"@ != "crop"@ && "cat"@ != "source"@ && "cat"@ != "ts"@,
        "score"@ != "second_best"@ && "score"@ != "crop"@ && "score"@ != "source"@ && "score"@ != "ts"@,
        "second_best"@ != "crop"@ && "second_best"@ != "source"@ && "second_best"@ != "ts"@,
        "crop"@ != "source"@ && "crop"@ != "ts"@,
        "source"@ != "ts"@,
{
    reveal_strlit("cat");
    reveal_strlit("score");
    reveal_strlit("second_best");
    reveal_strlit("crop");
    reveal_strlit("source");
    reveal_strlit("ts");
    assert("cat"@.len() == 3);
    assert("score"@.len() == 5);
    assert("second_best"@.len() == 11);
    assert("crop"@.len() == 4);
    assert("source"@.len() == 6);
    assert("ts"@.len() == 2);
}

proof fn lemma_labelled_identity_literals()
    ensures
        "{\"cat\":\""@ == ("{"@ + in_quotes("cat"@) + ":"@) + "\""@,
        "\",\"score\":null,\"second_best\":null,\"crop\":\""@ == "\""@ + ((","@ + in_quotes("score"@) + ":"@) + "null"@ + ((","@ + in_quotes("second_best"@) + ":"@) + "null"@ + ((","@ + in_quotes("crop"@) + ":"@) + "\""@))),
        "\",\"source\":\""@ == "\""@ + ((","@ + in_quotes("source"@) + ":"@) + "\""@),
        "\",\"ts\":"@ == "\""@ + ((","@ + in_quotes("ts"@) + ":"@)),
{
    assert("{\"cat\":\""@ =~= ("{"@ + in_quotes("cat"@) + ":"@) + "\""@) by {
        reveal_strlit("{\"cat\":\"");
        reveal_strlit("{");
        reveal_strlit("cat");
        reveal_strlit(":");
        reveal_strlit("\"");
    }
    assert("\",\"score\":null,\"second_best\":null,\"crop\":\""@ =~= "\""@ + ((","@ + in_quotes("score"@) + ":"@) + "null"@ + ((","@ + in_quotes("second_best"@) + ":"@) + "null"@ + ((","@ + in_quotes("crop"@) + ":"@) + "\""@)))) by {
        reveal_strlit("\",\"score\":null,\"second_best\":null,\"crop\":\"");
        reveal_strlit(",");
        reveal_strlit("score");
        reveal_strlit(":");
        reveal_strlit("\"");
        reveal_strlit("null");
        reveal_strlit("second_best");
        reveal_strlit("crop");
    }
    assert("\",\"source\":\""@ =~= "\""@ + ((","@ + in_quotes("source"@) + ":"@) + "\""@)) by {
        reveal_strlit("\",\"source\":\"");
        reveal_strlit(",");
        reveal_strlit("source");
        reveal_strlit(":");
        reveal_strlit("\"");
    }
    assert("\",\"ts\":"@ =~= "\""@ + ((","@ + in_quotes("ts"@) + ":"@))) by {
        reveal_strlit("\",\"ts\":");
        reveal_strlit(",");
        reveal_strlit("ts");
        reveal_strlit(":");
        reveal_strlit("\"");
    }
}

#[verifier::rlimit(40)]
proof fn lemma_labelled_identity_text(cat: Seq<char>, name: Seq<char>, ts: Option<u64>)
    ensures
        labelled_identity_text(cat, name, ts) == object(written(labelled_identity_fields(cat, name, ts))),
{
    let fs = labelled_identity_fields(cat, name, ts);
    lemma_labelled_identity_literals();
    assert(fs[0] == ("cat"@, Value::Text(escaped(cat))));
    let b0 = "{"@ + in_quotes("cat"@) + ":"@;
    assert(fs[1] == ("score"@, Value::Bare("null"@)));
    let b1 = ","@ + in_quotes("score"@) + ":"@;
    assert(fs[2] == ("second_best"@, Value::Bare("null"@)));
    let b2 = ","@ + in_quotes("second_best"@) + ":"@;
    assert(fs[3] == ("crop"@, Value::Text(escaped(name))));
    let b3 = ","@ + in_quotes("crop"@) + ":"@;
    assert(fs[4] == ("source"@, Value::Text("labelled"@)));
    let b4 = ","@ + in_quotes("source"@) + ":"@;
    assert(fs[5] == ("ts"@, Value::Bare(opt_dec(ts))));
    let b5 = ","@ + in_quotes("ts"@) + ":"@;
    let q0 = "{\"cat\":\""@;
    lemma_first(fs, b0);
    let q1 = q0 + escaped(cat) + "\",\"score\":null,\"second_best\":null,\"crop\":\""@;
    lemma_quoted_first(b0 + "\""@, b0, escaped(cat), "\",\"score\":null,\"second_best\":null,\"crop\":\""@, (","@ + in_quotes("score"@) + ":"@) + "null"@ + ((","@ + in_quotes("second_best"@) + ":"@) + "null"@ + ((","@ + in_quotes("crop"@) + ":"@) + "\""@)));
    assert(q1 == so_far(fs, 1) + ((","@ + in_quotes("score"@) + ":"@) + "null"@ + ((","@ + in_quotes("second_best"@) + ":"@) + "null"@ + ((","@ + in_quotes("crop"@) + ":"@) + "\""@))));
    lemma_more(fs, 1, b1);
    lemma_in_one_piece(so_far(fs, 1), b1, "null"@, (","@ + in_quotes("second_best"@) + ":"@) + "null"@ + ((","@ + in_quotes("crop"@) + ":"@) + "\""@));
    assert(q1 == so_far(fs, 2) + ((","@ + in_quotes("second_best"@) + ":"@) + "null"@ + ((","@ + in_quotes("crop"@) + ":"@) + "\""@)));
    lemma_more(fs, 2, b2);
    lemma_in_one_piece(so_far(fs, 2), b2, "null"@, (","@ + in_quotes("crop"@) + ":"@) + "\""@);
    assert(q1 == so_far(fs, 3) + ((","@ + in_quotes("crop"@) + ":"@) + "\""@));
    lemma_more(fs, 3, b3);
    let q2 = q1 + escaped(name) + "\",\"source\":\""@;
    lemma_quoted_between(so_far(fs, 3), b3 + "\""@, b3, escaped(name), "\",\"source\":\""@, (","@ + in_quotes("source"@) + ":"@) + "\""@);
    assert(q2 == so_far(fs, 4) + ((","@ + in_quotes("source"@) + ":"@) + "\""@));
    lemma_more(fs, 4, b4);
    let q3 = q2 + "labelled"@ + "\",\"ts\":"@;
    lemma_quoted_between(so_far(fs, 4), b4 + "\""@, b4, "labelled"@, "\",\"ts\":"@, (","@ + in_quotes("ts"@) + ":"@));
    assert(q3 == so_far(fs, 5) + ((","@ + in_quotes("ts"@) + ":"@)));
    lemma_more(fs, 5, b5);
    let q4 = q3 + opt_dec(ts) + "}"@;
    assert(q4 == so_far(fs, 6) + ("}"@));
    lemma_whole(fs);
    assert("\",\"score\":null,\"second_best\":null,\"crop\":\""@
        =~= "\",\"score\":null,\"second_best\":null"@ + ",\"crop\":\""@) by {
        reveal_strlit("\",\"score\":null,\"second_best\":null,\"crop\":\"");
        reveal_strlit("\",\"score\":null,\"second_best\":null");
        reveal_strlit(",\"crop\":\"");
    }
    assert(q4 =~= labelled_identity_text(cat, name, ts));
}

#[verifier::rlimit(40)]
proof fn lemma_labelled_identity_tellable(cat: Seq<char>, name: Seq<char>, ts: Option<u64>)
    requires
        is_quotable(escaped(cat)) && escaped(cat) != "score"@ && escaped(cat) != "second_best"@ && escaped(cat) != "crop"@ && escaped(cat) != "source"@ && escaped(cat) != "ts"@,
        is_quotable(escaped(name)) && escaped(name) != "source"@ && escaped(name) != "ts"@,
    ensures
        tellable(labelled_identity_fields(cat, name, ts), 6),
        labelled_identity_fields(cat, name, ts)[0].1.is_read_back(),
        labelled_identity_fields(cat, name, ts)[1].1.is_read_back(),
        labelled_identity_fields(cat, name, ts)[2].1.is_read_back(),
        labelled_identity_fields(cat, name, ts)[3].1.is_read_back(),
        labelled_identity_fields(cat, name, ts)[4].1.is_read_back(),
        labelled_identity_fields(cat, name, ts)[5].1.is_read_back(),
{
    let fs = labelled_identity_fields(cat, name, ts);
    lemma_labelled_identity_keys();
    lemma_null_bare();
    if let Some(n) = ts {
        lemma_numeral_bare(n as nat);
    }
    assert(is_quotable("labelled"@) && "labelled"@.len() == 8) by {
        reveal_strlit("labelled");
    }
    assert("ts"@.len() == 2) by {
        reveal_strlit("ts");
    }
    reveal_strlit("null");
    reveal_strlit("null");
    assert(fs[0] == ("cat"@, Value::Text(escaped(cat))));
    assert(fs[1] == ("score"@, Value::Bare("null"@)));
    assert(fs[2] == ("second_best"@, Value::Bare("null"@)));
    assert(fs[3] == ("crop"@, Value::Text(escaped(name))));
    assert(fs[4] == ("source"@, Value::Text("labelled"@)));
    assert(fs[5] == ("ts"@, Value::Bare(opt_dec(ts))));
    assert(apart(fs, "cat"@, 0)) by {
        reveal_with_fuel(apart, 1);
    }
    assert(apart(fs, "score"@, 1)) by {
        reveal_with_fuel(apart, 2);
    }
    assert(apart(fs, "second_best"@, 2)) by {
        reveal_with_fuel(apart, 3);
    }
    assert(apart(fs, "crop"@, 3)) by {
        reveal_with_fuel(apart, 4);
    }
    assert(apart(fs, "source"@, 4)) by {
        reveal_with_fuel(apart, 5);
    }
    assert(apart(fs, "ts"@, 5)) by {
        reveal_with_fuel(apart, 6);
    }
    reveal_with_fuel(tellable, 7);
}

/// A labelled crop is reported with its cat, its name, where that is known from, and its time.
pub proof fn law_labelled_identity(cat: Seq<char>, name: Seq<char>, ts: Option<u64>)
    requires
        is_quotable(escaped(cat)) && escaped(cat) != "score"@ && escaped(cat) != "second_best"@ && escaped(cat) != "crop"@ && escaped(cat) != "source"@ && escaped(cat) != "ts"@,
        is_quotable(escaped(name)) && escaped(name) != "source"@ && escaped(name) != "ts"@,
    ensures
        field_of(labelled_identity_text(cat, name, ts), "cat"@) == Some(escaped(cat)),
        field_of(labelled_identity_text(cat, name, ts), "score"@) == Some("null"@),
        field_of(labelled_identity_text(cat, name, ts), "second_best"@) == Some("null"@),
        field_of(labelled_identity_text(cat, name, ts), "crop"@) == Some(escaped(name)),
        field_of(labelled_identity_text(cat, name, ts), "source"@) == Some("labelled"@),
        field_of(labelled_identity_text(cat, name, ts), "ts"@) == Some(match ts {
            Some(n) => dec(n as nat),
            None => "null"@,
        }),
{
    let fs = labelled_identity_fields(cat, name, ts);
    lemma_labelled_identity_text(cat, name, ts);
    lemma_labelled_identity_tellable(cat, name, ts);
    lemma_field(fs, 0);
    lemma_field(fs, 1);
    lemma_field(fs, 2);
    lemma_field(fs, 3);
    lemma_field(fs, 4);
    lemma_field(fs, 5);
}

spec fn second_text(second: Option<Guess>) -> Seq<char> {
    match opt_guess(second) {
        Some(g) => guess_text(g),
        None => "null"@,
    }
}

spec fn known_identity_fields(best: Guess, second: Option<Guess>, name: Seq<char>, ts: Option<u64>) -> Seq<(Seq<char>, Value)> {
    seq![
        ("cat"@, Value::Text(escaped(best.cat@))),
        ("score"@, Value::Bare(best.score@)),
        ("second_best"@, Value::Raw(second_text(second))),
        ("crop"@, Value::Text(escaped(name))),
        ("source"@, Value::Text("classifier"@)),
        ("ts"@, Value::Bare(opt_dec(ts))),
    ]
}

proof fn lemma_known_identity_keys()
    ensures
        is_key("cat"@),
        is_key("score"@),
        is_key("second_best"@),
        is_key("crop"@),
        is_key("source"@),
        is_key("ts"@),
        "cat"@ != "score"@ && "cat"@ != "second_best"@ && "cat"@ != "crop"@ && "cat"@ != "source"@ && "cat"@ != "ts"@,
        "score"@ != "second_best"@ && "score"@ != "crop"@ && "score"@ != "source"@ && "score"@ != "ts"@,
        "second_best"@ != "crop"@ && "second_best"@ != "source"@ && "second_best"@ != "ts"@,
        "crop"@ != "source"@ && "crop"@ != "ts"@,
        "source"@ != "ts"@,
{
    reveal_strlit("cat");
    reveal_strlit("score");
    reveal_strlit("second_best");
    reveal_strlit("crop");
    reveal_strlit("source");
    reveal_strlit("ts");
    assert("cat"@.len() == 3);
    assert("score"@.len() == 5);
    assert("second_best"@.len() == 11);
    assert("crop"@.len() == 4);
    assert("source"@.len() == 6);
    assert("ts"@.len() == 2);
}

proof fn lemma_known_identity_literals()
    ensures
        "{\"cat\":\""@ == ("{"@ + in_quotes("cat"@) + ":"@) + "\""@,
        "\",\"score\":"@ == "\""@ + ((","@ + in_quotes("score"@) + ":"@)),
        ",\"second_best\":"@ == (","@ + in_quotes("second_best"@) + ":"@),
        ",\"crop\":\""@ == (","@ + in_quotes("crop"@) + ":"@) + "\""@,
        "\",\"source\":\""@ == "\""@ + ((","@ + in_quotes("source"@) + ":"@) + "\""@),
        "\",\"ts\":"@ == "\""@ + ((","@ + in_quotes("ts"@) + ":"@)),
{
    assert("{\"cat\":\""@ =~= ("{"@ + in_quotes("cat"@) + ":"@) + "\""@) by {
        reveal_strlit("{\"cat\":\"");
        reveal_strlit("{");
        reveal_strlit("cat");
        reveal_strlit(":");
        reveal_strlit("\"");
    }
    assert("\",\"score\":"@ =~= "\""@ + ((","@ + in_quotes("score"@) + ":"@))) by {
        reveal_strlit("\",\"score\":");
        reveal_strlit(",");
        reveal_strlit("score");
        reveal_strlit(":");
        reveal_strlit("\"");
    }
    assert(",\"second_best\":"@ =~= (","@ + in_quotes("second_best"@) + ":"@)) by {
        reveal_strlit(",\"second_best\":");
        reveal_strlit(",");
        reveal_strlit("second_best");
        reveal_strlit(":");
        reveal_strlit("\"");
    }
    assert(",\"crop\":\""@ =~= (","@ + in_quotes("crop"@) + ":"@) + "\""@) by {
        reveal_strlit(",\"crop\":\"");
        reveal_strlit(",");
        reveal_strlit("crop");
        reveal_strlit(":");
        reveal_strlit("\"");
    }
    assert("\",\"source\":\""@ =~= "\""@ + ((","@ + in_quotes("source"@) + ":"@) + "\""@)) by {
        reveal_strlit("\",\"source\":\"");
        reveal_strlit(",");
        reveal_strlit("source");
        reveal_strlit(":");
        reveal_strlit("\"");
    }
    assert("\",\"ts\":"@ =~= "\""@ + ((","@ + in_quotes("ts"@) + ":"@))) by {
        reveal_strlit("\",\"ts\":");
        reveal_strlit(",");
        reveal_strlit("ts");
        reveal_strlit(":");
        reveal_strlit("\"");
    }
}

#[verifier::rlimit(40)]
proof fn lemma_known_identity_text(best: Guess, second: Option<Guess>, name: Seq<char>, ts: Option<u64>)
    ensures
        identify_text(Verdict::Known { best, second_best: second }, name, ts) == object(written(known_identity_fields(best, second, name, ts))),
{
    let fs = known_identity_fields(best, second, name, ts);
    lemma_known_identity_literals();
    assert(fs[0] == ("cat"@, Value::Text(escaped(best.cat@))));
    let b0 = "{"@ + in_quotes("cat"@) + ":"@;
    assert(fs[1] == ("score"@, Value::Bare(best.score@)));
    let b1 = ","@ + in_quotes("score"@) + ":"@;
    assert(fs[2] == ("second_best"@, Value::Raw(second_text(second))));
    let b2 = ","@ + in_quotes("second_best"@) + ":"@;
    assert(fs[3] == ("crop"@, Value::Text(escaped(name))));
    let b3 = ","@ + in_quotes("crop"@) + ":"@;
    assert(fs[4] == ("source"@, Value::Text("classifier"@)));
    let b4 = ","@ + in_quotes("source"@) + ":"@;
    assert(fs[5] == ("ts"@, Value::Bare(opt_dec(ts))));
    let b5 = ","@ + in_quotes("ts"@) + ":"@;
    let q0 = "{\"cat\":\""@;
    lemma_first(fs, b0);
    let q1 = q0 + escaped(best.cat@) + "\",\"score\":"@;
    lemma_quoted_first(b0 + "\""@, b0, escaped(best.cat@), "\",\"score\":"@, (","@ + in_quotes("score"@) + ":"@));
    assert(q1 == so_far(fs, 1) + ((","@ + in_quotes("score"@) + ":"@)));
    lemma_more(fs, 1, b1);
    let q2 = q1 + best.score@ + ",\"second_best\":"@;
    assert(q2 == so_far(fs, 2) + ((","@ + in_quotes("second_best"@) + ":"@)));
    lemma_more(fs, 2, b2);
    let q3 = q2 + (match opt_guess(second) {
        Some(g) => guess_text(g),
        None => "null"@,
    }) + ",\"crop\":\""@;
    assert(q3 == so_far(fs, 3) + ((","@ + in_quotes("crop"@) + ":"@) + "\""@));
    lemma_more(fs, 3, b3);
    let q4 = q3 + escaped(name) + "\",\"source\":\""@;
    lemma_quoted_between(so_far(fs, 3), b3 + "\""@, b3, escaped(name), "\",\"source\":\""@, (","@ + in_quotes("source"@) + ":"@) + "\""@);
    assert(q4 == so_far(fs, 4) + ((","@ + in_quotes("source"@) + ":"@) + "\""@));
    lemma_more(fs, 4, b4);
    let q5 = q4 + "classifier"@ + "\",\"ts\":"@;
    lemma_quoted_between(so_far(fs, 4), b4 + "\""@, b4, "classifier"@, "\",\"ts\":"@, (","@ + in_quotes("ts"@) + ":"@));
    assert(q5 == so_far(fs, 5) + ((","@ + in_quotes("ts"@) + ":"@)));
    lemma_more(fs, 5, b5);
    let q6 = q5 + opt_dec(ts) + "}"@;
    assert(q6 == so_far(fs, 6) + ("}"@));
    lemma_whole(fs);
    assert(q6 =~= identify_text(Verdict::Known { best, second_best: second }, name, ts));
}

#[verifier::rlimit(40)]
proof fn lemma_known_identity_tellable(best: Guess, second: Option<Guess>, name: Seq<char>, ts: Option<u64>)
    requires
        is_quotable(escaped(best.cat@)) && escaped(best.cat@) != "score"@ && escaped(best.cat@) != "second_best"@ && escaped(best.cat@) != "crop"@ && escaped(best.cat@) != "source"@ && escaped(best.cat@) != "ts"@,
        is_bare(best.score@),
        is_quotable(escaped(name)) && escaped(name) != "source"@ && escaped(name) != "ts"@,
        second matches Some(g) ==> clear_of(guess_text(g@), "crop"@) && clear_of(guess_text(g@), "source"@)
            && clear_of(guess_text(g@), "ts"@),
    ensures
        tellable(known_identity_fields(best, second, name, ts), 6),
        known_identity_fields(best, second, name, ts)[0].1.is_read_back(),
        known_identity_fields(best, second, name, ts)[1].1.is_read_back(),
        known_identity_fields(best, second, name, ts)[3].1.is_read_back(),
        known_identity_fields(best, second, name, ts)[4].1.is_read_back(),
        known_identity_fields(best, second, name, ts)[5].1.is_read_back(),
{
    let fs = known_identity_fields(best, second, name, ts);
    lemma_known_identity_keys();
    lemma_null_bare();
    if let Some(n) = ts {
        lemma_numeral_bare(n as nat);
    }
    lemma_clear_unquoted("null"@, "crop"@);
    lemma_clear_unquoted("null"@, "source"@);
    lemma_clear_unquoted("null"@, "ts"@);
    assert(is_quotable("classifier"@) && "classifier"@.len() == 10) by {
        reveal_strlit("classifier");
    }
    assert("ts"@.len() == 2) by {
        reveal_strlit("ts");
    }
    assert(fs[0] == ("cat"@, Value::Text(escaped(best.cat@))));
    assert(fs[1] == ("score"@, Value::Bare(best.score@)));
    assert(fs[2] == ("second_best"@, Value::Raw(second_text(second))));
    assert(fs[3] == ("crop"@, Value::Text(escaped(name))));
    assert(fs[4] == ("source"@, Value::Text("classifier"@)));
    assert(fs[5] == ("ts"@, Value::Bare(opt_dec(ts))));
    assert(apart(fs, "cat"@, 0)) by {
        reveal_with_fuel(apart, 1);
    }
    assert(apart(fs, "score"@, 1)) by {
        reveal_with_fuel(apart, 2);
    }
    assert(apart(fs, "second_best"@, 2)) by {
        reveal_with_fuel(apart, 3);
    }
    assert(apart(fs, "crop"@, 3)) by {
        reveal_with_fuel(apart, 4);
    }
    assert(apart(fs, "source"@, 4)) by {
        reveal_with_fuel(apart, 5);
    }
    assert(apart(fs, "ts"@, 5)) by {
        reveal_with_fuel(apart, 6);
    }
    reveal_with_fuel(tellable, 7);
}

/// Who the classifier takes a crop to show is reported with the score of the best match. What stands
/// for the next best must not be taken for what follows it.
pub proof fn law_known_identity(best: Guess, second: Option<Guess>, name: Seq<char>, ts: Option<u64>)
    requires
        is_quotable(escaped(best.cat@)) && escaped(best.cat@) != "score"@ && escaped(best.cat@) != "second_best"@ && escaped(best.cat@) != "crop"@ && escaped(best.cat@) != "source"@ && escaped(best.cat@) != "ts"@,
        is_bare(best.score@),
        is_quotable(escaped(name)) && escaped(name) != "source"@ && escaped(name) != "ts"@,
        second matches Some(g) ==> clear_of(guess_text(g@), "crop"@) && clear_of(guess_text(g@), "source"@)
            && clear_of(guess_text(g@), "ts"@),
    ensures
        field_of(identify_text(Verdict::Known { best, second_best: second }, name, ts), "cat"@) == Some(escaped(best.cat@)),
        field_of(identify_text(Verdict::Known { best, second_best: second }, name, ts), "score"@) == Some(best.score@),
        field_of(identify_text(Verdict::Known { best, second_best: second }, name, ts), "crop"@) == Some(escaped(name)),
        field_of(identify_text(Verdict::Known { best, second_best: second }, name, ts), "source"@) == Some("classifier"@),
        field_of(identify_text(Verdict::Known { best, second_best: second }, name, ts), "ts"@) == Some(match ts {
            Some(n) => dec(n as nat),
            None => "null"@,
        }),
{
    let fs = known_identity_fields(best, second, name, ts);
    lemma_known_identity_text(best, second, name, ts);
    lemma_known_identity_tellable(best, second, name, ts);
    lemma_field(fs, 0);
    lemma_field(fs, 1);
    lemma_field(fs, 3);
    lemma_field(fs, 4);
    lemma_field(fs, 5);
}

/// The end of the state gives the number of starts, the time of the last and the last exit code,
/// where the state of the device itself does not use their names.
pub proof fn law_state_tells_of_this_process(base: Seq<char>, h: Health, code: Option<i32>)
    requires
        base.len() > 1,
        clear_of(base.drop_last(), "kibbled_start_count"@),
        clear_of(base.drop_last(), "kibbled_last_start_unix"@),
        clear_of(base.drop_last(), "kibbled_last_exit_code"@),
    ensures
        field_of(state_text(base, h, code), "kibbled_start_count"@) == Some(dec(h.start_count as nat)),
        field_of(state_text(base, h, code), "kibbled_last_start_unix"@) == Some(
            dec(h.last_start_unix as nat),
        ),
        field_of(state_text(base, h, code), "kibbled_last_exit_code"@) == Some(
            match code {
                Some(c) => dec_int(c as int),
                None => "null"@,
            },
        ),
{
    lemma_state_keys();
    lemma_numeral_bare(h.start_count as nat);
    lemma_numeral_bare(h.last_start_unix as nat);
    lemma_null_bare();
    if let Some(c) = code {
        crate::reports::lemma_integer_bare(c as int);
    }
    let d = base.drop_last();
    let (n1, n2, n3) = (dec(h.start_count as nat), dec(h.last_start_unix as nat), exit_text(code));
    let (k1, k2, k3) = (
        "kibbled_start_count"@,
        "kibbled_last_start_unix"@,
        "kibbled_last_exit_code"@,
    );
    lemma_state_pieces(base, h, code);
    let s1 = d + ","@;
    let s2 = s1 + member(k1, n1) + ","@;
    lemma_after_comma(d, k1);
    lemma_after_comma(d, k2);
    lemma_after_comma(d, k3);
    lemma_after_member(s1, k1, n1, k2);
    lemma_after_member(s1, k1, n1, k3);
    lemma_after_member(s2, k2, n2, k3);
    let e3 = "}"@;
    let e2 = ","@ + member(k3, n3) + e3;
    let e1 = ","@ + member(k2, n2) + e2;
    assert(e1[0] == ',' && e2[0] == ',' && e3[0] == '}' && e3.len() == 1) by {
        reveal_strlit(",");
        reveal_strlit("}");
    }
    lemma_bare_field(s1, k1, n1, e1);
    lemma_bare_field(s2, k2, n2, e2);
    lemma_bare_field(s2 + member(k2, n2) + ","@, k3, n3, e3);
}

/// A comma is not part of a key.
proof fn lemma_after_comma(s: Seq<char>, key: Seq<char>)
    requires
        clear_of(s, key),
        is_key(key),
    ensures
        clear_of(s + ","@, key),
        ends_apart(s + ","@, key),
{
    reveal_strlit(",");
    lemma_clear_unquoted(","@, key);
    lemma_clear_concat(s, ","@, key);
}

proof fn lemma_after_member(s: Seq<char>, name: Seq<char>, v: Seq<char>, key: Seq<char>)
    requires
        clear_of(s, key),
        ends_apart(s, key),
        is_key(name),
        is_key(key),
        name != key,
        is_bare(v),
    ensures
        clear_of(s + member(name, v) + ","@, key),
        ends_apart(s + member(name, v) + ","@, key),
{
    lemma_clear_unquoted(v, key);
    lemma_member_clear(name, v, key);
    lemma_clear_concat(s, member(name, v), key);
    lemma_after_comma(s + member(name, v), key);
}

/// The state, taken apart before each of its last three fields.
proof fn lemma_state_pieces(base: Seq<char>, h: Health, code: Option<i32>)
    ensures
        ({
            let d = base.drop_last();
            let (n1, n2, n3) = (
                dec(h.start_count as nat),
                dec(h.last_start_unix as nat),
                exit_text(code),
            );
            let (k1, k2, k3) = (
                "kibbled_start_count"@,
                "kibbled_last_start_unix"@,
                "kibbled_last_exit_code"@,
            );
            let s1 = d + ","@;
            let s2 = s1 + member(k1, n1) + ","@;
            let s3 = s2 + member(k2, n2) + ","@;
            let e3 = "}"@;
            let e2 = ","@ + member(k3, n3) + e3;
            let e1 = ","@ + member(k2, n2) + e2;
            let t = state_text(base, h, code);
            &&& t == s1 + in_quotes(k1) + (":"@ + n1 + e1)
            &&& t == s2 + in_quotes(k2) + (":"@ + n2 + e2)
            &&& t == s3 + in_quotes(k3) + (":"@ + n3 + e3)
        }),
{
    lemma_state_literals();
    lemma_three_members(
        base.drop_last(),
        "kibbled_start_count"@,
        dec(h.start_count as nat),
        "kibbled_last_start_unix"@,
        dec(h.last_start_unix as nat),
        "kibbled_last_exit_code"@,
        exit_text(code),
    );
}

proof fn lemma_three_members(
    d: Seq<char>,
    k1: Seq<char>,
    n1: Seq<char>,
    k2: Seq<char>,
    n2: Seq<char>,
    k3: Seq<char>,
    n3: Seq<char>,
)
    ensures
        ({
            let t = d + (","@ + in_quotes(k1) + ":"@) + n1 + (","@ + in_quotes(k2) + ":"@) + n2 + (","@
                + in_quotes(k3) + ":"@) + n3 + "}"@;
            let s1 = d + ","@;
            let s2 = s1 + member(k1, n1) + ","@;
            let s3 = s2 + member(k2, n2) + ","@;
            let e3 = "}"@;
            let e2 = ","@ + member(k3, n3) + e3;
            let e1 = ","@ + member(k2, n2) + e2;
            &&& t == s1 + in_quotes(k1) + (":"@ + n1 + e1)
            &&& t == s2 + in_quotes(k2) + (":"@ + n2 + e2)
            &&& t == s3 + in_quotes(k3) + (":"@ + n3 + e3)
        }),
{
    let l1 = ","@ + in_quotes(k1) + ":"@;
    let l2 = ","@ + in_quotes(k2) + ":"@;
    let l3 = ","@ + in_quotes(k3) + ":"@;
    let e3 = "}"@;
    let e2 = ","@ + member(k3, n3) + e3;
    let e1 = ","@ + member(k2, n2) + e2;
    let x1 = d + l1 + n1;
    let x2 = x1 + l2 + n2;
    let t = x2 + l3 + n3 + e3;
    lemma_one_member(d, k1, n1, e1);
    lemma_one_member(x1, k2, n2, e2);
    lemma_one_member(x2, k3, n3, e3);
    lemma_rest(x2, k3, n3, e3);
    assert(t == x2 + e2);
    lemma_rest(x1, k2, n2, e2);
    assert(t == x1 + e1);
}

/// A member behind a comma, as its key, its value and what follows.
proof fn lemma_one_member(s: Seq<char>, k: Seq<char>, n: Seq<char>, rest: Seq<char>)
    ensures
        s + (","@ + in_quotes(k) + ":"@) + n + rest == s + ","@ + in_quotes(k) + (":"@ + n + rest),
        s + (","@ + in_quotes(k) + ":"@) + n == s + ","@ + member(k, n),
{
    assert(s + (","@ + in_quotes(k) + ":"@) + n + rest =~= s + ","@ + in_quotes(k) + (":"@ + n
        + rest));
    assert(s + (","@ + in_quotes(k) + ":"@) + n =~= s + ","@ + member(k, n));
}

proof fn lemma_rest(s: Seq<char>, k: Seq<char>, n: Seq<char>, rest: Seq<char>)
    ensures
        s + (","@ + in_quotes(k) + ":"@) + n + rest == s + (","@ + member(k, n) + rest),
{
    assert(s + (","@ + in_quotes(k) + ":"@) + n + rest =~= s + (","@ + member(k, n) + rest));
}

proof fn lemma_state_keys()
    ensures
        is_key("kibbled_start_count"@),
        is_key("kibbled_last_start_unix"@),
        is_key("kibbled_last_exit_code"@),
        "kibbled_start_count"@ != "kibbled_last_start_unix"@,
        "kibbled_start_count"@ != "kibbled_last_exit_code"@,
        "kibbled_last_start_unix"@ != "kibbled_last_exit_code"@,
{
    reveal_strlit("kibbled_start_count");
    reveal_strlit("kibbled_last_start_unix");
    reveal_strlit("kibbled_last_exit_code");
    assert("kibbled_start_count"@.len() == 19);
    assert("kibbled_last_start_unix"@.len() == 23);
    assert("kibbled_last_exit_code"@.len() == 22);
}

proof fn lemma_state_literals()
    ensures
        ",\"kibbled_start_count\":"@ == ","@ + in_quotes("kibbled_start_count"@) + ":"@,
        ",\"kibbled_last_start_unix\":"@ == ","@ + in_quotes("kibbled_last_start_unix"@) + ":"@,
        ",\"kibbled_last_exit_code\":"@ == ","@ + in_quotes("kibbled_last_exit_code"@) + ":"@,
{
    reveal_strlit(",");
    reveal_strlit(":");
    reveal_strlit("\"");
    assert(",\"kibbled_start_count\":"@ =~= ","@ + in_quotes("kibbled_start_count"@) + ":"@) by {
        reveal_strlit(",\"kibbled_start_count\":");
        reveal_strlit("kibbled_start_count");
    }
    assert(",\"kibbled_last_start_unix\":"@ =~= ","@ + in_quotes("kibbled_last_start_unix"@) + ":"@) by {
        reveal_strlit(",\"kibbled_last_start_unix\":");
        reveal_strlit("kibbled_last_start_unix");
    }
    assert(",\"kibbled_last_exit_code\":"@ =~= ","@ + in_quotes("kibbled_last_exit_code"@) + ":"@) by {
        reveal_strlit(",\"kibbled_last_exit_code\":");
        reveal_strlit("kibbled_last_exit_code");
    }
}

} // verus!
