//! The bodies that answer requests, and what errors are answered with.

use vstd::prelude::*;
use vstd::string::*;

use crate::ai::EventFileError;
use crate::audioout::PlaybackStats;
use crate::bus::FeedCtrl;
use crate::faces::store::UploadedSample;
use crate::faces::{
    guess_json, guess_text, opt_guess, pending_views, sample_views, FaceError, FaceErrorView,
    FaceTarget, FaceTargetView, Guess, PendingCrop, PendingCropView, Sample,
};
use crate::health::Health;
use crate::http::{Response, ResponseView};
use crate::json::{array_text, bool_str, bool_text, join, joined, string_texts};
use crate::number::{dec, dec_int, push_dec, push_dec_int};
use crate::persist::WriteError;
use crate::schedule::Error;
use crate::text::{char_len, escape_debug, escaped, take};

verus! {

/// A number, or `null`.
pub open spec fn opt_dec(o: Option<u64>) -> Seq<char> {
    match o {
        Some(n) => dec(n as nat),
        None => "null"@,
    }
}

fn push_opt(s: &mut String, o: Option<u64>)
    ensures
        final(s)@ == old(s)@ + opt_dec(o),
{
    match o {
        Some(n) => push_dec(s, n),
        None => s.append("null"),
    }
}

pub open spec fn exit_text(code: Option<i32>) -> Seq<char> {
    match code {
        Some(c) => dec_int(c as int),
        None => "null"@,
    }
}

/// The state of the device with what is known of this process at its end.
pub open spec fn state_text(base: Seq<char>, health: Health, exit_code: Option<i32>) -> Seq<char> {
    base.drop_last() + ",\"kibbled_start_count\":"@ + dec(health.start_count as nat)
        + ",\"kibbled_last_start_unix\":"@ + dec(health.last_start_unix as nat)
        + ",\"kibbled_last_exit_code\":"@ + exit_text(exit_code) + "}"@
}

/// The body of the state: that of the device, with what is known of this process at its end.
pub fn state_json(base: &str, health: &Health, exit_code: Option<i32>) -> (s: String)
    requires
        base@.len() > 0,
        (base@.last() as u32) < 128,
    ensures
        s@ == state_text(base@, *health, exit_code),
{
    let n: usize = char_len(base);
    let mut s: String = take(base, n - 1).to_owned();
    assert(s@ =~= base@.drop_last());
    s.append(",\"kibbled_start_count\":");
    push_dec(&mut s, health.start_count);
    s.append(",\"kibbled_last_start_unix\":");
    push_dec(&mut s, health.last_start_unix);
    s.append(",\"kibbled_last_exit_code\":");
    match exit_code {
        Some(c) => push_dec_int(&mut s, c as i64),
        None => s.append("null"),
    }
    s.append("}");
    s
}

/// Whether audio is on, and what the last session did.
pub open spec fn audio_status_text(enabled: bool, last: Option<PlaybackStats>) -> Seq<char> {
    "{\"enabled\":"@ + bool_text(enabled) + ",\"last_session\":"@ + (match last {
        Some(st) => st.text(),
        None => "null"@,
    }) + "}"@
}

/// The body that says whether audio is on, and what the last playback did.
pub fn audio_status_json(enabled: bool, last: Option<PlaybackStats>) -> (s: String)
    ensures
        s@ == audio_status_text(enabled, last),
{
    let mut s: String = "{\"enabled\":".to_owned();
    s.append(bool_str(enabled));
    s.append(",\"last_session\":");
    match last {
        Some(st) => s.append(st.to_json().as_str()),
        None => s.append("null"),
    }
    s.append("}");
    s
}

/// The body that confirms that audio was switched.
pub fn audio_written_json(enabled: bool) -> (s: String)
    ensures
        s@ == "{\"enabled\":"@ + bool_text(enabled) + "}"@,
{
    let mut s: String = "{\"enabled\":".to_owned();
    s.append(bool_str(enabled));
    s.append("}");
    s
}

/// A body, or the error that kept it from being made.
pub fn json_response(r: Result<String, String>) -> (x: Response)
    ensures
        x@ == (match r {
            Ok(json) => ResponseView::Json(json@),
            Err(e) => ResponseView::Error(e@),
        }),
{
    match r {
        Ok(json) => Response::Json(json),
        Err(e) => Response::Error(e),
    }
}

/// The answer to a request for an event's picture that failed.
pub fn event_error(e: &EventFileError) -> (x: Response)
    ensures
        x@ == (match e {
            EventFileError::InvalidName => ResponseView::BadRequest("invalid file name"@),
            EventFileError::NotFound => ResponseView::NotFound,
            EventFileError::Io(m) => ResponseView::Error(m@),
        }),
{
    match e {
        EventFileError::InvalidName => Response::BadRequest("invalid file name".to_owned()),
        EventFileError::NotFound => Response::NotFound,
        EventFileError::Io(m) => Response::Error(m.clone()),
    }
}

/// What a failed request for samples is answered with.
pub open spec fn sample_failure(e: FaceErrorView) -> ResponseView {
    match e {
        FaceErrorView::InvalidName => ResponseView::BadRequest("invalid file name"@),
        FaceErrorView::InvalidCat(_) => ResponseView::BadRequest("invalid cat"@),
        FaceErrorView::NotFound => ResponseView::NotFound,
        x => ResponseView::Error(x.text()),
    }
}

pub fn sample_error(e: &FaceError) -> (x: Response)
    ensures
        x@ == sample_failure(e@),
{
    match e {
        FaceError::InvalidName => Response::BadRequest("invalid file name".to_owned()),
        FaceError::InvalidCat(_) => Response::BadRequest("invalid cat".to_owned()),
        FaceError::NotFound => Response::NotFound,
        _ => Response::Error(e.message()),
    }
}

/// What a failed request to label or unlabel is answered with.
pub open spec fn label_failure(e: FaceErrorView) -> ResponseView {
    match e {
        FaceErrorView::InvalidName => ResponseView::BadRequest(e.text()),
        FaceErrorView::InvalidCat(_) => ResponseView::BadRequest(e.text()),
        FaceErrorView::NotFound => ResponseView::NotFound,
        x => ResponseView::Error(x.text()),
    }
}

pub fn label_error(e: &FaceError) -> (x: Response)
    ensures
        x@ == label_failure(e@),
{
    match e {
        FaceError::InvalidName => Response::BadRequest(e.message()),
        FaceError::InvalidCat(_) => Response::BadRequest(e.message()),
        FaceError::NotFound => Response::NotFound,
        _ => Response::Error(e.message()),
    }
}

/// What a failed request to take a photo in is answered with.
pub open spec fn upload_failure(e: FaceErrorView) -> ResponseView {
    match e {
        FaceErrorView::InvalidUpload(_) => ResponseView::BadRequest(e.text()),
        x => label_failure(x),
    }
}

pub fn upload_error(e: &FaceError) -> (x: Response)
    ensures
        x@ == upload_failure(e@),
{
    match e {
        FaceError::InvalidUpload(_) => Response::BadRequest(e.message()),
        _ => label_error(e),
    }
}

/// The answer to a photo that was taken in.
pub open spec fn uploaded_text(name: Seq<char>, samples: nat, low_quality: bool) -> Seq<char> {
    "{\"ok\":true,\"name\":\""@ + escaped(name) + "\",\"samples\":"@ + dec(samples)
        + ",\"low_quality\":"@ + bool_text(low_quality) + "}"@
}

/// The body that confirms a photo.
pub fn uploaded_json(u: &UploadedSample) -> (s: String)
    ensures
        s@ == uploaded_text(u.name@, u.samples as nat, u.low_quality),
{
    let mut s: String = "{\"ok\":true,\"name\":\"".to_owned();
    s.append(escape_debug(u.name.as_str()).as_str());
    s.append("\",\"samples\":");
    push_dec(&mut s, u.samples as u64);
    s.append(",\"low_quality\":");
    s.append(bool_str(u.low_quality));
    s.append("}");
    s
}

/// The answer to a request to add a cat that failed.
pub fn cat_error(e: &FaceError) -> (x: Response)
    ensures
        x@ == (match e@ {
            FaceErrorView::InvalidCat(_) => ResponseView::BadRequest(e@.text()),
            _ => ResponseView::Error(e@.text()),
        }),
{
    match e {
        FaceError::InvalidCat(_) => Response::BadRequest(e.message()),
        _ => Response::Error(e.message()),
    }
}

/// The answer to a setting that was not written.
pub fn write_error(e: &WriteError) -> (x: Response)
    ensures
        x@ == (match e {
            WriteError::UnknownKey => ResponseView::NotFound,
            WriteError::Io(m) => ResponseView::Error(m@),
            _ => ResponseView::BadRequest(e.text()),
        }),
{
    match e {
        WriteError::UnknownKey => Response::NotFound,
        WriteError::Io(m) => Response::Error(m.clone()),
        _ => Response::BadRequest(e.message()),
    }
}

/// The answer to a change of the schedule; `status` is its body where it was made.
pub fn schedule_result(result: Result<(), Error>, status: String) -> (x: Response)
    ensures
        x@ == (match result {
            Ok(_) => ResponseView::Json(status@),
            Err(Error::Invalid(m)) => ResponseView::BadRequest(m@),
            Err(Error::Internal(m)) => ResponseView::Error(m@),
        }),
{
    match result {
        Ok(_) => Response::Json(status),
        Err(Error::Invalid(m)) => Response::BadRequest(m),
        Err(Error::Internal(m)) => Response::Error(m),
    }
}

pub open spec fn notified_text(notified: Option<bool>) -> Seq<char> {
    match notified {
        Some(b) => bool_text(b),
        None => "null"@,
    }
}

/// The answer to a setting that was written.
pub open spec fn config_written_text(key: Seq<char>, value: u32, notified: Option<bool>) -> Seq<char> {
    "{\"ok\":true,\"key\":\""@ + key + "\",\"value\":"@ + dec(value as nat) + ",\"notified\":"@
        + notified_text(notified) + "}"@
}

/// The body that confirms a setting; `notified` says whether its owner was told, where there is one.
pub fn config_written_json(key: &str, value: u32, notified: Option<bool>) -> (s: String)
    ensures
        s@ == config_written_text(key@, value, notified),
{
    let mut s: String = "{\"ok\":true,\"key\":\"".to_owned();
    s.append(key);
    s.append("\",\"value\":");
    push_dec(&mut s, value as u64);
    s.append(",\"notified\":");
    match notified {
        Some(b) => s.append(bool_str(b)),
        None => s.append("null"),
    }
    s.append("}");
    s
}

/// The answer to an order to feed.
pub open spec fn fed_text(id: Seq<char>, amount1: u8, amount2: u8, cancel: bool) -> Seq<char> {
    "{\"ok\":true,\"id\":\""@ + escaped(id) + "\",\"amount1\":"@ + dec(amount1 as nat)
        + ",\"amount2\":"@ + dec(amount2 as nat) + ",\"cancel\":"@ + bool_text(cancel) + "}"@
}

/// The body that confirms a feed.
pub fn fed_json(f: &FeedCtrl) -> (s: String)
    ensures
        s@ == fed_text(f.id@, f.amount1, f.amount2, f.cancel),
{
    let mut s: String = "{\"ok\":true,\"id\":\"".to_owned();
    s.append(escape_debug(f.id.as_str()).as_str());
    s.append("\",\"amount1\":");
    push_dec(&mut s, f.amount1 as u64);
    s.append(",\"amount2\":");
    push_dec(&mut s, f.amount2 as u64);
    s.append(",\"cancel\":");
    s.append(bool_str(f.cancel));
    s.append("}");
    s
}

/// The error of a message that could not be sent.
pub fn bus_error(e: &str) -> (s: String)
    ensures
        s@ == "bus send failed: "@ + e@,
{
    let mut s: String = "bus send failed: ".to_owned();
    s.append(e);
    s
}

/// The answer to a label.
pub open spec fn labelled_text(name: Seq<char>, cat: Seq<char>) -> Seq<char> {
    "{\"ok\":true,\"name\":\""@ + escaped(name) + "\",\"cat\":\""@ + escaped(cat) + "\"}"@
}

/// The body that confirms a label, or that one was taken back.
pub fn labelled_json(name: &str, cat: &str) -> (s: String)
    ensures
        s@ == labelled_text(name@, cat@),
{
    let mut s: String = "{\"ok\":true,\"name\":\"".to_owned();
    s.append(escape_debug(name).as_str());
    s.append("\",\"cat\":\"");
    s.append(escape_debug(cat).as_str());
    s.append("\"}");
    s
}

/// The body that confirms a cat.
pub fn cat_added_json(name: &str) -> (s: String)
    ensures
        s@ == "{\"ok\":true,\"name\":\""@ + escaped(name@) + "\"}"@,
{
    let mut s: String = "{\"ok\":true,\"name\":\"".to_owned();
    s.append(escape_debug(name).as_str());
    s.append("\"}");
    s
}

/// A crop that waits, as it is reported.
pub open spec fn pending_text(c: PendingCropView) -> Seq<char> {
    "{\"name\":\""@ + escaped(c.name) + "\",\"ts\":"@ + dec(c.ts as nat) + ",\"vendor_pet_id\":"@ + (
    match c.vendor_pet_id {
        Some(n) => dec(n as nat),
        None => "null"@,
    }) + ",\"guess\":"@ + (match c.guess {
        Some(g) => guess_text(g),
        None => "null"@,
    }) + "}"@
}

pub fn pending_crop_json(c: &PendingCrop) -> (s: String)
    ensures
        s@ == pending_text(c@),
{
    let mut s: String = "{\"name\":\"".to_owned();
    s.append(escape_debug(c.name.as_str()).as_str());
    s.append("\",\"ts\":");
    push_dec(&mut s, c.ts);
    s.append(",\"vendor_pet_id\":");
    match c.vendor_pet_id {
        Some(n) => push_dec(&mut s, n as u64),
        None => s.append("null"),
    }
    s.append(",\"guess\":");
    match &c.guess {
        Some(g) => s.append(guess_json(g).as_str()),
        None => s.append("null"),
    }
    s.append("}");
    s
}

fn bracketed(parts: &Vec<String>) -> (s: String)
    ensures
        s@ == "["@ + joined(string_texts(parts@), ","@) + "]"@,
{
    let mut s: String = "[".to_owned();
    s.append(join(parts, ",").as_str());
    s.append("]");
    s
}

/// The report of all crops that wait.
pub open spec fn pendings_text(v: Seq<PendingCropView>) -> Seq<char> {
    array_text(v.map_values(|c: PendingCropView| pending_text(c)))
}

/// The body that lists the crops that wait.
pub fn faces_pending_json(crops: &Vec<PendingCrop>) -> (s: String)
    ensures
        s@ == pendings_text(pending_views(crops@)),
{
    let ghost want = pending_views(crops@).map_values(|c: PendingCropView| pending_text(c));
    let mut parts: Vec<String> = Vec::new();
    let mut i: usize = 0;
    while i < crops.len()
        invariant
            i <= crops@.len(),
            want == pending_views(crops@).map_values(|c: PendingCropView| pending_text(c)),
            parts@.len() == i,
            forall|j: int| 0 <= j < i ==> (#[trigger] parts@[j])@ == want[j],
        decreases crops@.len() - i,
    {
        assert(pending_views(crops@)[i as int] == crops@[i as int]@);
        parts.push(pending_crop_json(&crops[i]));
        i = i + 1;
    }
    assert(string_texts(parts@) =~= want);
    bracketed(&parts)
}

pub open spec fn sample_text(s: (u64, Seq<char>)) -> Seq<char> {
    "{\"name\":\""@ + escaped(s.1) + "\",\"ts\":"@ + dec(s.0 as nat) + "}"@
}

/// The report of all samples of a cat.
pub open spec fn samples_text(v: Seq<(u64, Seq<char>)>) -> Seq<char> {
    array_text(v.map_values(|x: (u64, Seq<char>)| sample_text(x)))
}

/// The body that lists the samples of a cat.
pub fn faces_samples_json(samples: &Vec<Sample>) -> (s: String)
    ensures
        s@ == samples_text(sample_views(samples@)),
{
    let ghost want = sample_views(samples@).map_values(|x: (u64, Seq<char>)| sample_text(x));
    let mut parts: Vec<String> = Vec::new();
    let mut i: usize = 0;
    while i < samples.len()
        invariant
            i <= samples@.len(),
            want == sample_views(samples@).map_values(|x: (u64, Seq<char>)| sample_text(x)),
            parts@.len() == i,
            forall|j: int| 0 <= j < i ==> (#[trigger] parts@[j])@ == want[j],
        decreases samples@.len() - i,
    {
        let x: &Sample = &samples[i];
        assert(sample_views(samples@)[i as int] == (x.ts, x.name@));
        let mut p: String = "{\"name\":\"".to_owned();
        p.append(escape_debug(x.name.as_str()).as_str());
        p.append("\",\"ts\":");
        push_dec(&mut p, x.ts);
        p.append("}");
        parts.push(p);
        i = i + 1;
    }
    assert(string_texts(parts@) =~= want);
    bracketed(&parts)
}

/// What is known of the crop at hand.
pub open spec fn current_info_text(target: Option<FaceTargetView>) -> Seq<char> {
    match target {
        Some(FaceTargetView::Pending(name)) => "{\"status\":\"pending\",\"name\":\""@ + escaped(name)
            + "\",\"cat\":null}"@,
        Some(FaceTargetView::Labelled(cat, name)) => "{\"status\":\"labelled\",\"name\":\""@ + escaped(
            name,
        ) + "\",\"cat\":\""@ + escaped(cat) + "\"}"@,
        None => "{\"status\":\"none\",\"name\":null,\"cat\":null}"@,
    }
}

/// The body that says which crop is up for review.
pub fn faces_current_info_json(target: Option<&FaceTarget>) -> (s: String)
    ensures
        s@ == current_info_text(
            match target {
                Some(t) => Some(t@),
                None => None,
            },
        ),
{
    match target {
        Some(FaceTarget::Pending { name }) => {
            let mut s: String = "{\"status\":\"pending\",\"name\":\"".to_owned();
            s.append(escape_debug(name.as_str()).as_str());
            s.append("\",\"cat\":null}");
            s
        },
        Some(FaceTarget::Labelled { cat, name }) => {
            let mut s: String = "{\"status\":\"labelled\",\"name\":\"".to_owned();
            s.append(escape_debug(name.as_str()).as_str());
            s.append("\",\"cat\":\"");
            s.append(escape_debug(cat.as_str()).as_str());
            s.append("\"}");
            s
        },
        None => "{\"status\":\"none\",\"name\":null,\"cat\":null}".to_owned(),
    }
}

/// What the classifier makes of a crop. Scores are held as the text that stands for them.
pub enum Verdict {
    Known { best: Guess, second_best: Option<Guess> },
    Unknown,
}

/// Cat, score and runner-up.
pub open spec fn verdict_text(v: Verdict) -> Seq<char> {
    match v {
        Verdict::Known { best, second_best } => "{\"cat\":\""@ + escaped(best.cat@)
            + "\",\"score\":"@ + best.score@ + ",\"second_best\":"@ + (match opt_guess(second_best) {
            Some(g) => guess_text(g),
            None => "null"@,
        }),
        Verdict::Unknown => "{\"cat\":\"unknown\",\"score\":null,\"second_best\":null"@,
    }
}

/// What follows cat and scores: the crop, its source, and its time.
pub open spec fn crop_tail(name: Seq<char>, source: Seq<char>, ts: Option<u64>) -> Seq<char> {
    ",\"crop\":\""@ + escaped(name) + "\",\"source\":\""@ + source + "\",\"ts\":"@ + opt_dec(ts)
        + "}"@
}

fn tail_string(name: &str, source: &str, ts: Option<u64>) -> (s: String)
    ensures
        s@ == crop_tail(name@, source@, ts),
{
    let mut s: String = ",\"crop\":\"".to_owned();
    s.append(escape_debug(name).as_str());
    s.append("\",\"source\":\"");
    s.append(source);
    s.append("\",\"ts\":");
    push_opt(&mut s, ts);
    s.append("}");
    s
}

/// The body where there is no crop to identify.
pub fn nothing_to_identify_json() -> (s: String)
    ensures
        s@
            == "{\"cat\":null,\"score\":null,\"second_best\":null,\"crop\":null,\"source\":null,\"ts\":null}"@,
{
    "{\"cat\":null,\"score\":null,\"second_best\":null,\"crop\":null,\"source\":null,\"ts\":null}".to_owned()
}

/// Who a labelled crop shows.
pub open spec fn labelled_identity_text(cat: Seq<char>, name: Seq<char>, ts: Option<u64>) -> Seq<char> {
    "{\"cat\":\""@ + escaped(cat) + "\",\"score\":null,\"second_best\":null"@ + crop_tail(
        name,
        "labelled"@,
        ts,
    )
}

/// The body where the crop to identify has a name already.
pub fn labelled_identity_json(cat: &str, name: &str, ts: Option<u64>) -> (s: String)
    ensures
        s@ == labelled_identity_text(cat@, name@, ts),
{
    let mut s: String = "{\"cat\":\"".to_owned();
    s.append(escape_debug(cat).as_str());
    s.append("\",\"score\":null,\"second_best\":null");
    s.append(tail_string(name, "labelled", ts).as_str());
    s
}

/// Who the classifier takes a crop to show.
pub open spec fn identify_text(verdict: Verdict, name: Seq<char>, ts: Option<u64>) -> Seq<char> {
    verdict_text(verdict) + crop_tail(name, "classifier"@, ts)
}

/// The body where the classifier has looked at the crop.
pub fn identify_json(verdict: &Verdict, name: &str, ts: Option<u64>) -> (s: String)
    ensures
        s@ == identify_text(*verdict, name@, ts),
{
    let mut s: String = match verdict {
        Verdict::Known { best, second_best } => {
            let mut s: String = "{\"cat\":\"".to_owned();
            s.append(escape_debug(best.cat.as_str()).as_str());
            s.append("\",\"score\":");
            s.append(best.score.as_str());
            s.append(",\"second_best\":");
            match second_best {
                Some(g) => s.append(guess_json(g).as_str()),
                None => s.append("null"),
            }
            s
        },
        Verdict::Unknown => "{\"cat\":\"unknown\",\"score\":null,\"second_best\":null".to_owned(),
    };
    s.append(tail_string(name, "classifier", ts).as_str());
    s
}

/// How long samples at 16 kHz take, in milliseconds.
pub open spec fn speak_ms(samples: nat) -> nat {
    samples * 1000 / 16_000
}

/// The answer to speech that is played.
pub open spec fn speak_text(samples: nat) -> Seq<char> {
    "{\"ok\":true,\"samples\":"@ + dec(samples) + ",\"estimated_ms\":"@ + dec(speak_ms(samples))
        + "}"@
}

/// The body that confirms that something is being said; it lasts as long as its samples do.
pub fn speak_json(samples: usize) -> (s: String)
    ensures
        s@ == speak_text(samples as nat),
{
    let mut s: String = "{\"ok\":true,\"samples\":".to_owned();
    push_dec(&mut s, samples as u64);
    s.append(",\"estimated_ms\":");
    crate::number::push_dec_wide(&mut s, samples as u128 * 1000 / 16_000);
    s.append("}");
    s
}

/// The answer to a clip that was saved.
pub open spec fn clip_saved_text(name: Seq<char>, bytes: nat) -> Seq<char> {
    "{\"ok\":true,\"name\":\""@ + escaped(name) + "\",\"bytes\":"@ + dec(bytes) + "}"@
}

/// The body that confirms a clip.
pub fn clip_saved_json(name: &str, bytes: usize) -> (s: String)
    ensures
        s@ == clip_saved_text(name@, bytes as nat),
{
    let mut s: String = "{\"ok\":true,\"name\":\"".to_owned();
    s.append(escape_debug(name).as_str());
    s.append("\",\"bytes\":");
    push_dec(&mut s, bytes as u64);
    s.append("}");
    s
}

/// The body that confirms that a clip is being played.
pub fn clip_playing_json(frames: u64) -> (s: String)
    ensures
        s@ == "{\"ok\":true,\"frames\":"@ + dec(frames as nat) + "}"@,
{
    let mut s: String = "{\"ok\":true,\"frames\":".to_owned();
    push_dec(&mut s, frames);
    s.append("}");
    s
}

} // verus!
