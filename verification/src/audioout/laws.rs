//! Laws of the frames and of a live session.

use vstd::prelude::*;
use vstd::string::*;

use crate::adts::{frame_length_of, is_header, law_header_decides};
use crate::audioout::{
    column_from, drained, emitted, expected_samples, frames_of, has_frame, is_blocked, is_stalled,
    owed, packed, packed_all, pcm_bytes, pid_from, refusal, runs, sample_byte, snd_frm_from, AoWait,
    DrainState, ProcEntry, FRAME_SAMPLES, PREROLL_FRAMES, SILENCE_SLACK_SAMPLES,
};
use crate::number::{dec, lemma_uint_of_dec};
use crate::text::{trimmed_end, words, Pat};

verus! {

/// What is left behind the whole frames of `b`.
pub open spec fn rest_of(b: Seq<u8>) -> Seq<u8>
    decreases b.len(),
{
    if has_frame(b) {
        rest_of(b.subrange(frame_length_of(b) as int, b.len() as int))
    } else {
        b
    }
}

/// The first `n` frames one behind the other.
pub open spec fn frames_joined(v: Seq<Seq<u8>>, n: int) -> Seq<u8>
    decreases n,
{
    if n <= 0 {
        Seq::empty()
    } else {
        frames_joined(v, n - 1) + v[n - 1]
    }
}

proof fn lemma_joined_front(f: Seq<u8>, v: Seq<Seq<u8>>, n: int)
    requires
        0 <= n <= v.len(),
    ensures
        frames_joined(seq![f] + v, n + 1) == f + frames_joined(v, n),
    decreases n,
{
    let w = seq![f] + v;
    if n == 0 {
        assert(frames_joined(w, 0) =~= Seq::<u8>::empty());
        assert(frames_joined(w, 1) =~= f + frames_joined(v, 0));
    } else {
        lemma_joined_front(f, v, n - 1);
        assert(w[n] == v[n - 1]);
        assert(frames_joined(w, n + 1) =~= f + frames_joined(v, n));
    }
}

/// No byte is lost when frames are taken off: the frames and what is left are all there was.
pub proof fn law_frames_cover_the_bytes(b: Seq<u8>)
    ensures
        frames_joined(frames_of(b), frames_of(b).len() as int) + rest_of(b) == b,
    decreases b.len(),
{
    if has_frame(b) {
        let n = frame_length_of(b) as int;
        let head = b.subrange(0, n);
        let tail = b.subrange(n, b.len() as int);
        law_frames_cover_the_bytes(tail);
        let v = frames_of(tail);
        lemma_joined_front(head, v, v.len() as int);
        assert(frames_of(b).len() == v.len() + 1);
        assert(head + frames_joined(v, v.len() as int) + rest_of(tail) =~= head + (frames_joined(
            v,
            v.len() as int,
        ) + rest_of(tail)));
        assert(head + tail =~= b);
    } else {
        assert(frames_joined(frames_of(b), 0) + b =~= b);
    }
}

/// It does not matter how the encoder's bytes are cut up: the frames of the whole are those of the
/// first part, then those of what is left of it with the second.
pub proof fn law_frames_can_be_split(a: Seq<u8>, b: Seq<u8>)
    ensures
        frames_of(a + b) == frames_of(a) + frames_of(rest_of(a) + b),
    decreases a.len(),
{
    if has_frame(a) {
        let n = frame_length_of(a) as int;
        let tail = a.subrange(n, a.len() as int);
        let ab = a + b;
        law_header_decides(a, b);
        assert(frame_length_of(ab) == frame_length_of(a));
        assert(is_header(ab));
        assert(ab.subrange(0, n) =~= a.subrange(0, n));
        assert(ab.subrange(n, ab.len() as int) =~= tail + b);
        law_frames_can_be_split(tail, b);
        let f = seq![a.subrange(0, n)];
        let more = frames_of(rest_of(tail) + b);
        assert(f + (frames_of(tail) + more) =~= (f + frames_of(tail)) + more);
    } else {
        assert(frames_of(a) + frames_of(a + b) =~= frames_of(a + b));
    }
}

/// The silence that is owed brings a session back to within the slack, and not a frame further.
pub proof fn law_silence_catches_up(fed: int, expected: int)
    ensures
        owed(fed, expected) >= 0,
        fed + owed(fed, expected) * FRAME_SAMPLES + SILENCE_SLACK_SAMPLES >= expected,
        owed(fed, expected) > 0 ==> fed + (owed(fed, expected) - 1) * FRAME_SAMPLES
            + SILENCE_SLACK_SAMPLES < expected,
{
}

/// A sample can be read back from its bytes.
pub proof fn law_samples_read_back(samples: Seq<i16>, i: int)
    requires
        0 <= i < samples.len(),
    ensures
        crate::bytes::signed16(crate::bytes::le16_at(pcm_bytes(samples), 2 * i)) == samples[i],
{
    let b = pcm_bytes(samples);
    assert(b[2 * i] == sample_byte(samples[i], false));
    assert(b[2 * i + 1] == sample_byte(samples[i], true));
}

/// A session after the first `n` frames, and all that was written until then.
pub open spec fn drained_upto(frames: Seq<Seq<u8>>, n: int) -> (DrainState, Seq<Seq<u8>>)
    decreases n,
{
    if n <= 0 {
        (DrainState { held: Seq::empty(), rolling: false }, Seq::empty())
    } else {
        let (s, written) = drained_upto(frames, n - 1);
        let (next, more) = drained(s, frames[n - 1]);
        (next, written + more)
    }
}

/// No frame is lost, repeated or moved: what was written and what is held back are the frames that
/// came. Nothing is written before there is a cushion, and nothing is held back after.
pub proof fn law_frames_keep_their_order(frames: Seq<Seq<u8>>, n: int)
    requires
        0 <= n <= frames.len(),
    ensures
        drained_upto(frames, n).1 + drained_upto(frames, n).0.held == frames.subrange(0, n),
        drained_upto(frames, n).0.rolling == (n >= PREROLL_FRAMES),
        n < PREROLL_FRAMES ==> drained_upto(frames, n).1.len() == 0,
        n >= PREROLL_FRAMES ==> drained_upto(frames, n).0.held.len() == 0,
    decreases n,
{
    if n > 0 {
        law_frames_keep_their_order(frames, n - 1);
        let (s, written) = drained_upto(frames, n - 1);
        let (next, more) = drained(s, frames[n - 1]);
        assert(frames.subrange(0, n) =~= frames.subrange(0, n - 1).push(frames[n - 1]));
        assert((written + s.held).len() == n - 1);
        assert(written + more + next.held =~= (written + s.held).push(frames[n - 1]));
    } else {
        assert(drained_upto(frames, 0).1 + drained_upto(frames, 0).0.held =~= frames.subrange(0, 0));
    }
}

/// As many samples are due as the time since the start takes at 16 kHz, the last one begun not
/// counted; before the start none is.
pub proof fn law_samples_due(started: u64, now: u64)
    ensures
        now >= started ==> expected_samples(started, now) * 1_000_000 <= (now - started) * 16_000,
        now >= started ==> (now - started) * 16_000 < (expected_samples(started, now) + 1) * 1_000_000,
        now < started ==> expected_samples(started, now) == 0,
{
}

/// The speaker is refused exactly where audio is off, the vendor's talk or call is on, or it is in
/// use.
pub proof fn law_speaker_is_refused(enabled: bool, talkback: bool, call: bool, busy: bool)
    ensures
        refusal(enabled, talkback, call, busy) is None <==> enabled && !talkback && !call && !busy,
{
}

/// What was emitted is how far the count has moved on since the start; a count that went back stands
/// for nothing.
pub proof fn law_emitted(w: AoWait, count: u64)
    ensures
        count >= w.before ==> emitted(w, count) == count - w.before,
        count <= w.before ==> emitted(w, count) == 0,
{
}

/// The preroll is eight frames: nothing goes out until the eighth is there, all eight go out with
/// it, and from then on each goes out as it comes.
pub proof fn law_preroll(s: DrainState, frame: Seq<u8>)
    requires
        s.held.len() < 8,
        s.rolling ==> s.held.len() == 0,
    ensures
        s.rolling ==> drained(s, frame).1 == seq![frame] && drained(s, frame).0 == s,
        !s.rolling && s.held.len() < 7 ==> drained(s, frame).1.len() == 0 && drained(s, frame).0.held
            == s.held.push(frame) && !drained(s, frame).0.rolling,
        !s.rolling && s.held.len() == 7 ==> drained(s, frame).1 == s.held.push(frame) && drained(
            s,
            frame,
        ).0.rolling && drained(s, frame).0.held.len() == 0,
{
    assert(s.rolling ==> s.held.push(frame) =~= seq![frame]);
    assert(s.rolling ==> s.held =~= Seq::<Seq<u8>>::empty());
}

/// A column of the driver's table is the one under its heading.
pub proof fn law_column(ws: Seq<Seq<char>>, name: Seq<char>, i: int, k: int)
    requires
        0 <= i <= k < ws.len(),
        ws[k] == name,
        forall|j: int| i <= j < k ==> #[trigger] ws[j] != name,
    ensures
        column_from(ws, name, i) == Some(k),
    decreases k - i,
{
    if i < k {
        law_column(ws, name, i + 1, k);
    }
}

/// The count of emitted frames is the number under its heading in the line behind the first one that
/// has it.
pub proof fn law_frame_count(ls: Seq<Seq<char>>, i: int, k: int, col: int, n: u64)
    requires
        0 <= i <= k,
        k + 1 < ls.len(),
        column_from(words(ls[k]), "SndFrm"@, 0) == Some(col),
        0 <= col < words(ls[k + 1]).len(),
        words(ls[k + 1])[col] == dec(n as nat),
        forall|j: int| i <= j < k ==> column_from(words(#[trigger] ls[j]), "SndFrm"@, 0) is None,
    ensures
        snd_frm_from(ls, i) == Some(n),
    decreases k - i,
{
    lemma_uint_of_dec(n as nat, u64::MAX as nat);
    if i < k {
        law_frame_count(ls, i + 1, k, col, n);
    }
}

/// Playing is given up after three seconds in which nothing moved, and so is writing.
pub proof fn law_playing_is_given_up(then: u64, now: u64)
    ensures
        is_stalled(then, now) <==> now >= then + 3_000,
        is_blocked(then, now) <==> now >= then + 3_000,
{
}

/// Silence is owed only where a session is more than six frames of 1024 samples behind, and then as
/// many frames as bring it back to that.
pub proof fn law_silence_owed(fed: int, expected: int)
    ensures
        owed(fed, expected) == 0 <==> fed + 6_144 >= expected,
        fed + 6_144 < expected ==> fed + 1_024 * owed(fed, expected) + 6_144 >= expected && fed + 1_024
            * (owed(fed, expected) - 1) + 6_144 < expected,
{
}

proof fn lemma_packed_len(pcm: Seq<i16>)
    ensures
        packed_all(pcm).len() == 2_048 * ((pcm.len() + 1_023) / 1_024),
    decreases pcm.len(),
{
    if pcm.len() > 1_024 {
        lemma_packed_len(pcm.subrange(1_024, pcm.len() as int));
    }
}

/// Samples are packed whole, the low byte of each first and one behind the other, in frames of 1024
/// that are filled up with silence.
pub proof fn law_packed_samples_read_back(pcm: Seq<i16>, i: int)
    requires
        0 <= i < pcm.len(),
    ensures
        packed_all(pcm).len() == 2_048 * ((pcm.len() + 1_023) / 1_024),
        crate::bytes::signed16(
            (packed_all(pcm)[2 * i] + 256 * packed_all(pcm)[2 * i + 1]) as nat,
        ) == pcm[i],
    decreases pcm.len(),
{
    lemma_packed_len(pcm);
    if pcm.len() <= 1_024 {
        law_samples_read_back(pcm, i);
        assert(packed(pcm)[2 * i] == pcm_bytes(pcm)[2 * i]);
        assert(packed(pcm)[2 * i + 1] == pcm_bytes(pcm)[2 * i + 1]);
    } else {
        let head = pcm.subrange(0, 1_024);
        let tail = pcm.subrange(1_024, pcm.len() as int);
        assert(packed(head).len() == 2_048);
        if i < 1_024 {
            law_samples_read_back(head, i);
            assert(packed_all(pcm)[2 * i] == pcm_bytes(head)[2 * i]);
            assert(packed_all(pcm)[2 * i + 1] == pcm_bytes(head)[2 * i + 1]);
        } else {
            law_packed_samples_read_back(tail, i - 1_024);
            assert(packed_all(pcm)[2 * i] == packed_all(tail)[2 * (i - 1_024)]);
            assert(packed_all(pcm)[2 * i + 1] == packed_all(tail)[2 * (i - 1_024) + 1]);
        }
    }
}

/// A process is found by its name, whatever white space follows that, and its number is the name of its
/// directory.
pub proof fn law_process_is_found(v: Seq<ProcEntry>, name: Seq<char>, i: int, k: int, pid: u32)
    requires
        0 <= i <= k < v.len(),
        v[k].name@ == dec(pid as nat),
        v[k].comm matches Some(c) && trimmed_end(c@, Pat::Space) == name,
        forall|j: int| i <= j < k ==> runs(#[trigger] v[j], name) is None,
    ensures
        pid_from(v, name, i) == Some(pid),
    decreases k - i,
{
    lemma_uint_of_dec(pid as nat, u32::MAX as nat);
    if i < k {
        law_process_is_found(v, name, i + 1, k, pid);
    }
}

} // verus!
