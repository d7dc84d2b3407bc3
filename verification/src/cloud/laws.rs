//! What holds of every run of the switch, and of the state that it leaves.

use vstd::prelude::*;
use vstd::string::*;

use crate::cloud::{
    addr_of, connection_in, default_route, default_route_from, gateway_of, hex_byte, lan_address, lan_present, off_run, on_run,
    peers_upto, quoted_or_null, route_in, routes_upto, state_name_of, state_of, state_text,
    status_text, text_field, via_dev, video_peer,
    Action, Command, ConnectionView, ErrorView, Phase, StateView, SwitchView,
};
use crate::http::{field_of, value_behind};
use crate::json::lemmas::{
    clear_of, ends_apart, in_quotes, is_key, lacks, lemma_clear_concat, lemma_clear_quoted,
    lemma_clear_unquoted, lemma_key_found, lemma_spaced_value, member, members, object,
};
use crate::json::{bool_text, escaped_or_null, joined};
use crate::schedule::laws::lemma_bool_bare;
use crate::number::{dec, digit_char, digit_worth, uint_of, worth};
use crate::text::{escaped, is_space, law_cut, lines, starts, trimmed, words, Pat};

verus! {

/// The run after the first `n` events.
pub open spec fn after(run: SwitchView, events: Seq<Result<Seq<char>, Seq<char>>>, n: int) -> SwitchView
    decreases n,
{
    if n <= 0 {
        run
    } else {
        after(run, events, n - 1).next(events[n - 1])
    }
}

/// Whether an output is a routing table with the route to the LAN.
pub open spec fn shows_lan(run: SwitchView, event: Result<Seq<char>, Seq<char>>) -> bool {
    match event {
        Ok(t) => lan_present(t, run.gw, run.dev),
        Err(_) => false,
    }
}

/// Whether the first `n` steps of a run saw the route to the LAN in the routing table.
pub open spec fn saw_lan_route(
    run: SwitchView,
    events: Seq<Result<Seq<char>, Seq<char>>>,
    n: int,
) -> bool {
    exists|k: int|
        0 <= k < n && (#[trigger] after(run, events, k)).phase == Phase::Verify
            && shows_lan(run, events[k])
}

/// Whether one of the first `n` steps of a run was in phase `p` and went well.
pub open spec fn went_well(
    run: SwitchView,
    events: Seq<Result<Seq<char>, Seq<char>>>,
    n: int,
    p: Phase,
) -> bool {
    exists|k: int| 0 <= k < n && (#[trigger] after(run, events, k)).phase == p && events[k] is Ok
}

/// Whether one of the first `n` steps of a run was in phase `p`.
pub open spec fn was_in(
    run: SwitchView,
    events: Seq<Result<Seq<char>, Seq<char>>>,
    n: int,
    p: Phase,
) -> bool {
    exists|k: int| 0 <= k < n && (#[trigger] after(run, events, k)).phase == p
}

/// A command that takes the default route away or replaces it by a blackhole.
pub open spec fn cuts_off(a: Action) -> bool {
    a == Action::Run(Command::DropDefault) || a == Action::Run(Command::Blackhole)
}

/// The default route is never taken away or blackholed before the route to the LAN was seen.
pub proof fn law_default_is_kept_until_the_lan_is_safe(
    gw: Seq<char>,
    dev: Seq<char>,
    was: bool,
    events: Seq<Result<Seq<char>, Seq<char>>>,
    n: int,
)
    requires
        0 <= n <= events.len(),
        cuts_off(after(off_run(gw, dev, was), events, n).action()),
    ensures
        saw_lan_route(off_run(gw, dev, was), events, n),
{
    lemma_run(gw, dev, was, events, n);
}

/// A run records the cloud as cut off only where a host of the LAN was reached at the end, or
/// where it was recorded so before and the run never came to the default route.
pub proof fn law_cut_off_only_after_the_self_check(
    gw: Seq<char>,
    dev: Seq<char>,
    was: bool,
    events: Seq<Result<Seq<char>, Seq<char>>>,
    n: int,
)
    requires
        0 <= n <= events.len(),
        after(off_run(gw, dev, was), events, n).phase == Phase::Done,
        after(off_run(gw, dev, was), events, n).to_save() matches Some(s) && !s.enabled,
    ensures
        after(off_run(gw, dev, was), events, n).failure is None ==> went_well(
            off_run(gw, dev, was),
            events,
            n,
            Phase::SelfCheck,
        ) && saw_lan_route(off_run(gw, dev, was), events, n),
        after(off_run(gw, dev, was), events, n).failure is Some ==> !was && !was_in(
            off_run(gw, dev, was),
            events,
            n,
            Phase::DropDefault,
        ),
{
    lemma_run(gw, dev, was, events, n);
}

/// However a run that is to cut the cloud off ends, it leaves a state to be saved, with the
/// gateway and the interface of the run and, where it failed, the reason.
pub proof fn law_cut_off_is_always_recorded(
    gw: Seq<char>,
    dev: Seq<char>,
    was: bool,
    events: Seq<Result<Seq<char>, Seq<char>>>,
    n: int,
)
    requires
        0 <= n <= events.len(),
        after(off_run(gw, dev, was), events, n).phase == Phase::Done,
    ensures
        after(off_run(gw, dev, was), events, n).to_save() matches Some(s) && s.gateway == Some(gw)
            && s.dev == Some(dev) && match after(off_run(gw, dev, was), events, n).failure {
            Some(e) => s.last_error == Some(e.text()),
            None => s.last_error is None && !s.enabled,
        },
{
    lemma_run(gw, dev, was, events, n);
}

/// Once the default route may be gone, a run that fails has asked for it back.
pub proof fn law_failure_restores_the_default(
    gw: Seq<char>,
    dev: Seq<char>,
    was: bool,
    events: Seq<Result<Seq<char>, Seq<char>>>,
    n: int,
)
    requires
        0 <= n <= events.len(),
        after(off_run(gw, dev, was), events, n).phase == Phase::Done,
        after(off_run(gw, dev, was), events, n).failure is Some,
    ensures
        was_in(off_run(gw, dev, was), events, n, Phase::DropDefault) ==> was_in(
            off_run(gw, dev, was),
            events,
            n,
            Phase::Restore,
        ),
        after(off_run(gw, dev, was), events, n).failure == Some(ErrorView::LanRouteMissing) ==> !was_in(
            off_run(gw, dev, was),
            events,
            n,
            Phase::DropDefault,
        ),
{
    lemma_run(gw, dev, was, events, n);
}

/// Every run ends after seven steps at most.
pub proof fn law_runs_end(
    gw: Seq<char>,
    dev: Seq<char>,
    was: bool,
    events: Seq<Result<Seq<char>, Seq<char>>>,
)
    requires
        events.len() >= 7,
    ensures
        after(off_run(gw, dev, was), events, 7).phase == Phase::Done,
        after(on_run(gw, dev, was), events, 7).phase == Phase::Done,
{
    reveal_with_fuel(after, 8);
}

/// What the first `n` steps of a run that is to cut the cloud off have led to.
proof fn lemma_run(
    gw: Seq<char>,
    dev: Seq<char>,
    was: bool,
    events: Seq<Result<Seq<char>, Seq<char>>>,
    n: int,
)
    requires
        0 <= n <= events.len(),
    ensures
        ({
            let run = off_run(gw, dev, was);
            let v = after(run, events, n);
            let safe = saw_lan_route(run, events, n);
            &&& v.gw == gw && v.dev == dev && v.off && v.was_enabled == was
            &&& v.phase == Phase::AddLan || v.phase == Phase::Verify || v.phase == Phase::DropDefault
                || v.phase == Phase::Blackhole || v.phase == Phase::SelfCheck ==> v.failure is None
            &&& v.phase == Phase::DropDefault || v.phase == Phase::Blackhole || v.phase
                == Phase::SelfCheck ==> safe
            &&& v.phase == Phase::AddLan || v.phase == Phase::Verify || v.phase
                == Phase::DropDefault ==> !was_in(run, events, n, Phase::DropDefault)
            &&& v.phase == Phase::Restore || v.phase == Phase::Cleanup ==> v.failure is Some
                && v.failure != Some(ErrorView::LanRouteMissing)
            &&& v.phase == Phase::Cleanup ==> was_in(run, events, n, Phase::Restore)
            &&& v.phase == Phase::Done && v.failure is None ==> safe && went_well(
                run,
                events,
                n,
                Phase::SelfCheck,
            )
            &&& v.phase == Phase::Done && v.failure == Some(ErrorView::LanRouteMissing) ==> !was_in(
                run,
                events,
                n,
                Phase::DropDefault,
            )
            &&& v.phase == Phase::Done && v.failure is Some && v.failure != Some(
                ErrorView::LanRouteMissing,
            ) ==> was_in(run, events, n, Phase::Restore)
        }),
    decreases n,
{
    let run = off_run(gw, dev, was);
    if n > 0 {
        lemma_run(gw, dev, was, events, n - 1);
        let u = after(run, events, n - 1);
        let v = after(run, events, n);
        assert(v == u.next(events[n - 1]));
        if saw_lan_route(run, events, n - 1) {
            let k = choose|k: int|
                0 <= k < n - 1 && (#[trigger] after(run, events, k)).phase == Phase::Verify
                    && shows_lan(run, events[k]);
            assert(after(run, events, k).phase == Phase::Verify);
            assert(saw_lan_route(run, events, n));
        }
        if went_well(run, events, n - 1, Phase::SelfCheck) {
            let k = choose|k: int|
                0 <= k < n - 1 && (#[trigger] after(run, events, k)).phase == Phase::SelfCheck
                    && events[k] is Ok;
            assert(after(run, events, k).phase == Phase::SelfCheck);
            assert(went_well(run, events, n, Phase::SelfCheck));
        }
        if was_in(run, events, n - 1, Phase::Restore) {
            let k = choose|k: int|
                0 <= k < n - 1 && (#[trigger] after(run, events, k)).phase == Phase::Restore;
            assert(after(run, events, k).phase == Phase::Restore);
            assert(was_in(run, events, n, Phase::Restore));
        }
        if was_in(run, events, n, Phase::DropDefault) {
            let k = choose|k: int|
                0 <= k < n && (#[trigger] after(run, events, k)).phase == Phase::DropDefault;
            if k < n - 1 {
                assert(was_in(run, events, n - 1, Phase::DropDefault));
            }
        }
        assert(u.phase == Phase::Verify && shows_lan(run, events[n - 1]) ==> saw_lan_route(
            run,
            events,
            n,
        ));
        assert(u.phase == Phase::SelfCheck && events[n - 1] is Ok ==> went_well(
            run,
            events,
            n,
            Phase::SelfCheck,
        ));
        assert(u.phase == Phase::Restore ==> was_in(run, events, n, Phase::Restore));
    }
}

/// A text that is written and read as it stands, and cannot be taken for a key.
pub open spec fn plain(s: Seq<char>) -> bool {
    lacks(s, '"') && lacks(s, ',') && lacks(s, '}') && s != "null"@ && s != "dev"@ && s
        != "last_error"@
}

pub open spec fn plain_or_none(o: Option<Seq<char>>) -> bool {
    o matches Some(s) ==> plain(s)
}

proof fn lemma_state_keys()
    ensures
        is_key("enabled"@),
        is_key("gateway"@),
        is_key("dev"@),
        is_key("last_error"@),
        "enabled"@.len() == 7,
        "gateway"@.len() == 7,
        "enabled"@[0] == 'e',
        "gateway"@[0] == 'g',
        "dev"@.len() == 3,
        "last_error"@.len() == 10,
        lacks("enabled"@, ' '),
        lacks("gateway"@, ' '),
        lacks("dev"@, ' '),
        lacks("last_error"@, ' '),
{
    reveal_strlit("enabled");
    reveal_strlit("gateway");
    reveal_strlit("dev");
    reveal_strlit("last_error");
}

/// One line of the persisted state.
spec fn line(key: Seq<char>, v: Seq<char>) -> Seq<char> {
    "  "@ + in_quotes(key) + (": "@ + v)
}

/// The persisted state, line by line.
spec fn state_lines(s: StateView) -> Seq<char> {
    "{\n"@ + line("enabled"@, bool_text(s.enabled)) + ",\n"@ + line(
        "gateway"@,
        quoted_or_null(s.gateway),
    ) + ",\n"@ + line("dev"@, quoted_or_null(s.dev)) + ",\n"@ + line(
        "last_error"@,
        quoted_or_null(s.last_error),
    ) + "\n}\n"@
}

proof fn lemma_first_line(v: Seq<char>)
    ensures
        "{\n  \"enabled\": "@ + v == "{\n"@ + line("enabled"@, v),
{
    reveal_strlit("{\n  \"enabled\": ");
    reveal_strlit("{\n");
    reveal_strlit("  ");
    reveal_strlit("enabled");
    reveal_strlit("\"");
    reveal_strlit(": ");
    assert("{\n  \"enabled\": "@ + v =~= "{\n"@ + line("enabled"@, v));
}

proof fn lemma_gateway_line(p: Seq<char>, v: Seq<char>)
    ensures
        p + ",\n  \"gateway\": "@ + v == p + ",\n"@ + line("gateway"@, v),
{
    reveal_strlit(",\n  \"gateway\": ");
    reveal_strlit(",\n");
    reveal_strlit("  ");
    reveal_strlit("gateway");
    reveal_strlit("\"");
    reveal_strlit(": ");
    assert(p + ",\n  \"gateway\": "@ + v =~= p + ",\n"@ + line("gateway"@, v));
}

proof fn lemma_dev_line(p: Seq<char>, v: Seq<char>)
    ensures
        p + ",\n  \"dev\": "@ + v == p + ",\n"@ + line("dev"@, v),
{
    reveal_strlit(",\n  \"dev\": ");
    reveal_strlit(",\n");
    reveal_strlit("  ");
    reveal_strlit("dev");
    reveal_strlit("\"");
    reveal_strlit(": ");
    assert(p + ",\n  \"dev\": "@ + v =~= p + ",\n"@ + line("dev"@, v));
}

proof fn lemma_error_line(p: Seq<char>, v: Seq<char>)
    ensures
        p + ",\n  \"last_error\": "@ + v == p + ",\n"@ + line("last_error"@, v),
{
    reveal_strlit(",\n  \"last_error\": ");
    reveal_strlit(",\n");
    reveal_strlit("  ");
    reveal_strlit("last_error");
    reveal_strlit("\"");
    reveal_strlit(": ");
    assert(p + ",\n  \"last_error\": "@ + v =~= p + ",\n"@ + line("last_error"@, v));
}

proof fn lemma_state_lines(s: StateView)
    requires
        s.last_error matches Some(e) ==> escaped(e) == e,
    ensures
        state_text(s) == state_lines(s),
{
    let a = "{\n  \"enabled\": "@ + bool_text(s.enabled);
    let b = a + ",\n  \"gateway\": "@ + quoted_or_null(s.gateway);
    let c = b + ",\n  \"dev\": "@ + quoted_or_null(s.dev);
    lemma_first_line(bool_text(s.enabled));
    lemma_gateway_line(a, quoted_or_null(s.gateway));
    lemma_dev_line(b, quoted_or_null(s.dev));
    lemma_error_line(c, quoted_or_null(s.last_error));
    assert(escaped_or_null(s.last_error) == quoted_or_null(s.last_error));
}

/// A line holds no quoted key but its own.
proof fn lemma_line_clear(name: Seq<char>, v: Seq<char>, key: Seq<char>)
    requires
        is_key(name),
        is_key(key),
        name != key,
        clear_of(v, key),
        lacks(key, ' '),
    ensures
        clear_of(line(name, v), key),
{
    reveal_strlit("  ");
    reveal_strlit(": ");
    lemma_clear_unquoted("  "@, key);
    lemma_clear_unquoted(": "@, key);
    lemma_clear_quoted(name, key);
    lemma_clear_concat("  "@, in_quotes(name), key);
    lemma_clear_concat(": "@, v, key);
    lemma_clear_concat("  "@ + in_quotes(name), ": "@ + v, key);
}

proof fn lemma_optional_clear(o: Option<Seq<char>>, key: Seq<char>)
    requires
        plain_or_none(o),
        is_key(key),
        o != Some(key),
    ensures
        clear_of(quoted_or_null(o), key),
{
    reveal_strlit("null");
    match o {
        Some(s) => {
            lemma_clear_quoted(s, key);
        },
        None => {
            lemma_clear_unquoted("null"@, key);
        },
    }
}

/// A field of a line is read back from where the line stands.
proof fn lemma_line_field(p: Seq<char>, key: Seq<char>, v: Seq<char>, rest: Seq<char>, w: Seq<char>)
    requires
        clear_of(p, key),
        is_key(key),
        lacks(key, ' '),
        value_behind(": "@ + v + rest) == Some(w),
    ensures
        field_of(p + line(key, v) + rest, key) == Some(w),
{
    reveal_strlit("  ");
    let start = p + "  "@;
    lemma_clear_unquoted("  "@, key);
    lemma_clear_concat(p, "  "@, key);
    assert(ends_apart(start, key));
    let tail = ": "@ + v + rest;
    lemma_key_found(start, key, tail);
    assert(p + line(key, v) + rest =~= start + in_quotes(key) + tail);
}

/// What stands behind an optional text is read back.
proof fn lemma_optional_value(o: Option<Seq<char>>, sp: Seq<char>, rest: Seq<char>)
    requires
        plain_or_none(o),
        forall|i: int| 0 <= i < sp.len() ==> is_space(#[trigger] sp[i]),
        rest.len() > 0,
        rest[0] == ',' || rest[0] == '}',
    ensures
        value_behind(": "@ + quoted_or_null(o) + (sp + rest)) == Some(
            match o {
                Some(s) => s,
                None => "null"@,
            },
        ),
{
    reveal_strlit("null");
    reveal_strlit("\"");
    let v = quoted_or_null(o);
    assert(lacks(v, ',') && lacks(v, '}')) by {
        match o {
            Some(s) => {
                assert forall|i: int| 0 <= i < v.len() implies #[trigger] v[i] != ',' && v[i]
                    != '}' by {
                    if 1 <= i <= s.len() {
                        assert(v[i] == s[i - 1]);
                    }
                }
            },
            None => {},
        }
    }
    lemma_spaced_value(v, sp, rest);
    match o {
        Some(s) => {
            crate::json::lemmas::lemma_unquote(s);
        },
        None => {
            crate::text::lemma_trimmed_id("null"@, crate::text::Pat::Is('"'));
        },
    }
}

/// Four lines with commas between them, seen from each line.
proof fn lemma_regroup(
    p: Seq<char>,
    c: Seq<char>,
    l0: Seq<char>,
    l1: Seq<char>,
    l2: Seq<char>,
    l3: Seq<char>,
    r: Seq<char>,
)
    ensures
        ({
            let all = p + l0 + c + l1 + c + l2 + c + l3 + r;
            let r2 = c + l3 + r;
            let r1 = c + l2 + r2;
            let r0 = c + l1 + r1;
            &&& all == p + l0 + r0
            &&& all == (p + l0 + c) + l1 + r1
            &&& all == (p + l0 + c + l1 + c) + l2 + r2
            &&& c.len() > 0 ==> r0[0] == c[0] && r1[0] == c[0] && r2[0] == c[0]
        }),
{
    let all = p + l0 + c + l1 + c + l2 + c + l3 + r;
    let r2 = c + l3 + r;
    let r1 = c + l2 + r2;
    let r0 = c + l1 + r1;
    assert(all =~= p + l0 + r0);
    assert(all =~= (p + l0 + c) + l1 + r1);
    assert(all =~= (p + l0 + c + l1 + c) + l2 + r2);
}

/// An optional text on a line of its own is read back.
proof fn lemma_text_line(
    p: Seq<char>,
    key: Seq<char>,
    o: Option<Seq<char>>,
    sp: Seq<char>,
    rest: Seq<char>,
)
    requires
        plain_or_none(o),
        clear_of(p, key),
        is_key(key),
        lacks(key, ' '),
        forall|i: int| 0 <= i < sp.len() ==> is_space(#[trigger] sp[i]),
        rest.len() > 0,
        rest[0] == ',' || rest[0] == '}',
    ensures
        text_field(p + line(key, quoted_or_null(o)) + (sp + rest), key) == o,
{
    lemma_optional_value(o, sp, rest);
    let w = match o {
        Some(x) => x,
        None => "null"@,
    };
    lemma_line_field(p, key, quoted_or_null(o), sp + rest, w);
}

/// The flag on a line of its own is read back.
proof fn lemma_flag_line(p: Seq<char>, on: bool, rest: Seq<char>)
    requires
        clear_of(p, "enabled"@),
        rest.len() > 0,
        rest[0] == ',',
    ensures
        field_of(p + line("enabled"@, bool_text(on)) + rest, "enabled"@) == Some(bool_text(on)),
        (bool_text(on) == "true"@) == on,
{
    reveal_strlit("true");
    reveal_strlit("false");
    assert("true"@.len() == 4 && "false"@.len() == 5);
    let b = bool_text(on);
    let none = Seq::<char>::empty();
    lemma_state_keys();
    lemma_bool_bare(on);
    lemma_spaced_value(b, none, rest);
    assert(none + rest =~= rest);
    crate::text::lemma_trimmed_id(b, crate::text::Pat::Is('"'));
    lemma_line_field(p, "enabled"@, b, rest, b);
}

/// The state that is read back is the state that was written. Gateway and interface are such that
/// they are read as they stand, and the error, if any, is written as it stands.
#[verifier::rlimit(40)]
pub proof fn law_state_reads_back(s: StateView)
    requires
        plain_or_none(s.gateway),
        plain_or_none(s.dev),
        plain_or_none(s.last_error),
    ensures
        (s.last_error matches Some(e) ==> escaped(e) == e) ==> state_of(state_text(s)) == s,
{
    if s.last_error matches Some(e) ==> escaped(e) == e {
        let c = ",\n"@;
        let l0 = line("enabled"@, bool_text(s.enabled));
        let l1 = line("gateway"@, quoted_or_null(s.gateway));
        let l2 = line("dev"@, quoted_or_null(s.dev));
        let l3 = line("last_error"@, quoted_or_null(s.last_error));
        let none = Seq::<char>::empty();
        let p0 = "{\n"@;
        let p1 = p0 + l0 + c;
        let p2 = p1 + l1 + c;
        let p3 = p2 + l2 + c;
        let r3 = "\n}\n"@;
        let r2 = c + l3 + r3;
        let r1 = c + l2 + r2;
        let r0 = c + l1 + r1;
        assert(c.len() == 2 && c[0] == ',') by {
            reveal_strlit(",\n");
        }
        lemma_state_lines(s);
        lemma_state_keys();
        lemma_prefixes(bool_text(s.enabled), s);
        lemma_regroup(p0, c, l0, l1, l2, l3, r3);
        assert(none + r1 =~= r1);
        assert(none + r2 =~= r2);
        assert(seq!['\n'] + "}\n"@ =~= r3 && "}\n"@.len() == 2 && "}\n"@[0] == '}') by {
            reveal_strlit("\n}\n");
            reveal_strlit("}\n");
        }
        lemma_flag_line(p0, s.enabled, r0);
        lemma_text_line(p1, "gateway"@, s.gateway, none, r1);
        lemma_text_line(p2, "dev"@, s.dev, none, r2);
        lemma_text_line(p3, "last_error"@, s.last_error, seq!['\n'], "}\n"@);
    }
}

/// What stands before each line holds no key of that line.
proof fn lemma_prefixes(b: Seq<char>, s: StateView)
    requires
        plain_or_none(s.gateway),
        plain_or_none(s.dev),
        b == bool_text(s.enabled),
    ensures
        ({
            let p0 = "{\n"@;
            let p1 = p0 + line("enabled"@, b) + ",\n"@;
            let p2 = p1 + line("gateway"@, quoted_or_null(s.gateway)) + ",\n"@;
            let p3 = p2 + line("dev"@, quoted_or_null(s.dev)) + ",\n"@;
            &&& clear_of(p0, "enabled"@)
            &&& clear_of(p1, "gateway"@)
            &&& clear_of(p2, "dev"@)
            &&& clear_of(p3, "last_error"@)
        }),
{
    lemma_state_keys();
    lemma_bool_bare(s.enabled);
    reveal_strlit("{\n");
    lemma_clear_unquoted("{\n"@, "enabled"@);
    lemma_prefix("gateway"@, b, s);
    lemma_prefix("dev"@, b, s);
    lemma_prefix("last_error"@, b, s);
}

proof fn lemma_prefix(key: Seq<char>, b: Seq<char>, s: StateView)
    requires
        plain_or_none(s.gateway),
        plain_or_none(s.dev),
        b == bool_text(s.enabled),
        key == "gateway"@ || key == "dev"@ || key == "last_error"@,
    ensures
        ({
            let p0 = "{\n"@;
            let p1 = p0 + line("enabled"@, b) + ",\n"@;
            let p2 = p1 + line("gateway"@, quoted_or_null(s.gateway)) + ",\n"@;
            let p3 = p2 + line("dev"@, quoted_or_null(s.dev)) + ",\n"@;
            &&& clear_of(p1, key)
            &&& key != "gateway"@ ==> clear_of(p2, key)
            &&& key == "last_error"@ ==> clear_of(p3, key)
        }),
{
    lemma_state_keys();
    lemma_bool_bare(s.enabled);
    reveal_strlit("{\n");
    reveal_strlit(",\n");
    reveal_strlit("  ");
    let p0 = "{\n"@;
    let l0 = line("enabled"@, b);
    let l1 = line("gateway"@, quoted_or_null(s.gateway));
    let l2 = line("dev"@, quoted_or_null(s.dev));
    lemma_clear_unquoted(p0, key);
    lemma_clear_unquoted(",\n"@, key);
    lemma_clear_unquoted(b, key);
    lemma_line_clear("enabled"@, b, key);
    assert(l0[0] == ' ' && l1[0] == ' ' && l2[0] == ' ');
    lemma_clear_concat(p0, l0, key);
    lemma_clear_concat(p0 + l0, ",\n"@, key);
    let p1 = p0 + l0 + ",\n"@;
    if key != "gateway"@ {
        lemma_optional_clear(s.gateway, key);
        lemma_line_clear("gateway"@, quoted_or_null(s.gateway), key);
        lemma_clear_concat(p1, l1, key);
        lemma_clear_concat(p1 + l1, ",\n"@, key);
    }
    let p2 = p1 + l1 + ",\n"@;
    if key == "last_error"@ {
        lemma_optional_clear(s.dev, key);
        lemma_line_clear("dev"@, quoted_or_null(s.dev), key);
        lemma_clear_concat(p2, l2, key);
        lemma_clear_concat(p2 + l2, ",\n"@, key);
    }
}

/// Words that name no gateway and no interface change nothing.
proof fn lemma_other_words(
    ws: Seq<Seq<char>>,
    i: int,
    gw: Option<Seq<char>>,
    dev: Option<Seq<char>>,
)
    requires
        0 <= i <= ws.len(),
        forall|j: int| i <= j < ws.len() ==> #[trigger] ws[j] != "via"@ && ws[j] != "dev"@,
    ensures
        via_dev(ws, i, gw, dev) == (gw, dev),
    decreases ws.len() - i,
{
    if i < ws.len() {
        lemma_other_words(ws, i + 1, gw, dev);
    }
}

/// A route that leads somewhere by way of a gateway and through an interface is read so, whatever else
/// its line says behind them.
pub proof fn law_route_is_read(
    line: Seq<char>,
    target: Seq<char>,
    gw: Seq<char>,
    dev: Seq<char>,
    more: Seq<Seq<char>>,
)
    requires
        words(line) == seq![target, "via"@, gw, "dev"@, dev] + more,
        forall|j: int| 0 <= j < more.len() ==> #[trigger] more[j] != "via"@ && more[j] != "dev"@,
    ensures
        route_in(line, target) == Some((Some(gw), Some(dev))),
{
    let ws = words(line);
    reveal_strlit("via");
    reveal_strlit("dev");
    assert("via"@[0] == 'v' && "dev"@[0] == 'd');
    assert(ws[0] == target && ws[1] == "via"@ && ws[2] == gw && ws[3] == "dev"@ && ws[4] == dev);
    assert forall|j: int| 5 <= j < ws.len() implies #[trigger] ws[j] != "via"@ && ws[j] != "dev"@ by {
        assert(ws[j] == more[j - 5]);
    }
    lemma_other_words(ws, 5, Some(gw), Some(dev));
    assert(via_dev(ws, 3, Some(gw), None) == via_dev(ws, 5, Some(gw), Some(dev)));
    assert(via_dev(ws, 1, None, None) == via_dev(ws, 3, Some(gw), None));
}

/// The default route is the first whole one among the lines.
pub proof fn law_first_default_route(ls: Seq<Seq<char>>, i: int, k: int, gw: Seq<char>, dev: Seq<char>)
    requires
        0 <= i <= k < ls.len(),
        route_in(ls[k], "default"@) == Some((Some(gw), Some(dev))),
        forall|j: int| i <= j < k ==> !is_whole(route_in(#[trigger] ls[j], "default"@)),
    ensures
        default_route_from(ls, i) == Some((gw, dev)),
    decreases k - i,
{
    if i < k {
        law_first_default_route(ls, i + 1, k, gw, dev);
    }
}

/// Whether a route has both a gateway and an interface.
pub open spec fn is_whole(r: Option<(Option<Seq<char>>, Option<Seq<char>>)>) -> bool {
    r matches Some((g, d)) && g is Some && d is Some
}

/// A byte as two hexadecimal digits.
pub open spec fn hex_pair(b: u8) -> Seq<char> {
    seq![digit_char((b / 16) as nat), digit_char((b % 16) as nat)]
}

proof fn lemma_hex_pair(s: Seq<char>, i: int, b: u8)
    requires
        0 <= i,
        2 * i + 2 <= s.len(),
        s.subrange(2 * i, 2 * i + 2) == hex_pair(b),
    ensures
        hex_byte(s, i) == Some(b as nat),
{
    let h = hex_pair(b);
    assert(digit_worth(h[0]) == b / 16 && digit_worth(h[1]) == b % 16);
    assert(h.drop_last().drop_last() =~= Seq::<char>::empty());
    assert(h.drop_last().last() == h[0]);
    assert(worth(h.drop_last(), 16) == worth(h.drop_last().drop_last(), 16) * 16 + digit_worth(h[0]));
    assert(worth(h, 16) == worth(h.drop_last(), 16) * 16 + digit_worth(h[1]));
    assert(h[0] != '+');
}

/// An address of the kernel's table is its four bytes, the last one first, and the port.
pub proof fn law_address_is_read(a: u8, b: u8, c: u8, d: u8, port: Seq<char>, n: u16)
    requires
        uint_of(port, 16, 65535) == Some(n as nat),
    ensures
        addr_of(hex_pair(d) + hex_pair(c) + hex_pair(b) + hex_pair(a) + seq![':'] + port) == Some(
            (
                dec(a as nat) + "."@ + dec(b as nat) + "."@ + dec(c as nat) + "."@ + dec(d as nat),
                n,
            ),
        ),
{
    let ip = hex_pair(d) + hex_pair(c) + hex_pair(b) + hex_pair(a);
    assert(ip.subrange(0, 2) =~= hex_pair(d));
    assert(ip.subrange(2, 4) =~= hex_pair(c));
    assert(ip.subrange(4, 6) =~= hex_pair(b));
    assert(ip.subrange(6, 8) =~= hex_pair(a));
    lemma_hex_pair(ip, 0, d);
    lemma_hex_pair(ip, 1, c);
    lemma_hex_pair(ip, 2, b);
    lemma_hex_pair(ip, 3, a);
    assert forall|i: int| 0 <= i < ip.len() implies !Pat::Is(':').has(#[trigger] ip[i]) by {
        lemma_no_colon(a);
        lemma_no_colon(b);
        lemma_no_colon(c);
        lemma_no_colon(d);
        let p = hex_pair(
            if i < 2 {
                d
            } else if i < 4 {
                c
            } else if i < 6 {
                b
            } else {
                a
            },
        );
        assert(ip[i] == p[i % 2]);
    }
    law_cut(ip, ':', port, Pat::Is(':'));
}

proof fn lemma_no_colon(b: u8)
    ensures
        hex_pair(b)[0] != ':',
        hex_pair(b)[1] != ':',
{
}

/// A line of the kernel's table of connections gives the port on this side from its second word, and
/// the peer from its third; a socket without a peer is none.
pub proof fn law_connection_is_read(
    line: Seq<char>,
    here: (Seq<char>, u16),
    there: (Seq<char>, u16),
    code: u8,
)
    requires
        words(line).len() >= 4,
        addr_of(words(line)[1]) == Some(here),
        addr_of(words(line)[2]) == Some(there),
        uint_of(words(line)[3], 16, 255) == Some(code as nat),
    ensures
        there.0 == "0.0.0.0"@ && there.1 == 0 ==> connection_in(line) is None,
        there.0 != "0.0.0.0"@ || there.1 != 0 ==> connection_in(line) == Some(
            ConnectionView {
                local_port: here.1,
                remote_ip: there.0,
                remote_port: there.1,
                state: state_name_of(code),
            },
        ),
{
}

/// The addresses of the LAN and of the device itself are not the cloud's, whatever follows; an
/// address is one of them only where it starts so.
pub proof fn law_lan_addresses(rest: Seq<char>, ip: Seq<char>)
    ensures
        lan_address("192.168."@ + rest),
        lan_address("127."@ + rest),
        ip.len() > 0 && ip[0] != '1' ==> !lan_address(ip),
        ip.len() > 1 && ip[1] != '9' && ip[1] != '2' ==> !lan_address(ip),
{
    reveal_strlit("192.168.");
    reveal_strlit("127.");
    let a = "192.168."@ + rest;
    let b = "127."@ + rest;
    assert(a.subrange(0, 8) =~= "192.168."@);
    assert(b.subrange(0, 4) =~= "127."@);
    if starts(ip, "192.168."@) {
        assert(ip.subrange(0, 8)[0] == ip[0] && ip.subrange(0, 8)[1] == ip[1]);
    }
    if starts(ip, "127."@) {
        assert(ip.subrange(0, 4)[0] == ip[0] && ip.subrange(0, 4)[1] == ip[1]);
    }
}

/// A LAN that is probed while someone watches is probed where they watch from; the watcher is the
/// first peer that is connected to the video port.
pub proof fn law_video_peer(cs: Seq<ConnectionView>, i: int, k: int)
    requires
        0 <= i <= k < cs.len(),
        cs[k].local_port == 8554 && cs[k].state == "ESTABLISHED"@,
        forall|j: int|
            i <= j < k ==> (#[trigger] cs[j]).local_port != 8554 || cs[j].state != "ESTABLISHED"@,
    ensures
        video_peer(cs, i) == Some(cs[k].remote_ip),
    decreases k - i,
{
    if i < k {
        law_video_peer(cs, i + 1, k);
    }
}

/// The connections that are reported are those to addresses outside the LAN, each with the address and
/// the port that it has, and its state.
pub proof fn law_peers_outside_are_reported(cs: Seq<ConnectionView>, n: int)
    requires
        0 <= n <= cs.len(),
    ensures
        peers_upto(cs, n) == joined(
            cs.subrange(0, n).filter(|c: ConnectionView| !lan_address(c.remote_ip)).map_values(
                |c: ConnectionView|
                    object(
                        seq![
                            ("remote"@, in_quotes(c.remote_ip + ":"@ + dec(c.remote_port as nat))),
                            ("state"@, in_quotes(c.state)),
                        ],
                    ),
            ),
            ","@,
        ),
    decreases n,
{
    reveal(Seq::filter);
    let p = |c: ConnectionView| !lan_address(c.remote_ip);
    let f = |c: ConnectionView|
        object(
            seq![
                ("remote"@, in_quotes(c.remote_ip + ":"@ + dec(c.remote_port as nat))),
                ("state"@, in_quotes(c.state)),
            ],
        );
    let s = cs.subrange(0, n);
    if n > 0 {
        law_peers_outside_are_reported(cs, n - 1);
        assert(s.drop_last() =~= cs.subrange(0, n - 1));
        let c = cs[n - 1];
        assert(s.last() == c);
        let done = s.drop_last().filter(p);
        assert(done.push(c).map_values(f) =~= done.map_values(f).push(f(c)));
        lemma_peer_text(c);
        lemma_joined_push(done.map_values(f), f(c));
        assert forall|i: int| 0 <= i < done.len() implies #[trigger] done.map_values(f)[i].len() > 0 by {
            lemma_peer_text(done[i]);
        }
        lemma_joined_len(done.map_values(f));
        let before = peers_upto(cs, n - 1);
        if p(c) {
            let ahead = if before.len() > 0 {
                before + ","@
            } else {
                before
            };
            assert(ahead + "{\"remote\":\""@ + c.remote_ip + ":"@ + dec(c.remote_port as nat)
                + "\",\"state\":\""@ + c.state + "\"}"@ =~= ahead + f(c));
        }
    } else {
        assert(s.filter(p).map_values(f) =~= Seq::<Seq<char>>::empty());
    }
}

proof fn lemma_peer_text(c: ConnectionView)
    ensures
        ({
            let o = object(
                seq![
                    ("remote"@, in_quotes(c.remote_ip + ":"@ + dec(c.remote_port as nat))),
                    ("state"@, in_quotes(c.state)),
                ],
            );
            &&& o == "{\"remote\":\""@ + c.remote_ip + ":"@ + dec(c.remote_port as nat)
                + "\",\"state\":\""@ + c.state + "\"}"@
            &&& o.len() > 0
        }),
{
    let r = in_quotes(c.remote_ip + ":"@ + dec(c.remote_port as nat));
    let t = in_quotes(c.state);
    let ms = seq![("remote"@, r), ("state"@, t)];
    let ps = members(ms);
    assert(ps.len() == 2 && ps[0] == member("remote"@, r) && ps[1] == member("state"@, t));
    reveal_with_fuel(joined, 2);
    assert(ps.drop_last().len() == 1 && ps.drop_last()[0] == ps[0]);
    assert(joined(ps, ","@) == ps[0] + ","@ + ps[1]);
    reveal_strlit("{\"remote\":\"");
    reveal_strlit("\",\"state\":\"");
    reveal_strlit("\"}");
    reveal_strlit("remote");
    reveal_strlit("state");
    reveal_strlit("{");
    reveal_strlit("}");
    reveal_strlit(",");
    reveal_strlit(":");
    reveal_strlit("\"");
    assert("{"@ + in_quotes("remote"@) + ":"@ + "\""@ =~= "{\"remote\":\""@);
    assert("\""@ + ","@ + in_quotes("state"@) + ":"@ + "\""@ =~= "\",\"state\":\""@);
    assert("\""@ + "}"@ =~= "\"}"@);
    let whole = ("{"@ + in_quotes("remote"@) + ":"@ + "\""@) + c.remote_ip + ":"@ + dec(
        c.remote_port as nat,
    ) + ("\""@ + ","@ + in_quotes("state"@) + ":"@ + "\""@) + c.state + ("\""@ + "}"@);
    assert(object(ms) =~= whole);
}

proof fn lemma_joined_push(ps: Seq<Seq<char>>, p: Seq<char>)
    ensures
        joined(ps.push(p), ","@) == (if ps.len() > 0 {
            joined(ps, ","@) + ","@
        } else {
            joined(ps, ","@)
        }) + p,
{
    assert(ps.push(p).drop_last() =~= ps);
    if ps.len() == 0 {
        assert(joined(ps.push(p), ","@) == p);
        assert(joined(ps, ","@) + p =~= p);
    }
}

proof fn lemma_joined_len(ps: Seq<Seq<char>>)
    requires
        forall|i: int| 0 <= i < ps.len() ==> #[trigger] ps[i].len() > 0,
    ensures
        (joined(ps, ","@).len() > 0) == (ps.len() > 0),
{
    if ps.len() == 1 {
        assert(ps[0].len() > 0);
    } else if ps.len() > 1 {
        assert(ps[ps.len() - 1].len() > 0);
    }
}

/// The routes that are reported are the lines of the table that hold anything, each without the white
/// space round it.
pub proof fn law_routes_are_reported(ls: Seq<Seq<char>>, n: int)
    requires
        0 <= n <= ls.len(),
    ensures
        routes_upto(ls, n) == joined(
            ls.subrange(0, n).filter(|l: Seq<char>| trimmed(l, Pat::Space).len() > 0).map_values(
                |l: Seq<char>| in_quotes(escaped(trimmed(l, Pat::Space))),
            ),
            ","@,
        ),
    decreases n,
{
    reveal(Seq::filter);
    let p = |l: Seq<char>| trimmed(l, Pat::Space).len() > 0;
    let f = |l: Seq<char>| in_quotes(escaped(trimmed(l, Pat::Space)));
    let s = ls.subrange(0, n);
    reveal_strlit("\"");
    if n > 0 {
        law_routes_are_reported(ls, n - 1);
        assert(s.drop_last() =~= ls.subrange(0, n - 1));
        let l = ls[n - 1];
        assert(s.last() == l);
        let done = s.drop_last().filter(p);
        assert(done.push(l).map_values(f) =~= done.map_values(f).push(f(l)));
        lemma_joined_push(done.map_values(f), f(l));
        lemma_joined_len(done.map_values(f));
        let before = routes_upto(ls, n - 1);
        if p(l) {
            let ahead = if before.len() > 0 {
                before + ","@
            } else {
                before
            };
            assert(ahead + "\""@ + escaped(trimmed(l, Pat::Space)) + "\""@ =~= ahead + f(l));
        }
    } else {
        assert(s.filter(p).map_values(f) =~= Seq::<Seq<char>>::empty());
    }
}

/// The report of the switch gives whether it is on, and the last error if there was one.
pub proof fn law_report_reads_back(s: StateView, routes: Seq<char>, cs: Seq<ConnectionView>)
    requires
        s.last_error matches Some(e) ==> plain(escaped(e)),
    ensures
        field_of(status_text(s, routes, cs), "enabled"@) == Some(bool_text(s.enabled)),
        text_field(status_text(s, routes, cs), "last_error"@) == (match s.last_error {
            Some(e) => Some(escaped(e)),
            None => None,
        }),
{
    let b = bool_text(s.enabled);
    let o = match s.last_error {
        Some(e) => Some(escaped(e)),
        None => None,
    };
    let e = quoted_or_null(o);
    let c = ",\n"@;
    let none = Seq::<char>::empty();
    let p0 = "{\n"@;
    let l0 = line("enabled"@, b);
    let l1 = line("last_error"@, e);
    let p1 = p0 + l0 + c;
    let tail = ",\n  \"routes\": ["@ + routes_upto(lines(routes), lines(routes).len() as int)
        + "],\n  \"connections\": ["@ + peers_upto(cs, cs.len() as int) + "]\n}\n"@;
    let r0 = c + l1 + tail;
    assert("{\n  \"enabled\": "@ =~= p0 + ("  "@ + in_quotes("enabled"@) + ": "@)
        && ",\n  \"last_error\": "@ =~= c + ("  "@ + in_quotes("last_error"@) + ": "@)
        && tail.len() > 0 && tail[0] == ',' && c.len() == 2 && c[0] == ',') by {
        reveal_strlit("{\n  \"enabled\": ");
        reveal_strlit(",\n  \"last_error\": ");
        reveal_strlit(",\n  \"routes\": [");
        reveal_strlit("{\n");
        reveal_strlit(",\n");
        reveal_strlit("  ");
        reveal_strlit("\"");
        reveal_strlit(": ");
        reveal_strlit("enabled");
        reveal_strlit("last_error");
    }
    assert(e == escaped_or_null(s.last_error));
    assert(l0 =~= ("  "@ + in_quotes("enabled"@) + ": "@) + b);
    assert(l1 =~= ("  "@ + in_quotes("last_error"@) + ": "@) + e);
    let t = status_text(s, routes, cs);
    assert(t =~= p0 + l0 + r0);
    assert(t =~= p1 + l1 + (none + tail));
    lemma_state_keys();
    let bare = (StateView { gateway: None, dev: None, ..s });
    lemma_prefixes(b, bare);
    assert(clear_of(p1, "last_error"@)) by {
        lemma_prefix("last_error"@, b, bare);
    }
    lemma_flag_line(p0, s.enabled, r0);
    lemma_text_line(p1, "last_error"@, o, none, tail);
}

/// The gateway is that of the live default route, whatever was kept, and the one that was kept where
/// there is no such route.
pub proof fn law_live_gateway_goes_first(live: Seq<char>, kept: StateView, other: StateView)
    ensures
        default_route(live) is Some ==> gateway_of(live, kept) == gateway_of(live, other) && gateway_of(
            live,
            kept,
        ) == default_route(live),
        default_route(live) is None && kept.gateway is Some && kept.dev is Some ==> gateway_of(live, kept)
            == Some((kept.gateway->0, kept.dev->0)),
        default_route(live) is None && (kept.gateway is None || kept.dev is None) ==> gateway_of(live, kept)
            is None,
{
}

} // verus!
