//! Which part of a path a request is about.

use vstd::prelude::*;
use vstd::string::*;

use crate::clips::is_valid_name;
use crate::json::lemmas::lacks;
use crate::routes::{delete_route, route_of, RouteView};
use crate::text::{ends, law_cut, starts, Pat};

verus! {

proof fn lemma_prefix(prefix: Seq<char>, rest: Seq<char>)
    ensures
        starts(prefix + rest, prefix),
        (prefix + rest).subrange(prefix.len() as int, (prefix + rest).len() as int) == rest,
        forall|i: int| 0 <= i < prefix.len() ==> (prefix + rest)[i] == #[trigger] prefix[i],
{
    let s = prefix + rest;
    assert(s.subrange(0, prefix.len() as int) =~= prefix);
    assert(s.subrange(prefix.len() as int, s.len() as int) =~= rest);
}

/// A path that starts otherwise does not start with `prefix`.
proof fn lemma_no_prefix(s: Seq<char>, prefix: Seq<char>, i: int)
    requires
        0 <= i < prefix.len(),
        i >= s.len() || s[i] != prefix[i],
    ensures
        !starts(s, prefix),
        s != prefix,
{
    if starts(s, prefix) {
        assert(s.subrange(0, prefix.len() as int)[i] == s[i]);
    }
}

/// An event's file is asked for by its name, whatever that is, but for the stream.
pub proof fn law_event_files(name: Seq<char>)
    requires
        name != "stream"@,
    ensures
        route_of("GET"@, "/events/"@ + name) == RouteView::EventFile(name),
{
    let s = "/events/"@ + name;
    lemma_prefix("/events/"@, name);
    reveal_strlit("/events/");
    reveal_strlit("/state");
    reveal_strlit("/config");
    reveal_strlit("/streams");
    reveal_strlit("/cloud");
    reveal_strlit("/schedule");
    reveal_strlit("/events");
    reveal_strlit("/clips/");
    reveal_strlit("GET");
    reveal_strlit("POST");
    reveal_strlit("PUT");
    reveal_strlit("DELETE");
    lemma_no_prefix(s, "/state"@, 1);
    lemma_no_prefix(s, "/config"@, 1);
    lemma_no_prefix(s, "/streams"@, 1);
    lemma_no_prefix(s, "/cloud"@, 1);
    lemma_no_prefix(s, "/schedule"@, 1);
    lemma_no_prefix(s, "/clips/"@, 1);
    if s == "/events/stream"@ {
        assert(s.subrange(8, s.len() as int) =~= "stream"@) by {
            reveal_strlit("/events/stream");
            reveal_strlit("stream");
        }
    }
    assert(s.len() > "/events"@.len());
    assert("GET"@.len() == 3);
    assert("GET"@[0] == 'G' && "POST"@.len() == 4 && "PUT"@[0] == 'P' && "DELETE"@.len() == 6);
}

/// A crop that waits is asked for by its name.
pub proof fn law_pending_faces(name: Seq<char>)
    ensures
        route_of("GET"@, "/faces/pending/"@ + name) == RouteView::PendingFace(name),
{
    let s = "/faces/pending/"@ + name;
    lemma_prefix("/faces/pending/"@, name);
    reveal_strlit("/faces/pending/");
    reveal_strlit("/state");
    reveal_strlit("/config");
    reveal_strlit("/streams");
    reveal_strlit("/cloud");
    reveal_strlit("/schedule");
    reveal_strlit("/events");
    reveal_strlit("/events/stream");
    reveal_strlit("/faces/pending");
    reveal_strlit("/events/");
    reveal_strlit("/clips/");
    reveal_strlit("GET");
    reveal_strlit("POST");
    reveal_strlit("PUT");
    reveal_strlit("DELETE");
    lemma_no_prefix(s, "/state"@, 1);
    lemma_no_prefix(s, "/config"@, 1);
    lemma_no_prefix(s, "/streams"@, 1);
    lemma_no_prefix(s, "/cloud"@, 1);
    lemma_no_prefix(s, "/schedule"@, 1);
    lemma_no_prefix(s, "/events"@, 1);
    lemma_no_prefix(s, "/events/stream"@, 1);
    lemma_no_prefix(s, "/events/"@, 1);
    lemma_no_prefix(s, "/clips/"@, 1);
    assert(s.len() > "/faces/pending"@.len());
    assert("GET"@.len() == 3);
    assert("GET"@[0] == 'G' && "POST"@.len() == 4 && "PUT"@[0] == 'P' && "DELETE"@.len() == 6);
}

/// A picture of a feed is asked for by its name.
pub proof fn law_feed_files(name: Seq<char>)
    ensures
        route_of("GET"@, "/feeds/"@ + name) == RouteView::FeedFile(name),
{
    let s = "/feeds/"@ + name;
    lemma_prefix("/feeds/"@, name);
    reveal_strlit("/feeds/");
    reveal_strlit("/state");
    reveal_strlit("/config");
    reveal_strlit("/streams");
    reveal_strlit("/cloud");
    reveal_strlit("/schedule");
    reveal_strlit("/events");
    reveal_strlit("/events/stream");
    reveal_strlit("/faces/pending");
    reveal_strlit("/faces/current");
    reveal_strlit("/faces/current/info");
    reveal_strlit("/cats");
    reveal_strlit("/identify");
    reveal_strlit("/feeds");
    reveal_strlit("/events/");
    reveal_strlit("/faces/pending/");
    reveal_strlit("/faces/samples/");
    reveal_strlit("/clips/");
    reveal_strlit("GET");
    reveal_strlit("POST");
    reveal_strlit("PUT");
    reveal_strlit("DELETE");
    lemma_no_prefix(s, "/state"@, 1);
    lemma_no_prefix(s, "/config"@, 1);
    lemma_no_prefix(s, "/streams"@, 1);
    lemma_no_prefix(s, "/cloud"@, 1);
    lemma_no_prefix(s, "/schedule"@, 1);
    lemma_no_prefix(s, "/events"@, 1);
    lemma_no_prefix(s, "/events/stream"@, 1);
    lemma_no_prefix(s, "/faces/pending"@, 2);
    lemma_no_prefix(s, "/faces/current"@, 2);
    lemma_no_prefix(s, "/faces/current/info"@, 2);
    lemma_no_prefix(s, "/cats"@, 1);
    lemma_no_prefix(s, "/identify"@, 1);
    lemma_no_prefix(s, "/events/"@, 1);
    lemma_no_prefix(s, "/faces/pending/"@, 2);
    lemma_no_prefix(s, "/faces/samples/"@, 2);
    lemma_no_prefix(s, "/clips/"@, 1);
    assert(s.len() > "/feeds"@.len());
    assert("GET"@.len() == 3);
    assert("GET"@[0] == 'G' && "POST"@.len() == 4 && "PUT"@[0] == 'P' && "DELETE"@.len() == 6);
}

/// A cat is deleted by its name.
pub proof fn law_cats_are_deleted(name: Seq<char>)
    ensures
        route_of("DELETE"@, "/cats/"@ + name) == RouteView::CatDelete(name),
{
    let s = "/cats/"@ + name;
    lemma_prefix("/cats/"@, name);
    reveal_strlit("/cats/");
    reveal_strlit("/schedule/entry");
    reveal_strlit("/clips/");
    reveal_strlit("GET");
    reveal_strlit("POST");
    reveal_strlit("PUT");
    reveal_strlit("DELETE");
    lemma_no_prefix(s, "/schedule/entry"@, 1);
    lemma_no_prefix(s, "/clips/"@, 2);
    assert("GET"@.len() == 3);
    assert("GET"@[0] == 'G' && "POST"@.len() == 4 && "PUT"@[0] == 'P' && "DELETE"@.len() == 6);
}

/// A sample is asked for, and deleted, by the cat and its name; a cat alone asks for all of its
/// samples.
pub proof fn law_samples(cat: Seq<char>, name: Seq<char>)
    requires
        lacks(cat, '/'),
    ensures
        route_of("GET"@, "/faces/samples/"@ + (cat + seq!['/'] + name)) == RouteView::Sample(cat, name),
        route_of("GET"@, "/faces/samples/"@ + cat) == RouteView::Samples(cat),
        route_of("DELETE"@, "/faces/samples/"@ + (cat + seq!['/'] + name)) == RouteView::SampleDelete(
            cat,
            name,
        ),
{
    lemma_sample_path(cat + seq!['/'] + name);
    lemma_sample_path(cat);
    law_cut(cat, '/', name, Pat::Is('/'));
}

proof fn lemma_sample_path(rest: Seq<char>)
    ensures
        route_of("GET"@, "/faces/samples/"@ + rest) == crate::routes::samples_route(rest),
        route_of("DELETE"@, "/faces/samples/"@ + rest) == delete_route("/faces/samples/"@ + rest),
        !starts("/faces/samples/"@ + rest, "/cats/"@),
        "/faces/samples/"@ + rest != "/schedule/entry"@,
        starts("/faces/samples/"@ + rest, "/faces/samples/"@),
        ("/faces/samples/"@ + rest).subrange(15, ("/faces/samples/"@ + rest).len() as int) == rest,
        "/faces/samples/"@.len() == 15,
{
    let s = "/faces/samples/"@ + rest;
    lemma_prefix("/faces/samples/"@, rest);
    reveal_strlit("/faces/samples/");
    reveal_strlit("/state");
    reveal_strlit("/config");
    reveal_strlit("/streams");
    reveal_strlit("/cloud");
    reveal_strlit("/schedule");
    reveal_strlit("/events");
    reveal_strlit("/events/stream");
    reveal_strlit("/faces/pending");
    reveal_strlit("/faces/current");
    reveal_strlit("/faces/current/info");
    reveal_strlit("/events/");
    reveal_strlit("/faces/pending/");
    reveal_strlit("/cats/");
    reveal_strlit("/schedule/entry");
    reveal_strlit("/clips/");
    reveal_strlit("GET");
    reveal_strlit("POST");
    reveal_strlit("PUT");
    reveal_strlit("DELETE");
    lemma_no_prefix(s, "/state"@, 1);
    lemma_no_prefix(s, "/config"@, 1);
    lemma_no_prefix(s, "/streams"@, 1);
    lemma_no_prefix(s, "/cloud"@, 1);
    lemma_no_prefix(s, "/schedule"@, 1);
    lemma_no_prefix(s, "/events"@, 1);
    lemma_no_prefix(s, "/events/stream"@, 1);
    lemma_no_prefix(s, "/faces/pending"@, 7);
    lemma_no_prefix(s, "/faces/current"@, 7);
    lemma_no_prefix(s, "/faces/current/info"@, 7);
    lemma_no_prefix(s, "/events/"@, 1);
    lemma_no_prefix(s, "/faces/pending/"@, 7);
    lemma_no_prefix(s, "/cats/"@, 1);
    lemma_no_prefix(s, "/schedule/entry"@, 1);
    lemma_no_prefix(s, "/clips/"@, 1);
    assert("GET"@[0] == 'G' && "POST"@.len() == 4 && "PUT"@[0] == 'P' && "DELETE"@.len() == 6 && "GET"@.len()
        == 3);
}

/// A clip is put, fetched, deleted and played by its name; a name that is none is refused.
pub proof fn law_clip_routes(name: Seq<char>)
    requires
        lacks(name, '/'),
    ensures
        is_valid_name(name) ==> route_of("PUT"@, "/clips/"@ + name) == RouteView::ClipPut(name),
        is_valid_name(name) ==> route_of("GET"@, "/clips/"@ + name) == RouteView::ClipGet(name),
        is_valid_name(name) ==> route_of("DELETE"@, "/clips/"@ + name) == RouteView::ClipDelete(name),
        is_valid_name(name) ==> route_of("POST"@, "/clips/"@ + (name + "/play"@)) == RouteView::ClipPlay(
            name,
        ),
        !is_valid_name(name) ==> route_of("PUT"@, "/clips/"@ + name) == RouteView::Plain(
            crate::routes::Route::ClipInvalid,
        ),
{
    reveal_strlit("/play");
    reveal_strlit("GET");
    reveal_strlit("POST");
    reveal_strlit("PUT");
    reveal_strlit("DELETE");
    assert("GET"@[0] == 'G' && "POST"@.len() == 4 && "PUT"@[0] == 'P' && "DELETE"@.len() == 6 && "GET"@.len()
        == 3 && "PUT"@.len() == 3);
    lemma_prefix("/clips/"@, name);
    let p = name + "/play"@;
    lemma_prefix("/clips/"@, p);
    assert(p.subrange(p.len() - 5, p.len() as int) =~= "/play"@);
    assert(p.subrange(0, p.len() - 5) =~= name);
    assert(!ends(name, "/play"@)) by {
        if ends(name, "/play"@) {
            assert(name.subrange(name.len() - 5, name.len() as int)[0] == name[name.len() - 5]);
        }
    }
}

} // verus!
