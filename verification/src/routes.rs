//! The routes: what a request asks for, by its method and path.

use vstd::prelude::*;
use vstd::string::*;

use crate::clips::{is_valid_name, valid_name};
use crate::text::{cut, ends, same, split_once, starts, strip_prefix, strip_suffix, Pat};

pub mod bodies;

pub mod laws;

pub mod paths;

pub mod requests;

verus! {

/// What a request asks for.
#[derive(Debug, PartialEq, Eq)]
pub enum Route {
    State,
    Config,
    ConfigWrite,
    Feed,
    FeedCancel,
    Streams,
    Cloud,
    CloudWrite,
    Schedule,
    ScheduleReplace,
    ScheduleAdd,
    ScheduleRemove,
    ScheduleSetEnabled,
    Events,
    EventsStream,
    EventFile(String),
    PendingFaces,
    PendingFace(String),
    FaceLabel,
    FaceUnlabel,
    FaceCurrent,
    FaceCurrentInfo,
    /// The samples of a cat.
    Samples(String),
    /// One sample: the cat, and the file.
    Sample(String, String),
    /// A photo for a cat.
    FaceUpload,
    /// Delete a sample: the cat, and the file.
    SampleDelete(String, String),
    Cats,
    CatAdd,
    CatDelete(String),
    Identify,
    Feeds,
    FeedFile(String),
    Ble,
    BleAdvertise,
    Wifi,
    WifiScan,
    WifiConnect,
    WifiForget,
    Audio,
    AudioWrite,
    Speak,
    Clips,
    /// A clip's name that is none.
    ClipInvalid,
    ClipPut(String),
    ClipGet(String),
    ClipDelete(String),
    ClipPlay(String),
    NotFound,
}

/// What a request asks for, with its names as sequences.
pub enum RouteView {
    Plain(Route),
    EventFile(Seq<char>),
    PendingFace(Seq<char>),
    Samples(Seq<char>),
    Sample(Seq<char>, Seq<char>),
    SampleDelete(Seq<char>, Seq<char>),
    CatDelete(Seq<char>),
    FeedFile(Seq<char>),
    ClipPut(Seq<char>),
    ClipGet(Seq<char>),
    ClipDelete(Seq<char>),
    ClipPlay(Seq<char>),
}

impl View for Route {
    type V = RouteView;

    open spec fn view(&self) -> RouteView {
        match self {
            Route::EventFile(n) => RouteView::EventFile(n@),
            Route::PendingFace(n) => RouteView::PendingFace(n@),
            Route::Samples(c) => RouteView::Samples(c@),
            Route::Sample(c, n) => RouteView::Sample(c@, n@),
            Route::SampleDelete(c, n) => RouteView::SampleDelete(c@, n@),
            Route::CatDelete(n) => RouteView::CatDelete(n@),
            Route::FeedFile(n) => RouteView::FeedFile(n@),
            Route::ClipPut(n) => RouteView::ClipPut(n@),
            Route::ClipGet(n) => RouteView::ClipGet(n@),
            Route::ClipDelete(n) => RouteView::ClipDelete(n@),
            Route::ClipPlay(n) => RouteView::ClipPlay(n@),
            r => RouteView::Plain(*r),
        }
    }
}

/// What stands behind a prefix.
pub open spec fn behind(path: Seq<char>, prefix: Seq<char>) -> Seq<char> {
    path.subrange(prefix.len() as int, path.len() as int)
}

/// What a path below the samples names: a cat, or one of its samples.
pub open spec fn samples_route(rest: Seq<char>) -> RouteView {
    match cut(rest, Pat::Is('/')) {
        Some((cat, name)) => RouteView::Sample(cat, name),
        None => RouteView::Samples(rest),
    }
}

/// The routes of `GET`.
pub open spec fn get_route(path: Seq<char>) -> RouteView {
    if path == "/state"@ {
        RouteView::Plain(Route::State)
    } else if path == "/config"@ {
        RouteView::Plain(Route::Config)
    } else if path == "/streams"@ {
        RouteView::Plain(Route::Streams)
    } else if path == "/cloud"@ {
        RouteView::Plain(Route::Cloud)
    } else if path == "/schedule"@ {
        RouteView::Plain(Route::Schedule)
    } else if path == "/events"@ {
        RouteView::Plain(Route::Events)
    } else if path == "/events/stream"@ {
        RouteView::Plain(Route::EventsStream)
    } else if starts(path, "/events/"@) {
        RouteView::EventFile(behind(path, "/events/"@))
    } else if path == "/faces/pending"@ {
        RouteView::Plain(Route::PendingFaces)
    } else if starts(path, "/faces/pending/"@) {
        RouteView::PendingFace(behind(path, "/faces/pending/"@))
    } else if path == "/faces/current"@ {
        RouteView::Plain(Route::FaceCurrent)
    } else if path == "/faces/current/info"@ {
        RouteView::Plain(Route::FaceCurrentInfo)
    } else if starts(path, "/faces/samples/"@) {
        samples_route(behind(path, "/faces/samples/"@))
    } else if path == "/cats"@ {
        RouteView::Plain(Route::Cats)
    } else if path == "/identify"@ {
        RouteView::Plain(Route::Identify)
    } else if path == "/feeds"@ {
        RouteView::Plain(Route::Feeds)
    } else if starts(path, "/feeds/"@) {
        RouteView::FeedFile(behind(path, "/feeds/"@))
    } else if path == "/ble"@ {
        RouteView::Plain(Route::Ble)
    } else if path == "/wifi"@ {
        RouteView::Plain(Route::Wifi)
    } else if path == "/wifi/scan"@ {
        RouteView::Plain(Route::WifiScan)
    } else if path == "/audio"@ {
        RouteView::Plain(Route::Audio)
    } else if path == "/clips"@ {
        RouteView::Plain(Route::Clips)
    } else {
        RouteView::Plain(Route::NotFound)
    }
}

/// The routes of `POST`.
pub open spec fn post_route(path: Seq<char>) -> RouteView {
    if path == "/config"@ {
        RouteView::Plain(Route::ConfigWrite)
    } else if path == "/feed"@ {
        RouteView::Plain(Route::Feed)
    } else if path == "/feed/cancel"@ {
        RouteView::Plain(Route::FeedCancel)
    } else if path == "/cloud"@ {
        RouteView::Plain(Route::CloudWrite)
    } else if path == "/schedule/entry"@ {
        RouteView::Plain(Route::ScheduleAdd)
    } else if path == "/schedule/entry/enabled"@ {
        RouteView::Plain(Route::ScheduleSetEnabled)
    } else if path == "/faces/label"@ {
        RouteView::Plain(Route::FaceLabel)
    } else if path == "/faces/unlabel"@ {
        RouteView::Plain(Route::FaceUnlabel)
    } else if path == "/faces/upload"@ {
        RouteView::Plain(Route::FaceUpload)
    } else if path == "/cats"@ {
        RouteView::Plain(Route::CatAdd)
    } else if path == "/ble/advertise"@ {
        RouteView::Plain(Route::BleAdvertise)
    } else if path == "/wifi/connect"@ {
        RouteView::Plain(Route::WifiConnect)
    } else if path == "/wifi/forget"@ {
        RouteView::Plain(Route::WifiForget)
    } else if path == "/audio"@ {
        RouteView::Plain(Route::AudioWrite)
    } else if path == "/speak"@ {
        RouteView::Plain(Route::Speak)
    } else {
        RouteView::Plain(Route::NotFound)
    }
}

/// The routes of `DELETE`.
pub open spec fn delete_route(path: Seq<char>) -> RouteView {
    if path == "/schedule/entry"@ {
        RouteView::Plain(Route::ScheduleRemove)
    } else if starts(path, "/cats/"@) {
        RouteView::CatDelete(behind(path, "/cats/"@))
    } else if starts(path, "/faces/samples/"@) {
        match cut(behind(path, "/faces/samples/"@), Pat::Is('/')) {
            Some((cat, name)) => RouteView::SampleDelete(cat, name),
            None => RouteView::Plain(Route::NotFound),
        }
    } else {
        RouteView::Plain(Route::NotFound)
    }
}

/// What a method does to a clip; to play one is a path of its own.
pub open spec fn clip_of(method: Seq<char>, rest: Seq<char>) -> RouteView {
    let play = ends(rest, "/play"@);
    let name = if play {
        rest.subrange(0, rest.len() - "/play"@.len())
    } else {
        rest
    };
    if !is_valid_name(name) {
        RouteView::Plain(Route::ClipInvalid)
    } else if method == "PUT"@ && !play {
        RouteView::ClipPut(name)
    } else if method == "GET"@ && !play {
        RouteView::ClipGet(name)
    } else if method == "DELETE"@ && !play {
        RouteView::ClipDelete(name)
    } else if method == "POST"@ && play {
        RouteView::ClipPlay(name)
    } else {
        RouteView::Plain(Route::NotFound)
    }
}

/// What a request asks for; `path` comes without its query.
pub open spec fn route_of(method: Seq<char>, path: Seq<char>) -> RouteView {
    if starts(path, "/clips/"@) {
        clip_of(method, behind(path, "/clips/"@))
    } else if method == "GET"@ {
        get_route(path)
    } else if method == "POST"@ {
        post_route(path)
    } else if method == "PUT"@ && path == "/schedule"@ {
        RouteView::Plain(Route::ScheduleReplace)
    } else if method == "DELETE"@ {
        delete_route(path)
    } else {
        RouteView::Plain(Route::NotFound)
    }
}

fn get(path: &str) -> (r: Route)
    ensures
        r@ == get_route(path@),
{
    if same(path, "/state") {
        Route::State
    } else if same(path, "/config") {
        Route::Config
    } else if same(path, "/streams") {
        Route::Streams
    } else if same(path, "/cloud") {
        Route::Cloud
    } else if same(path, "/schedule") {
        Route::Schedule
    } else if same(path, "/events") {
        Route::Events
    } else if same(path, "/events/stream") {
        Route::EventsStream
    } else if let Some(name) = strip_prefix(path, "/events/") {
        Route::EventFile(name.to_owned())
    } else {
        get_more(path)
    }
}

fn get_more(path: &str) -> (r: Route)
    requires
        path@ != "/state"@,
        path@ != "/config"@,
        path@ != "/streams"@,
        path@ != "/cloud"@,
        path@ != "/schedule"@,
        path@ != "/events"@,
        path@ != "/events/stream"@,
        !starts(path@, "/events/"@),
    ensures
        r@ == get_route(path@),
{
    if same(path, "/faces/pending") {
        Route::PendingFaces
    } else if let Some(name) = strip_prefix(path, "/faces/pending/") {
        Route::PendingFace(name.to_owned())
    } else if same(path, "/faces/current") {
        Route::FaceCurrent
    } else if same(path, "/faces/current/info") {
        Route::FaceCurrentInfo
    } else if let Some(rest) = strip_prefix(path, "/faces/samples/") {
        faces_samples_route(rest)
    } else if same(path, "/cats") {
        Route::Cats
    } else if same(path, "/identify") {
        Route::Identify
    } else if same(path, "/feeds") {
        Route::Feeds
    } else if let Some(name) = strip_prefix(path, "/feeds/") {
        Route::FeedFile(name.to_owned())
    } else if same(path, "/ble") {
        Route::Ble
    } else if same(path, "/wifi") {
        Route::Wifi
    } else if same(path, "/wifi/scan") {
        Route::WifiScan
    } else if same(path, "/audio") {
        Route::Audio
    } else if same(path, "/clips") {
        Route::Clips
    } else {
        Route::NotFound
    }
}

fn faces_samples_route(rest: &str) -> (r: Route)
    ensures
        r@ == samples_route(rest@),
{
    match split_once(rest, Pat::Is('/')) {
        Some((cat, name)) => Route::Sample(cat.to_owned(), name.to_owned()),
        None => Route::Samples(rest.to_owned()),
    }
}

fn post(path: &str) -> (r: Route)
    ensures
        r@ == post_route(path@),
{
    if same(path, "/config") {
        Route::ConfigWrite
    } else if same(path, "/feed") {
        Route::Feed
    } else if same(path, "/feed/cancel") {
        Route::FeedCancel
    } else if same(path, "/cloud") {
        Route::CloudWrite
    } else if same(path, "/schedule/entry") {
        Route::ScheduleAdd
    } else if same(path, "/schedule/entry/enabled") {
        Route::ScheduleSetEnabled
    } else if same(path, "/faces/label") {
        Route::FaceLabel
    } else if same(path, "/faces/unlabel") {
        Route::FaceUnlabel
    } else if same(path, "/faces/upload") {
        Route::FaceUpload
    } else if same(path, "/cats") {
        Route::CatAdd
    } else if same(path, "/ble/advertise") {
        Route::BleAdvertise
    } else if same(path, "/wifi/connect") {
        Route::WifiConnect
    } else if same(path, "/wifi/forget") {
        Route::WifiForget
    } else if same(path, "/audio") {
        Route::AudioWrite
    } else if same(path, "/speak") {
        Route::Speak
    } else {
        Route::NotFound
    }
}

fn delete(path: &str) -> (r: Route)
    ensures
        r@ == delete_route(path@),
{
    if same(path, "/schedule/entry") {
        Route::ScheduleRemove
    } else if let Some(name) = strip_prefix(path, "/cats/") {
        Route::CatDelete(name.to_owned())
    } else if let Some(rest) = strip_prefix(path, "/faces/samples/") {
        match split_once(rest, Pat::Is('/')) {
            Some((cat, name)) => Route::SampleDelete(cat.to_owned(), name.to_owned()),
            None => Route::NotFound,
        }
    } else {
        Route::NotFound
    }
}

fn clip_route(method: &str, rest: &str) -> (r: Route)
    ensures
        r@ == clip_of(method@, rest@),
{
    let (name, play): (&str, bool) = match strip_suffix(rest, "/play") {
        Some(name) => (name, true),
        None => (rest, false),
    };
    if !valid_name(name) {
        Route::ClipInvalid
    } else if same(method, "PUT") && !play {
        Route::ClipPut(name.to_owned())
    } else if same(method, "GET") && !play {
        Route::ClipGet(name.to_owned())
    } else if same(method, "DELETE") && !play {
        Route::ClipDelete(name.to_owned())
    } else if same(method, "POST") && play {
        Route::ClipPlay(name.to_owned())
    } else {
        Route::NotFound
    }
}

/// What a request asks for; `path` comes without its query.
pub fn route(method: &str, path: &str) -> (r: Route)
    ensures
        r@ == route_of(method@, path@),
{
    if let Some(rest) = strip_prefix(path, "/clips/") {
        clip_route(method, rest)
    } else if same(method, "GET") {
        get(path)
    } else if same(method, "POST") {
        post(path)
    } else if same(method, "PUT") && same(path, "/schedule") {
        Route::ScheduleReplace
    } else if same(method, "DELETE") {
        delete(path)
    } else {
        Route::NotFound
    }
}

} // verus!
