//! Local push: a WebSocket feed of the bodies that the GET routes serve, sent when they change.
//!
//! Producers mark fields; marks that land between two sends coalesce into one update. The framing
//! is the part of RFC 6455 that this needs: the handshake, unfragmented frames, masking, control
//! frames.

use vstd::prelude::*;
use vstd::slice::slice_subrange;
use vstd::string::*;
use vstd::utf8::encode_utf8;

use crate::base64::{base64_encode, base64_of};
use crate::bytes::{be16, be16_at, be64, push_all, push_be16, push_be64, read_be16};
use crate::http::{find_headers_end, headers_end};
use crate::json::joined;
use crate::json::lemmas::member;
use crate::number::{dec, push_dec};
use crate::sha1::{digest, digest_of};
use crate::text::{
    contains, cut, eq_ignore_ascii_case, from_utf8_lossy, has_text, lines, lossy,
    same_ignoring_case, split_lines, split_once, texts, trim, trimmed, Pat,
};

verus! {

/// The version of the protocol.
pub const PROTO: u32 = 1;

/// How often, in milliseconds, the server pings.
pub const PING_INTERVAL: u64 = 30_000;

/// How long, in milliseconds, a client may be silent.
pub const CLIENT_TIMEOUT: u64 = 90_000;

/// The longest frame that a client may send.
pub const MAX_CLIENT_FRAME: usize = 1024;

/// How far the end of the handshake's headers is looked for.
pub const MAX_HANDSHAKE: usize = 4096;

pub const WS_GUID: &'static str = "258EAFA5-E914-47DA-95CA-C5AB0DC85B11";

/// One field of the snapshot.
#[derive(Clone, Copy, PartialEq, Eq, PartialOrd, Ord, Debug, Structural)]
pub enum Field {
    State,
    Schedule,
    Config,
    Cloud,
    Wifi,
    WifiScan,
    Cats,
    Identify,
    ReviewFace,
    PendingFaces,
    Clips,
    Feeds,
    Events,
}

/// Every field, in its order.
pub open spec fn all_fields() -> Seq<Field> {
    seq![
        Field::State,
        Field::Schedule,
        Field::Config,
        Field::Cloud,
        Field::Wifi,
        Field::WifiScan,
        Field::Cats,
        Field::Identify,
        Field::ReviewFace,
        Field::PendingFaces,
        Field::Clips,
        Field::Feeds,
        Field::Events,
    ]
}

impl Field {
    /// Every field, in its order.
    pub const ALL: [Field; 13] = [
        Field::State,
        Field::Schedule,
        Field::Config,
        Field::Cloud,
        Field::Wifi,
        Field::WifiScan,
        Field::Cats,
        Field::Identify,
        Field::ReviewFace,
        Field::PendingFaces,
        Field::Clips,
        Field::Feeds,
        Field::Events,
    ];

    /// The place of the field in the order.
    pub open spec fn place(self) -> int {
        match self {
            Field::State => 0,
            Field::Schedule => 1,
            Field::Config => 2,
            Field::Cloud => 3,
            Field::Wifi => 4,
            Field::WifiScan => 5,
            Field::Cats => 6,
            Field::Identify => 7,
            Field::ReviewFace => 8,
            Field::PendingFaces => 9,
            Field::Clips => 10,
            Field::Feeds => 11,
            Field::Events => 12,
        }
    }

    fn index(self) -> (i: usize)
        ensures
            i == self.place(),
            i < 13,
    {
        match self {
            Field::State => 0,
            Field::Schedule => 1,
            Field::Config => 2,
            Field::Cloud => 3,
            Field::Wifi => 4,
            Field::WifiScan => 5,
            Field::Cats => 6,
            Field::Identify => 7,
            Field::ReviewFace => 8,
            Field::PendingFaces => 9,
            Field::Clips => 10,
            Field::Feeds => 11,
            Field::Events => 12,
        }
    }

    /// The key of the field in a frame.
    pub open spec fn key(self) -> Seq<char> {
        match self {
            Field::State => "state"@,
            Field::Schedule => "schedule"@,
            Field::Config => "config"@,
            Field::Cloud => "cloud"@,
            Field::Wifi => "wifi"@,
            Field::WifiScan => "wifi_scan"@,
            Field::Cats => "cats"@,
            Field::Identify => "identify"@,
            Field::ReviewFace => "review_face"@,
            Field::PendingFaces => "pending_faces"@,
            Field::Clips => "clips"@,
            Field::Feeds => "feeds"@,
            Field::Events => "events"@,
        }
    }

    pub fn name(self) -> (s: &'static str)
        ensures
            s@ == self.key(),
    {
        match self {
            Field::State => "state",
            Field::Schedule => "schedule",
            Field::Config => "config",
            Field::Cloud => "cloud",
            Field::Wifi => "wifi",
            Field::WifiScan => "wifi_scan",
            Field::Cats => "cats",
            Field::Identify => "identify",
            Field::ReviewFace => "review_face",
            Field::PendingFaces => "pending_faces",
            Field::Clips => "clips",
            Field::Feeds => "feeds",
            Field::Events => "events",
        }
    }
}

/// Every field stands at its place in the order, which holds no others.
pub proof fn law_order_covers_all(f: Field)
    ensures
        Field::ALL@ == all_fields(),
        0 <= f.place() < 13,
        all_fields()[f.place()] == f,
{
    assert(Field::ALL@ =~= all_fields());
}

/// The length of a field's name, and its first and third characters.
spec fn key_shape(f: Field) -> (int, char, char) {
    match f {
        Field::State => (5, 's', 'a'),
        Field::Schedule => (8, 's', 'h'),
        Field::Config => (6, 'c', 'n'),
        Field::Cloud => (5, 'c', 'o'),
        Field::Wifi => (4, 'w', 'f'),
        Field::WifiScan => (9, 'w', 'f'),
        Field::Cats => (4, 'c', 't'),
        Field::Identify => (8, 'i', 'e'),
        Field::ReviewFace => (11, 'r', 'v'),
        Field::PendingFaces => (13, 'p', 'n'),
        Field::Clips => (5, 'c', 'i'),
        Field::Feeds => (5, 'f', 'e'),
        Field::Events => (6, 'e', 'e'),
    }
}

proof fn lemma_key_shape(f: Field)
    ensures
        (f.key().len() as int, f.key()[0], f.key()[2]) == key_shape(f),
{
    reveal_strlit("state");
    reveal_strlit("schedule");
    reveal_strlit("config");
    reveal_strlit("cloud");
    reveal_strlit("wifi");
    reveal_strlit("wifi_scan");
    reveal_strlit("cats");
    reveal_strlit("identify");
    reveal_strlit("review_face");
    reveal_strlit("pending_faces");
    reveal_strlit("clips");
    reveal_strlit("feeds");
    reveal_strlit("events");
}

/// No two fields share a name.
pub proof fn law_names_are_unique(f: Field, g: Field)
    requires
        f.key() == g.key(),
    ensures
        f == g,
{
    lemma_key_shape(f);
    lemma_key_shape(g);
}

/// The fields that changed since the last send.
pub struct Bus {
    dirty: [bool; 13],
    seq: u64,
}

/// The fields of the first `n` in the order that are in `s`.
pub open spec fn listed(s: Set<Field>, n: int) -> Seq<Field>
    decreases n,
{
    if n <= 0 {
        Seq::empty()
    } else if s.contains(all_fields()[n - 1]) {
        listed(s, n - 1).push(all_fields()[n - 1])
    } else {
        listed(s, n - 1)
    }
}

impl Bus {
    /// The fields that are marked.
    pub closed spec fn marked(&self) -> Set<Field> {
        Set::new(|f: Field| self.dirty@[f.place()])
    }

    /// How often fields were marked.
    pub closed spec fn count(&self) -> u64 {
        self.seq
    }

    pub fn new() -> (b: Bus)
        ensures
            b.marked() == Set::<Field>::empty(),
            b.count() == 0,
    {
        let b: Bus = Bus { dirty: [false;13], seq: 0 };
        assert(b.marked() =~= Set::<Field>::empty());
        b
    }

    pub fn sequence(&self) -> (n: u64)
        ensures
            n == self.count(),
    {
        self.seq
    }

    pub fn is_clean(&self) -> (r: bool)
        ensures
            r == (self.marked() == Set::<Field>::empty()),
    {
        let mut i: usize = 0;
        while i < 13
            invariant
                i <= 13,
                forall|j: int| 0 <= j < i ==> !self.dirty@[j],
            decreases 13 - i,
        {
            if self.dirty[i] {
                proof {
                    law_order_covers_all(Field::State);
                    let f = all_fields()[i as int];
                    assert(f.place() == i);
                    assert(self.marked().contains(f));
                }
                return false;
            }
            i = i + 1;
        }
        assert(self.marked() =~= Set::<Field>::empty()) by {
            assert forall|f: Field| !self.marked().contains(f) by {
                law_order_covers_all(f);
            }
        }
        true
    }
}

/// Records that a field's body may differ from what a client last saw.
pub fn mark(bus: &mut Bus, field: Field)
    ensures
        final(bus).marked() == old(bus).marked().insert(field),
        final(bus).count() == old(bus).count().wrapping_add(1),
{
    let i: usize = field.index();
    bus.dirty[i] = true;
    bus.seq = bus.seq.wrapping_add(1);
    proof {
        assert(bus.marked() =~= old(bus).marked().insert(field)) by {
            assert forall|f: Field| bus.marked().contains(f) <==> old(bus).marked().insert(
                field,
            ).contains(f) by {
                law_order_covers_all(f);
                law_order_covers_all(field);
                if f.place() == field.place() {
                    assert(f == field);
                }
            }
        }
    }
}

/// Marks several fields at once.
pub fn mark_all(bus: &mut Bus, fields: &[Field])
    ensures
        final(bus).marked() == old(bus).marked() + fields@.to_set(),
        final(bus).count() == old(bus).count().wrapping_add(1),
{
    let ghost seq = bus.seq;
    let mut k: usize = 0;
    assert(fields@.subrange(0, 0).to_set() =~= Set::<Field>::empty());
    assert(bus.marked() =~= old(bus).marked() + fields@.subrange(0, 0).to_set());
    while k < fields.len()
        invariant
            k <= fields@.len(),
            bus.seq == old(bus).seq,
            bus.marked() == old(bus).marked() + fields@.subrange(0, k as int).to_set(),
        decreases fields@.len() - k,
    {
        let field: Field = fields[k];
        let ghost was = bus.marked();
        let ghost dirty = bus.dirty@;
        let i: usize = field.index();
        bus.dirty[i] = true;
        proof {
            assert(bus.marked() =~= was.insert(field)) by {
                assert forall|f: Field| bus.marked().contains(f) <==> was.insert(field).contains(
                    f,
                ) by {
                    law_order_covers_all(f);
                    law_order_covers_all(field);
                    if f.place() == field.place() {
                        assert(f == field);
                    }
                }
            }
            let now = fields@.subrange(0, k + 1);
            let before = fields@.subrange(0, k as int);
            assert(now =~= before.push(field));
            assert(now.to_set() =~= before.to_set().insert(field)) by {
                assert forall|f: Field| now.to_set().contains(f) <==> before.to_set().insert(
                    field,
                ).contains(f) by {
                    if before.contains(f) {
                        let j = choose|j: int| 0 <= j < before.len() && before[j] == f;
                        assert(now[j] == f);
                    }
                    assert(now[k as int] == field);
                    if now.contains(f) && f != field {
                        let j = choose|j: int| 0 <= j < now.len() && now[j] == f;
                        assert(before[j] == f);
                    }
                }
            }
            assert(bus.marked() =~= old(bus).marked() + now.to_set());
        }
        k = k + 1;
    }
    assert(fields@.subrange(0, k as int) =~= fields@);
    bus.seq = bus.seq.wrapping_add(1);
}

/// Takes the marks: the marked fields in their order. Nothing stays marked.
pub fn drain(bus: &mut Bus) -> (out: Vec<Field>)
    ensures
        out@ == listed(old(bus).marked(), 13),
        final(bus).marked() == Set::<Field>::empty(),
        final(bus).count() == old(bus).count(),
{
    let mut out: Vec<Field> = Vec::new();
    let ghost marked = bus.marked();
    proof {
        law_order_covers_all(Field::State);
    }
    let mut i: usize = 0;
    while i < 13
        invariant
            i <= 13,
            marked == old(bus).marked(),
            *bus == *old(bus),
            Field::ALL@ == all_fields(),
            out@ == listed(marked, i as int),
        decreases 13 - i,
    {
        proof {
            let f = all_fields()[i as int];
            assert(f.place() == i);
            assert(marked.contains(f) == bus.dirty@[i as int]);
        }
        if bus.dirty[i] {
            out.push(Field::ALL[i]);
        }
        i = i + 1;
    }
    bus.dirty = [false;13];
    assert(bus.marked() =~= Set::<Field>::empty()) by {
        assert forall|f: Field| !bus.marked().contains(f) by {
            law_order_covers_all(f);
        }
    }
    out
}

/// However often a field was marked, it is taken once, and in the order of the fields.
pub proof fn law_marks_coalesce(s: Set<Field>, f: Field)
    ensures
        listed(s, 13).contains(f) <==> s.contains(f),
        listed(s, 13).no_duplicates(),
{
    lemma_listed(s, 13);
    law_order_covers_all(f);
    let l = listed(s, 13);
    if s.contains(f) {
        assert(l.contains(all_fields()[f.place()]));
    }
}

proof fn lemma_listed(s: Set<Field>, n: int)
    requires
        0 <= n <= 13,
    ensures
        forall|i: int|
            0 <= i < n ==> (listed(s, n).contains(#[trigger] all_fields()[i]) <==> s.contains(
                all_fields()[i],
            )),
        forall|j: int|
            0 <= j < listed(s, n).len() ==> (#[trigger] listed(s, n)[j]).place() < n && s.contains(
                listed(s, n)[j],
            ),
        listed(s, n).no_duplicates(),
    decreases n,
{
    if n > 0 {
        lemma_listed(s, n - 1);
        let before = listed(s, n - 1);
        let now = listed(s, n);
        let f = all_fields()[n - 1];
        assert(f.place() == n - 1);
        assert forall|i: int| 0 <= i < n implies (now.contains(#[trigger] all_fields()[i])
            <==> s.contains(all_fields()[i])) by {
            let g = all_fields()[i];
            assert(g.place() == i);
            if i < n - 1 {
                if before.contains(g) {
                    let j = choose|j: int| 0 <= j < before.len() && before[j] == g;
                    assert(now[j] == g);
                }
                if now.contains(g) {
                    let j = choose|j: int| 0 <= j < now.len() && now[j] == g;
                    assert(before.contains(g)) by {
                        assert(before[j] == g);
                    }
                }
            } else {
                if s.contains(f) {
                    assert(now[now.len() - 1] == f);
                }
                if now.contains(f) {
                    let j = choose|j: int| 0 <= j < now.len() && now[j] == f;
                    if !s.contains(f) {
                        assert(before[j].place() < n - 1);
                    }
                }
            }
        }
        assert forall|j: int| 0 <= j < now.len() implies (#[trigger] now[j]).place() < n
            && s.contains(now[j]) by {
            if j < before.len() {
                assert(now[j] == before[j]);
            }
        }
        assert(now.no_duplicates()) by {
            assert forall|i: int, j: int| 0 <= i < now.len() && 0 <= j < now.len() && i != j implies now[i]
                != now[j] by {
                if i < before.len() {
                    assert(now[i] == before[i]);
                }
                if j < before.len() {
                    assert(now[j] == before[j]);
                }
            }
        }
    }
}

/// The fields of a frame with their bodies, the first `n` of them.
pub open spec fn fields_text(fields: Seq<Field>, bodies: Seq<String>, n: int) -> Seq<char>
    decreases n,
{
    if n <= 0 {
        Seq::empty()
    } else {
        let before = fields_text(fields, bodies, n - 1);
        (if n > 1 {
            before + ","@
        } else {
            before
        }) + "\""@ + fields[n - 1].key() + "\":"@ + bodies[n - 1]@
    }
}

/// A frame of the given kind.
pub open spec fn frame_text(kind: Seq<char>, seq: u64, fields: Seq<Field>, bodies: Seq<String>) -> Seq<
    char,
> {
    "{\"type\":\""@ + kind + "\",\"seq\":"@ + dec(seq as nat) + ",\"fields\":{"@ + fields_text(
        fields,
        bodies,
        fields.len() as int,
    ) + "}}"@
}

/// A frame with the named fields in order; `bodies` holds what the matching GET routes serve.
pub fn frame_json(kind: &str, seq: u64, fields: &[Field], bodies: &Vec<String>) -> (s: String)
    requires
        bodies@.len() == fields@.len(),
    ensures
        s@ == frame_text(kind@, seq, fields@, bodies@),
{
    let mut list: String = String::new();
    let mut i: usize = 0;
    while i < fields.len()
        invariant
            i <= fields@.len() == bodies@.len(),
            list@ == fields_text(fields@, bodies@, i as int),
        decreases fields@.len() - i,
    {
        if i > 0 {
            list.append(",");
        }
        list.append("\"");
        list.append(fields[i].name());
        list.append("\":");
        list.append(bodies[i].as_str());
        i = i + 1;
    }
    let mut s: String = "{\"type\":\"".to_owned();
    s.append(kind);
    s.append("\",\"seq\":");
    push_dec(&mut s, seq);
    s.append(",\"fields\":{");
    s.append(list.as_str());
    s.append("}}");
    s
}

/// The greeting of a client.
pub open spec fn hello_text(seq: u64) -> Seq<char> {
    "{\"type\":\"hello\",\"proto\":"@ + dec(PROTO as nat) + ",\"seq\":"@ + dec(seq as nat) + "}"@
}

/// The first frame of a session.
pub fn hello_json(seq: u64) -> (s: String)
    ensures
        s@ == hello_text(seq),
{
    let mut s: String = "{\"type\":\"hello\",\"proto\":".to_owned();
    push_dec(&mut s, PROTO as u64);
    s.append(",\"seq\":");
    push_dec(&mut s, seq);
    s.append("}");
    s
}

/// The answer to a client's key: base64 of the digest of the trimmed key and a fixed text.
pub open spec fn accept_of(key: Seq<char>) -> Seq<char> {
    base64_of(digest_of(encode_utf8(trimmed(key, Pat::Space)) + encode_utf8(WS_GUID@)))
}

/// `Sec-WebSocket-Accept` for a client key.
pub fn accept_key(client_key: &str) -> (s: String)
    ensures
        s@ == accept_of(client_key@),
{
    let mut input: Vec<u8> = trim(client_key, Pat::Space).as_bytes_vec();
    push_all(&mut input, WS_GUID.as_bytes());
    base64_encode(digest(input.as_slice()).as_slice())
}

/// What the header lines of an upgrade say: the key of the last such line, and whether one asks
/// for a WebSocket.
pub open spec fn upgrade_upto(ls: Seq<Seq<char>>, n: int) -> (Option<Seq<char>>, bool)
    decreases n,
{
    if n <= 1 {
        (None, false)
    } else {
        let (key, upgrade) = upgrade_upto(ls, n - 1);
        match cut(ls[n - 1], Pat::Is(':')) {
            None => (key, upgrade),
            Some((k, v)) => {
                let t = trimmed(v, Pat::Space);
                if same_ignoring_case(k, "sec-websocket-key"@) {
                    (Some(t), upgrade)
                } else if same_ignoring_case(k, "upgrade"@) && same_ignoring_case(
                    t,
                    "websocket"@,
                ) {
                    (key, true)
                } else {
                    (key, upgrade)
                }
            },
        }
    }
}

/// The key of an upgrade request.
pub open spec fn upgrade_key_of(head: Seq<char>) -> Option<Seq<char>> {
    let ls = lines(head);
    match upgrade_upto(ls, ls.len() as int) {
        (Some(k), true) => Some(k),
        _ => None,
    }
}

pub fn upgrade_key(head: &str) -> (r: Option<String>)
    ensures
        match r {
            Some(k) => upgrade_key_of(head@) == Some(k@),
            None => upgrade_key_of(head@) is None,
        },
{
    let ls: Vec<&str> = split_lines(head);
    let ghost all = lines(head@);
    let mut key: Option<String> = None;
    let mut upgrade: bool = false;
    let mut i: usize = 1;
    assert(texts(ls@).len() == ls@.len());
    while i < ls.len()
        invariant
            1 <= i,
            i <= ls.len() || i == 1,
            all == texts(ls@),
            upgrade_upto(all, i as int) == (match key {
                Some(k) => Some(k@),
                None => None,
            }, upgrade),
        decreases ls.len() - i,
    {
        assert(all[i as int] == ls@[i as int]@);
        if let Some((k, v)) = split_once(ls[i], Pat::Is(':')) {
            let t: &str = trim(v, Pat::Space);
            if eq_ignore_ascii_case(k, "sec-websocket-key") {
                key = Some(t.to_owned());
            } else if eq_ignore_ascii_case(k, "upgrade") && eq_ignore_ascii_case(t, "websocket") {
                upgrade = true;
            }
        }
        i = i + 1;
    }
    proof {
        if ls@.len() < 1 {
            assert(upgrade_upto(all, ls@.len() as int) == (None::<Seq<char>>, false));
        }
    }
    if upgrade {
        key
    } else {
        None
    }
}

/// What becomes of a handshake.
pub enum Handshake {
    /// The headers are not complete: read on.
    More,
    /// Answer with this, and start the session.
    Accept(String),
    /// Answer with this, and close; the second text says why.
    Refuse(String, &'static str),
}

/// The answer that refuses a handshake.
pub open spec fn refusal_text(why: Seq<char>) -> Seq<char> {
    "HTTP/1.1 400 Bad Request\r\nContent-Length: "@ + dec(encode_utf8(why).len())
        + "\r\nConnection: close\r\n\r\n"@ + why
}

/// The answer that accepts a handshake.
pub open spec fn switching_text(key: Seq<char>) -> Seq<char> {
    "HTTP/1.1 101 Switching Protocols\r\nUpgrade: websocket\r\nConnection: Upgrade\r\nSec-WebSocket-Accept: "@
        + accept_of(key) + "\r\n\r\n"@
}

fn refusal(why: &str) -> (s: String)
    ensures
        s@ == refusal_text(why@),
{
    let mut s: String = "HTTP/1.1 400 Bad Request\r\nContent-Length: ".to_owned();
    push_dec(&mut s, why.as_bytes().len() as u64);
    s.append("\r\nConnection: close\r\n\r\n");
    s.append(why);
    s
}

/// Looks at everything that a new connection has sent.
pub fn handshake(seen: &[u8]) -> (r: Handshake)
    ensures
        match headers_end(seen@) {
            None => if seen@.len() >= MAX_HANDSHAKE {
                r matches Handshake::Refuse(s, why) && why@ == "request too large"@ && s@
                    == refusal_text(why@)
            } else {
                r is More
            },
            Some(e) => match upgrade_key_of(lossy(seen@.subrange(0, e))) {
                Some(k) => r matches Handshake::Accept(s) && s@ == switching_text(k),
                None => r matches Handshake::Refuse(s, why) && why@ == "not a websocket upgrade"@
                    && s@ == refusal_text(why@),
            },
        },
{
    match find_headers_end(seen) {
        None => {
            if seen.len() >= MAX_HANDSHAKE {
                let why: &'static str = "request too large";
                Handshake::Refuse(refusal(why), why)
            } else {
                Handshake::More
            }
        },
        Some(e) => {
            let head: String = from_utf8_lossy(slice_subrange(seen, 0, e));
            match upgrade_key(head.as_str()) {
                Some(k) => {
                    let mut s: String =
                        "HTTP/1.1 101 Switching Protocols\r\nUpgrade: websocket\r\nConnection: Upgrade\r\nSec-WebSocket-Accept: ".to_owned();
                    s.append(accept_key(k.as_str()).as_str());
                    s.append("\r\n\r\n");
                    Handshake::Accept(s)
                },
                None => {
                    let why: &'static str = "not a websocket upgrade";
                    Handshake::Refuse(refusal(why), why)
                },
            }
        },
    }
}

/// The header of a server frame: opcode, and the length in one, three or nine bytes.
pub open spec fn frame_header(opcode: u8, len: nat) -> Seq<u8> {
    let first = (128 + opcode % 16) as u8;
    if len < 126 {
        seq![first, len as u8]
    } else if len <= 65535 {
        seq![first, 126u8] + be16(len)
    } else {
        seq![first, 127u8] + be64(len)
    }
}

/// A server frame: whole, and never masked.
pub fn encode_frame(opcode: u8, payload: &[u8]) -> (out: Vec<u8>)
    ensures
        out@ == frame_header(opcode, payload@.len()) + payload@,
{
    let mut out: Vec<u8> = Vec::new();
    out.push(128 + opcode % 16);
    let len: usize = payload.len();
    if len < 126 {
        out.push(len as u8);
        assert(out@ =~= frame_header(opcode, len as nat));
    } else if len <= 65535 {
        out.push(126);
        push_be16(&mut out, len as u16);
        assert(out@ =~= frame_header(opcode, len as nat));
    } else {
        out.push(127);
        push_be64(&mut out, len as u64);
        assert(out@ =~= frame_header(opcode, len as nat));
    }
    push_all(&mut out, payload);
    out
}

/// The payload of a close frame.
pub fn close_payload(code: u16, reason: &str) -> (out: Vec<u8>)
    ensures
        out@ == be16(code as nat) + encode_utf8(reason@),
{
    let mut out: Vec<u8> = Vec::new();
    push_be16(&mut out, code);
    assert(out@ =~= be16(code as nat));
    push_all(&mut out, reason.as_bytes());
    out
}

/// What a client sent.
pub enum ClientFrame {
    Text(String),
    Ping(Vec<u8>),
    Pong,
    Close,
}

pub enum ClientView {
    Text(Seq<char>),
    Ping(Seq<u8>),
    Pong,
    Close,
}

impl View for ClientFrame {
    type V = ClientView;

    open spec fn view(&self) -> ClientView {
        match self {
            ClientFrame::Text(t) => ClientView::Text(t@),
            ClientFrame::Ping(p) => ClientView::Ping(p@),
            ClientFrame::Pong => ClientView::Pong,
            ClientFrame::Close => ClientView::Close,
        }
    }
}

/// Why a client frame is refused.
#[derive(Clone, Copy, PartialEq, Eq, Debug, Structural)]
pub enum FrameError {
    Unmasked,
    Fragmented,
    Wide,
    TooLarge,
    Opcode(u8),
}

impl FrameError {
    pub open spec fn text(self) -> Seq<char> {
        match self {
            FrameError::Unmasked => "unmasked client frame"@,
            FrameError::Fragmented => "fragmented client frame"@,
            FrameError::Wide => "64-bit client frame"@,
            FrameError::TooLarge => "client frame too large"@,
            FrameError::Opcode(n) => "opcode "@ + dec(n as nat),
        }
    }

    pub fn message(&self) -> (s: String)
        ensures
            s@ == self.text(),
    {
        match self {
            FrameError::Unmasked => "unmasked client frame".to_owned(),
            FrameError::Fragmented => "fragmented client frame".to_owned(),
            FrameError::Wide => "64-bit client frame".to_owned(),
            FrameError::TooLarge => "client frame too large".to_owned(),
            FrameError::Opcode(n) => {
                let mut s: String = "opcode ".to_owned();
                push_dec(&mut s, *n as u64);
                s
            },
        }
    }
}

/// The payload under its mask of four bytes.
pub open spec fn masked(payload: Seq<u8>, mask: Seq<u8>) -> Seq<u8> {
    Seq::new(payload.len(), |i: int| payload[i] ^ mask[i % 4])
}

/// What a frame with this opcode and payload is.
pub open spec fn frame_kind(opcode: u8, payload: Seq<u8>) -> Result<ClientView, FrameError> {
    if opcode == 1 {
        Ok(ClientView::Text(lossy(payload)))
    } else if opcode == 8 {
        Ok(ClientView::Close)
    } else if opcode == 9 {
        Ok(ClientView::Ping(payload))
    } else if opcode == 10 {
        Ok(ClientView::Pong)
    } else {
        Err(FrameError::Opcode(opcode))
    }
}

/// The client frame that `buf` starts with and how many bytes it takes; `None` where it is not
/// complete.
pub open spec fn client_frame(buf: Seq<u8>) -> Result<Option<(ClientView, nat)>, FrameError> {
    if buf.len() < 2 {
        Ok(None)
    } else {
        let opcode = (buf[0] % 16) as u8;
        let short = buf[1] as int % 128;
        if buf[1] < 128 {
            Err(FrameError::Unmasked)
        } else if buf[0] < 128 && opcode != 0 {
            Err(FrameError::Fragmented)
        } else if short == 126 && buf.len() < 4 {
            Ok(None)
        } else if short == 127 {
            Err(FrameError::Wide)
        } else {
            let len = if short == 126 {
                be16_at(buf, 2) as int
            } else {
                short
            };
            let at = if short == 126 {
                4int
            } else {
                2int
            };
            if len > MAX_CLIENT_FRAME {
                Err(FrameError::TooLarge)
            } else if buf.len() < at + 4 + len {
                Ok(None)
            } else {
                let payload = masked(
                    buf.subrange(at + 4, at + 4 + len),
                    buf.subrange(at, at + 4),
                );
                match frame_kind(opcode, payload) {
                    Ok(f) => Ok(Some((f, (at + 4 + len) as nat))),
                    Err(e) => Err(e),
                }
            }
        }
    }
}

/// Decodes one masked client frame from the front of `buf`: the frame and the number of bytes it
/// occupied, or `None` if `buf` does not yet hold a complete one.
pub fn decode_client_frame(buf: &[u8]) -> (r: Result<Option<(ClientFrame, usize)>, FrameError>)
    ensures
        match r {
            Ok(Some((f, n))) => client_frame(buf@) == Ok::<Option<(ClientView, nat)>, FrameError>(
                Some((f@, n as nat)),
            ) && n <= buf@.len(),
            Ok(None) => client_frame(buf@) == Ok::<Option<(ClientView, nat)>, FrameError>(None),
            Err(e) => client_frame(buf@) == Err::<Option<(ClientView, nat)>, FrameError>(e),
        },
{
    if buf.len() < 2 {
        return Ok(None);
    }
    let opcode: u8 = buf[0] % 16;
    if buf[1] < 128 {
        return Err(FrameError::Unmasked);
    }
    if buf[0] < 128 && opcode != 0 {
        return Err(FrameError::Fragmented);
    }
    let short: usize = (buf[1] % 128) as usize;
    let (len, at): (usize, usize) = if short == 126 {
        if buf.len() < 4 {
            return Ok(None);
        }
        (read_be16(buf, 2) as usize, 4)
    } else if short == 127 {
        return Err(FrameError::Wide);
    } else {
        (short, 2)
    };
    if len > MAX_CLIENT_FRAME {
        return Err(FrameError::TooLarge);
    }
    if buf.len() < at + 4 + len {
        return Ok(None);
    }
    let mut payload: Vec<u8> = Vec::new();
    let ghost body = buf@.subrange(at + 4, at + 4 + len);
    let ghost mask = buf@.subrange(at as int, at + 4);
    let mut i: usize = 0;
    while i < len
        invariant
            i <= len <= MAX_CLIENT_FRAME,
            at <= 4,
            at + 4 + len <= buf@.len(),
            body == buf@.subrange(at + 4, at + 4 + len),
            mask == buf@.subrange(at as int, at + 4),
            payload@ == masked(body, mask).subrange(0, i as int),
        decreases len - i,
    {
        payload.push(buf[at + 4 + i] ^ buf[at + i % 4]);
        assert(payload@ =~= masked(body, mask).subrange(0, i + 1));
        i = i + 1;
    }
    assert(payload@ =~= masked(body, mask));
    let used: usize = at + 4 + len;
    if opcode == 1 {
        Ok(Some((ClientFrame::Text(from_utf8_lossy(payload.as_slice())), used)))
    } else if opcode == 8 {
        Ok(Some((ClientFrame::Close, used)))
    } else if opcode == 9 {
        Ok(Some((ClientFrame::Ping(payload), used)))
    } else if opcode == 10 {
        Ok(Some((ClientFrame::Pong, used)))
    } else {
        Err(FrameError::Opcode(opcode))
    }
}

/// A frame as a client sends it: whole, masked, with a short length.
pub open spec fn sent_by_client(opcode: u8, payload: Seq<u8>, mask: Seq<u8>) -> Seq<u8> {
    (if payload.len() < 126 {
        seq![(128 + opcode) as u8, (128 + payload.len()) as u8]
    } else {
        seq![(128 + opcode) as u8, 254u8] + be16(payload.len())
    }) + mask + masked(payload, mask)
}

/// What a client sends is what is decoded, whatever follows it in the buffer.
pub proof fn law_client_frame_reads_back(opcode: u8, payload: Seq<u8>, mask: Seq<u8>, more: Seq<u8>)
    requires
        opcode < 16,
        payload.len() <= MAX_CLIENT_FRAME,
        mask.len() == 4,
    ensures
        client_frame(sent_by_client(opcode, payload, mask) + more) == (match frame_kind(
            opcode,
            payload,
        ) {
            Ok(f) => Ok::<Option<(ClientView, nat)>, FrameError>(
                Some((f, sent_by_client(opcode, payload, mask).len())),
            ),
            Err(e) => Err(e),
        }),
{
    let sent = sent_by_client(opcode, payload, mask);
    let buf = sent + more;
    let at: int = if payload.len() < 126 {
        2
    } else {
        4
    };
    let n = payload.len() as int;
    assert(buf[0] == (128 + opcode) as u8);
    if payload.len() < 126 {
        assert(buf[1] == (128 + payload.len()) as u8);
    } else {
        assert(buf[1] == 254);
        assert(buf[2] == be16(payload.len())[0] && buf[3] == be16(payload.len())[1]);
        assert(be16_at(buf, 2) == payload.len());
    }
    let body = buf.subrange(at + 4, at + 4 + n);
    assert(body =~= masked(payload, mask));
    assert(buf.subrange(at, at + 4) =~= mask);
    assert(masked(body, mask) =~= payload) by {
        assert forall|i: int| 0 <= i < n implies masked(body, mask)[i] == payload[i] by {
            let b = payload[i];
            let m = mask[i % 4];
            assert((b ^ m) ^ m == b) by (bit_vector);
        }
    }
}

/// Why a session ends.
#[derive(Clone, Copy, PartialEq, Eq, Debug, Structural)]
pub enum Ending {
    /// The client closed.
    Closed,
    /// The client sent what is no frame for us.
    Bad(FrameError),
    /// The client was silent for too long.
    Silent,
}

/// What a session sends.
pub enum Reply {
    Nothing,
    /// One frame.
    Frame(Vec<u8>),
    /// The whole snapshot.
    Snapshot,
}

/// One client's session.
pub struct Session {
    inbox: Vec<u8>,
    last_rx: u64,
    last_ping: u64,
}

/// Whether a client that was last heard at `heard` counts as gone.
pub open spec fn is_silent(heard: u64, now_ms: u64) -> bool {
    now_ms - heard > CLIENT_TIMEOUT
}

/// Whether it is time for a ping, the last one having gone out at `pinged`.
pub open spec fn is_ping_due(pinged: u64, now_ms: u64) -> bool {
    now_ms - pinged >= PING_INTERVAL
}

/// What a text from the client asks for.
pub open spec fn asks_resync(text: Seq<char>) -> bool {
    has_text(text, "\"resync\""@)
}

/// What a frame from the client is answered with.
pub fn reply_to(frame: &ClientFrame) -> (r: Result<Reply, Ending>)
    ensures
        match frame@ {
            ClientView::Close => r == Err::<Reply, Ending>(Ending::Closed),
            ClientView::Ping(p) => r matches Ok(Reply::Frame(b)) && b@ == frame_header(0xA, p.len())
                + p,
            ClientView::Text(t) => if asks_resync(t) {
                r matches Ok(Reply::Snapshot)
            } else {
                r matches Ok(Reply::Nothing)
            },
            ClientView::Pong => r matches Ok(Reply::Nothing),
        },
{
    match frame {
        ClientFrame::Close => Err(Ending::Closed),
        ClientFrame::Ping(p) => Ok(Reply::Frame(encode_frame(0xA, p.as_slice()))),
        ClientFrame::Pong => Ok(Reply::Nothing),
        ClientFrame::Text(t) => if contains(t.as_str(), "\"resync\"") {
            Ok(Reply::Snapshot)
        } else {
            Ok(Reply::Nothing)
        },
    }
}

impl Session {
    /// The bytes that are not decoded yet.
    pub closed spec fn pending(&self) -> Seq<u8> {
        self.inbox@
    }

    /// When the client was last heard, in milliseconds.
    pub closed spec fn heard(&self) -> u64 {
        self.last_rx
    }

    /// When it was last pinged.
    pub closed spec fn pinged(&self) -> u64 {
        self.last_ping
    }

    pub fn new(now_ms: u64) -> (s: Session)
        ensures
            s.pending() == Seq::<u8>::empty(),
            s.heard() == now_ms,
            s.pinged() == now_ms,
    {
        Session { inbox: Vec::new(), last_rx: now_ms, last_ping: now_ms }
    }

    /// Takes what one read brought, and acts on one frame if a whole one is there.
    pub fn on_read(&mut self, chunk: &[u8], now_ms: u64) -> (r: Result<Reply, Ending>)
        ensures
            final(self).pinged() == old(self).pinged(),
            ({
                let all = old(self).pending() + chunk@;
                if all.len() > MAX_CLIENT_FRAME + 14 {
                    r == Err::<Reply, Ending>(Ending::Bad(FrameError::TooLarge))
                } else {
                    match client_frame(all) {
                        Err(e) => r == Err::<Reply, Ending>(Ending::Bad(e)),
                        Ok(None) => {
                            &&& r matches Ok(Reply::Nothing)
                            &&& final(self).pending() == all
                            &&& final(self).heard() == old(self).heard()
                        },
                        Ok(Some((f, n))) => match f {
                            ClientView::Close => r == Err::<Reply, Ending>(Ending::Closed),
                            _ => {
                                &&& final(self).pending() == all.subrange(
                                    n as int,
                                    all.len() as int,
                                )
                                &&& final(self).heard() == now_ms
                                &&& match f {
                                    ClientView::Ping(p) => r matches Ok(Reply::Frame(b)) && b@
                                        == frame_header(0xA, p.len()) + p,
                                    ClientView::Text(t) => if asks_resync(t) {
                                        r matches Ok(Reply::Snapshot)
                                    } else {
                                        r matches Ok(Reply::Nothing)
                                    },
                                    _ => r matches Ok(Reply::Nothing),
                                }
                            },
                        },
                    }
                }
            }),
    {
        let ghost all = self.pending() + chunk@;
        push_all(&mut self.inbox, chunk);
        if self.inbox.len() > MAX_CLIENT_FRAME + 14 {
            return Err(Ending::Bad(FrameError::TooLarge));
        }
        match decode_client_frame(self.inbox.as_slice()) {
            Err(e) => Err(Ending::Bad(e)),
            Ok(None) => Ok(Reply::Nothing),
            Ok(Some((frame, used))) => {
                let rest: Vec<u8> = self.inbox.split_off(used);
                self.inbox = rest;
                let reply: Result<Reply, Ending> = reply_to(&frame);
                if reply.is_ok() {
                    self.last_rx = now_ms;
                }
                reply
            },
        }
    }

    /// Whether it is time to give the client up or to ping it.
    pub fn tick(&mut self, now_ms: u64) -> (r: Result<Reply, Ending>)
        ensures
            final(self).pending() == old(self).pending(),
            final(self).heard() == old(self).heard(),
            if is_silent(old(self).heard(), now_ms) {
                r == Err::<Reply, Ending>(Ending::Silent) && final(self).pinged() == old(
                    self,
                ).pinged()
            } else if is_ping_due(old(self).pinged(), now_ms) {
                (r matches Ok(Reply::Frame(b)) && b@ == frame_header(0x9, 6) + encode_utf8("kibble"@))
                    && final(self).pinged() == now_ms
            } else {
                (r matches Ok(Reply::Nothing)) && final(self).pinged() == old(self).pinged()
            },
    {
        if now_ms.saturating_sub(self.last_rx) > CLIENT_TIMEOUT {
            return Err(Ending::Silent);
        }
        if now_ms.saturating_sub(self.last_ping) >= PING_INTERVAL {
            self.last_ping = now_ms;
            proof {
                reveal_strlit("kibble");
                vstd::utf8::is_ascii_chars_encode_utf8("kibble"@);
            }
            return Ok(Reply::Frame(encode_frame(0x9, "kibble".as_bytes())));
        }
        Ok(Reply::Nothing)
    }
}

/// The header of a frame says that it is whole, what it holds and how long it is: in one byte up to
/// 125, in two behind 126 up to 65535, in eight behind 127 beyond.
pub proof fn law_frame_header_reads_back(opcode: u8, len: nat)
    requires
        opcode < 16,
        len < 0x1_0000_0000_0000_0000,
    ensures
        ({
            let h = frame_header(opcode, len);
            &&& h[0] == 128 + opcode
            &&& len <= 125 ==> h.len() == 2 && h[1] == len
            &&& 125 < len <= 65535 ==> h.len() == 4 && h[1] == 126 && 256 * h[2] + h[3] == len
            &&& len > 65535 ==> h.len() == 10 && h[1] == 127 && 0x1_0000_0000 * (16777216 * h[2]
                + 65536 * h[3] + 256 * h[4] + h[5]) + 16777216 * h[6] + 65536 * h[7] + 256 * h[8]
                + h[9] == len
        }),
{
    let h = frame_header(opcode, len);
    if len > 65535 {
        crate::bytes::law_big_endian_wide(len);
        let b = be64(len);
        assert(h[2] == b[0] && h[3] == b[1] && h[4] == b[2] && h[5] == b[3]);
        assert(h[6] == b[4] && h[7] == b[5] && h[8] == b[6] && h[9] == b[7]);
    }
}

/// Masking twice with one mask gives the payload back.
pub proof fn law_masks_undo_themselves(payload: Seq<u8>, mask: Seq<u8>)
    requires
        mask.len() == 4,
    ensures
        masked(payload, mask).len() == payload.len(),
        masked(masked(payload, mask), mask) == payload,
{
    let twice = masked(masked(payload, mask), mask);
    assert forall|i: int| 0 <= i < payload.len() implies #[trigger] twice[i] == payload[i] by {
        let a = payload[i];
        let m = mask[i % 4];
        assert((a ^ m) ^ m == a) by (bit_vector);
    }
    assert(twice =~= payload);
}

/// A drain lists exactly the fields that were marked, each once, in the order of the fields.
pub proof fn law_drain_lists_the_marked(s: Set<Field>, n: int)
    requires
        0 <= n <= 13,
    ensures
        listed(s, n) == all_fields().subrange(0, n).filter(|f: Field| s.contains(f)),
    decreases n,
{
    reveal(Seq::filter);
    let a = all_fields().subrange(0, n);
    if n > 0 {
        law_drain_lists_the_marked(s, n - 1);
        assert(a.drop_last() =~= all_fields().subrange(0, n - 1));
        assert(a.last() == all_fields()[n - 1]);
    }
}

/// A client is pinged every half minute, and given up when it was not heard for a minute and a half.
pub proof fn law_pings_and_silence(then: u64, now: u64)
    ensures
        is_ping_due(then, now) <==> now >= then + 30_000,
        is_silent(then, now) <==> now > then + 90_000,
{
}

/// A frame of a client is refused where it is not masked, is a part of a message, or is over a
/// kibibyte.
pub proof fn law_client_frames_refused(buf: Seq<u8>)
    requires
        buf.len() >= 4,
    ensures
        buf[1] < 128 ==> client_frame(buf) == Err::<Option<(ClientView, nat)>, FrameError>(
            FrameError::Unmasked,
        ),
        buf[1] >= 128 && buf[0] < 128 && buf[0] % 16 != 0 ==> client_frame(buf) == Err::<
            Option<(ClientView, nat)>,
            FrameError,
        >(FrameError::Fragmented),
        buf[1] == 254 && buf[0] >= 128 && 256 * buf[2] + buf[3] > 1024 ==> client_frame(buf) == Err::<
            Option<(ClientView, nat)>,
            FrameError,
        >(FrameError::TooLarge),
{
}

/// A frame gives each field that changed under its name, with its body, in the order of the fields.
pub proof fn law_frames_name_their_fields(fields: Seq<Field>, bodies: Seq<String>, n: int)
    requires
        0 <= n <= fields.len(),
        fields.len() == bodies.len(),
    ensures
        fields_text(fields, bodies, n) == joined(
            Seq::new(n as nat, |i: int| member(fields[i].key(), bodies[i]@)),
            ","@,
        ),
    decreases n,
{
    let ms = Seq::new(n as nat, |i: int| member(fields[i].key(), bodies[i]@));
    if n > 0 {
        law_frames_name_their_fields(fields, bodies, n - 1);
        let was = Seq::new((n - 1) as nat, |i: int| member(fields[i].key(), bodies[i]@));
        assert(ms.drop_last() =~= was);
        reveal_strlit("\":");
        reveal_strlit("\"");
        reveal_strlit(":");
        let (k, v) = (fields[n - 1].key(), bodies[n - 1]@);
        let before = fields_text(fields, bodies, n - 1);
        if n == 1 {
            assert(before =~= Seq::<char>::empty());
            assert(fields_text(fields, bodies, n) =~= member(k, v));
            assert(ms[0] == member(k, v));
        } else {
            assert(fields_text(fields, bodies, n) =~= before + ","@ + member(k, v));
            assert(ms.last() == member(k, v));
        }
    } else {
        assert(ms =~= Seq::<Seq<char>>::empty());
    }
}

} // verus!
