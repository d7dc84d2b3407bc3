//! A deliberately small HTTP/1.1 server: reading a request, writing a response.
//!
//! One connection carries one request. The bytes arrive in pieces of any size; [`Intake`] collects
//! them and says when the request is complete, and what it is depends only on the bytes.

use vstd::prelude::*;
use vstd::string::*;
use vstd::utf8::encode_utf8;

use crate::number::{dec, parse_max, push_dec, uint_of};
use crate::text::{
    cut, eq_ignore_ascii_case, escape_debug, escaped, find, find_pat, find_str, from_utf8_lossy,
    lossy, match_from, pieces, pieces_by, same, same_ignoring_case, skip, split, split_once,
    split_str, split_whitespace, take, texts, trim, trim_start, trimmed, trimmed_start, words,
    char_len, Pat,
};

verus! {

/// How far the end of the headers is looked for.
pub const MAX_REQUEST: usize = 8192;

/// Ceiling on a request body.
pub const MAX_BODY: usize = 8388608;

/// A complete request.
pub struct Request {
    pub method: String,
    pub path: String,
    /// The raw body: it is never turned into text before a handler asks for it.
    pub body: Vec<u8>,
}

impl Request {
    /// Lossy UTF-8 view of the body, for the text routes.
    pub fn body_str(&self) -> (s: String)
        ensures
            s@ == lossy(self.body@),
    {
        from_utf8_lossy(self.body.as_slice())
    }
}

/// What a handler answers.
pub enum Response {
    Json(String),
    NoContent,
    BadRequest(String),
    NotFound,
    /// The speaker already has a writer.
    Conflict(String),
    Error(String),
    /// Raw bytes with an explicit content type.
    Blob(&'static str, Vec<u8>),
}

/// An answer with its texts and bytes as sequences.
pub enum ResponseView {
    Json(Seq<char>),
    NoContent,
    BadRequest(Seq<char>),
    NotFound,
    Conflict(Seq<char>),
    Error(Seq<char>),
    Blob(Seq<char>, Seq<u8>),
}

impl View for Response {
    type V = ResponseView;

    open spec fn view(&self) -> ResponseView {
        match self {
            Response::Json(b) => ResponseView::Json(b@),
            Response::NoContent => ResponseView::NoContent,
            Response::BadRequest(m) => ResponseView::BadRequest(m@),
            Response::NotFound => ResponseView::NotFound,
            Response::Conflict(m) => ResponseView::Conflict(m@),
            Response::Error(m) => ResponseView::Error(m@),
            Response::Blob(ctype, bytes) => ResponseView::Blob(ctype@, bytes@),
        }
    }
}

/// The JSON body that reports an error.
pub open spec fn error_body(msg: Seq<char>) -> Seq<char> {
    "{\"error\":\""@ + escaped(msg) + "\"}"@
}

/// Status code, content type and body of a response.
pub open spec fn parts_of(r: Response) -> (u16, Seq<char>, Seq<u8>) {
    match r {
        Response::Json(b) => (200, "application/json"@, encode_utf8(b@)),
        Response::NoContent => (204, "text/plain"@, Seq::empty()),
        Response::BadRequest(m) => (400, "application/json"@, encode_utf8(error_body(m@))),
        Response::NotFound => (404, "application/json"@, encode_utf8(error_body("not found"@))),
        Response::Conflict(m) => (409, "application/json"@, encode_utf8(error_body(m@))),
        Response::Error(m) => (500, "application/json"@, encode_utf8(error_body(m@))),
        Response::Blob(ctype, bytes) => (200, ctype@, bytes@),
    }
}

pub open spec fn reason_of(code: u16) -> Seq<char> {
    if code == 200 {
        "OK"@
    } else if code == 204 {
        "No Content"@
    } else if code == 400 {
        "Bad Request"@
    } else if code == 404 {
        "Not Found"@
    } else if code == 409 {
        "Conflict"@
    } else {
        "Internal Server Error"@
    }
}

/// The status line and headers of a response.
pub open spec fn head_of(code: u16, ctype: Seq<char>, len: nat) -> Seq<char> {
    "HTTP/1.1 "@ + dec(code as nat) + " "@ + reason_of(code) + "\r\nContent-Type: "@ + ctype
        + "\r\nContent-Length: "@ + dec(len) + "\r\nConnection: close\r\n\r\n"@
}

impl Response {
    pub fn into_parts(self) -> (r: (u16, &'static str, Vec<u8>))
        ensures
            (r.0, r.1@, r.2@) == parts_of(self),
    {
        match self {
            Response::Json(b) => (200, "application/json", b.as_str().as_bytes_vec()),
            Response::NoContent => (204, "text/plain", Vec::new()),
            Response::BadRequest(m) => (
                400,
                "application/json",
                err_json(m.as_str()).as_str().as_bytes_vec(),
            ),
            Response::NotFound => (
                404,
                "application/json",
                err_json("not found").as_str().as_bytes_vec(),
            ),
            Response::Conflict(m) => (
                409,
                "application/json",
                err_json(m.as_str()).as_str().as_bytes_vec(),
            ),
            Response::Error(m) => (
                500,
                "application/json",
                err_json(m.as_str()).as_str().as_bytes_vec(),
            ),
            Response::Blob(ctype, bytes) => (200, ctype, bytes),
        }
    }

    /// The bytes that go out on the connection.
    pub fn encode(self) -> (out: Vec<u8>)
        ensures
            out@ == ({
                let (code, ctype, body) = parts_of(self);
                encode_utf8(head_of(code, ctype, body.len())) + body
            }),
    {
        let (code, ctype, mut body) = self.into_parts();
        let mut head: String = String::new();
        head.append("HTTP/1.1 ");
        push_dec(&mut head, code as u64);
        head.append(" ");
        head.append(reason(code));
        head.append("\r\nContent-Type: ");
        head.append(ctype);
        head.append("\r\nContent-Length: ");
        push_dec(&mut head, body.len() as u64);
        head.append("\r\nConnection: close\r\n\r\n");
        proof {
            assert(Seq::<char>::empty() + "HTTP/1.1 "@ =~= "HTTP/1.1 "@);
        }
        let mut out: Vec<u8> = head.as_str().as_bytes_vec();
        out.append(&mut body);
        out
    }
}

pub fn err_json(msg: &str) -> (s: String)
    ensures
        s@ == error_body(msg@),
{
    let mut s: String = "{\"error\":\"".to_owned();
    s.append(escape_debug(msg).as_str());
    s.append("\"}");
    s
}

pub fn reason(code: u16) -> (s: &'static str)
    ensures
        s@ == reason_of(code),
{
    match code {
        200 => "OK",
        204 => "No Content",
        400 => "Bad Request",
        404 => "Not Found",
        409 => "Conflict",
        _ => "Internal Server Error",
    }
}

/// Whether the blank line that ends the headers stands in `b` at `i`.
pub open spec fn blank_line_at(b: Seq<u8>, i: int) -> bool {
    0 <= i && i + 4 <= b.len() && b[i] == 13 && b[i + 1] == 10 && b[i + 2] == 13 && b[i + 3] == 10
}

/// Where the headers end: behind the first blank line at or after `i`.
pub open spec fn headers_end_from(b: Seq<u8>, i: int) -> Option<int>
    decreases b.len() - i,
{
    if i < 0 || i + 4 > b.len() {
        None
    } else if blank_line_at(b, i) {
        Some(i + 4)
    } else {
        headers_end_from(b, i + 1)
    }
}

pub open spec fn headers_end(b: Seq<u8>) -> Option<int> {
    headers_end_from(b, 0)
}

/// Where the headers end, behind the first blank line.
pub fn find_headers_end(b: &[u8]) -> (r: Option<usize>)
    ensures
        match r {
            Some(e) => headers_end(b@) == Some(e as int) && 4 <= e <= b@.len(),
            None => headers_end(b@) is None,
        },
{
    if b.len() < 4 {
        return None;
    }
    let mut i: usize = 0;
    while i <= b.len() - 4
        invariant
            b@.len() >= 4,
            i <= b@.len() - 3,
            headers_end(b@) == headers_end_from(b@, i as int),
        decreases b@.len() - i,
    {
        if b[i] == 13 && b[i + 1] == 10 && b[i + 2] == 13 && b[i + 3] == 10 {
            return Some(i + 4);
        }
        i = i + 1;
    }
    None
}

/// The end of the headers is behind a blank line and no blank line stands before it.
pub proof fn lemma_headers_end_from(b: Seq<u8>, i: int)
    requires
        0 <= i,
    ensures
        headers_end_from(b, i) matches Some(e) ==> i + 4 <= e <= b.len() && blank_line_at(b, e - 4)
            && forall|j: int| i <= j < e - 4 ==> !blank_line_at(b, j),
        headers_end_from(b, i) is None ==> forall|j: int| i <= j ==> !blank_line_at(b, j),
    decreases b.len() - i,
{
    if i + 4 <= b.len() && !blank_line_at(b, i) {
        lemma_headers_end_from(b, i + 1);
    }
}

/// More bytes behind the headers do not move their end.
pub proof fn lemma_headers_end_prefix(b: Seq<u8>, c: Seq<u8>)
    requires
        headers_end(b) is Some,
    ensures
        headers_end(b + c) == headers_end(b),
{
    lemma_headers_end_from(b, 0);
    lemma_headers_end_from(b + c, 0);
    let e = headers_end(b)->0;
    assert(blank_line_at(b + c, e - 4));
    if headers_end(b + c) is Some {
        let f = headers_end(b + c)->0;
        if f < e {
            assert(blank_line_at(b, f - 4));
        }
    }
}

/// The request line and the headers that matter.
pub struct Head {
    pub method: String,
    pub path: String,
    /// How long the body is.
    pub want: usize,
}

/// What a header line says of the length of the body.
pub open spec fn length_in_line(line: Seq<char>) -> Option<nat> {
    match cut(line, Pat::Is(':')) {
        Some((k, v)) => if same_ignoring_case(k, "content-length"@) {
            uint_of(trimmed(v, Pat::Space), 10, usize::MAX as nat)
        } else {
            None
        },
        None => None,
    }
}

/// The length that the first header line at or after `i` that gives one gives, else 0.
pub open spec fn content_length(ls: Seq<Seq<char>>, i: int) -> nat
    decreases ls.len() - i,
{
    if i < 0 || i >= ls.len() {
        0
    } else {
        match length_in_line(ls[i]) {
            Some(n) => n,
            None => content_length(ls, i + 1),
        }
    }
}

/// The word at `i`, or nothing.
pub open spec fn word_at(ws: Seq<Seq<char>>, i: int) -> Seq<char> {
    if 0 <= i < ws.len() {
        ws[i]
    } else {
        Seq::empty()
    }
}

/// Method, path and length of the body, as the text of the headers gives them.
pub open spec fn head_parts(head: Seq<char>) -> (Seq<char>, Seq<char>, nat) {
    let ls = pieces_by(head, "\r\n"@);
    let start = words(ls[0]);
    (word_at(start, 0), word_at(start, 1), content_length(ls, 1))
}

proof fn lemma_pieces_by_nonempty(s: Seq<char>, sep: Seq<char>)
    ensures
        pieces_by(s, sep).len() >= 1,
{
}

pub fn word_or_empty(ws: &Vec<&str>, i: usize) -> (s: String)
    ensures
        s@ == word_at(texts(ws@), i as int),
{
    if i < ws.len() {
        ws[i].to_owned()
    } else {
        String::new()
    }
}

/// Reads the request line and the length of the body.
pub fn parse_head(head: &[u8]) -> (r: Head)
    ensures
        (r.method@, r.path@, r.want as nat) == head_parts(lossy(head@)),
{
    parse_head_text(from_utf8_lossy(head).as_str())
}

/// Reads the request line and the length of the body from the text of the headers.
pub fn parse_head_text(text: &str) -> (r: Head)
    ensures
        (r.method@, r.path@, r.want as nat) == head_parts(text@),
{
    proof {
        reveal_strlit("\r\n");
    }
    let ls: Vec<&str> = split_str(text, "\r\n");
    proof {
        lemma_pieces_by_nonempty(text@, "\r\n"@);
        assert(texts(ls@).len() == ls@.len());
    }
    let start: Vec<&str> = split_whitespace(ls[0]);
    let method: String = word_or_empty(&start, 0);
    let path: String = word_or_empty(&start, 1);
    let ghost all = texts(ls@);
    let mut i: usize = 1;
    while i < ls.len()
        invariant
            1 <= i <= ls.len(),
            all == texts(ls@),
            all == pieces_by(text@, "\r\n"@),
            method@ == word_at(words(all[0]), 0),
            path@ == word_at(words(all[0]), 1),
            content_length(all, 1) == content_length(all, i as int),
        decreases ls.len() - i,
    {
        assert(all[i as int] == ls@[i as int]@);
        if let Some((k, v)) = split_once(ls[i], Pat::Is(':')) {
            if eq_ignore_ascii_case(k, "content-length") {
                if let Some(n) = parse_max(trim(v, Pat::Space), 10, usize::MAX as u64) {
                    return Head { method, path, want: n as usize };
                }
            }
        }
        i = i + 1;
    }
    Head { method, path, want: 0 }
}

/// What the bytes of a connection amount to.
pub enum Outcome {
    /// More bytes are needed.
    More,
    /// The request is refused with this message.
    Reject(Seq<char>),
    /// Method, path and body.
    Done(Seq<char>, Seq<char>, Seq<u8>),
}

/// What `bytes`, everything that a connection has sent, amount to.
pub open spec fn outcome(bytes: Seq<u8>) -> Outcome {
    match headers_end(bytes) {
        None => if bytes.len() >= MAX_REQUEST {
            Outcome::Reject("request too large"@)
        } else {
            Outcome::More
        },
        Some(e) => {
            let (method, path, want) = head_parts(lossy(bytes.subrange(0, e)));
            if want > MAX_BODY {
                Outcome::Reject("body too large"@)
            } else if bytes.len() - e < want {
                Outcome::More
            } else {
                Outcome::Done(method, path, bytes.subrange(e, e + want))
            }
        },
    }
}

/// What a step of the intake asks for.
pub enum Step {
    /// Read on, at most this many bytes.
    Read(usize),
    /// Answer with this, and close.
    Refuse(Response),
    /// Hand this to the handler.
    Serve(Request),
}

/// The part of a request that has arrived, while it is incomplete.
pub struct Intake {
    /// The bytes up to the end of the headers, or all so far while that is not seen.
    head: Vec<u8>,
    /// The request line, once the headers are complete.
    start: Option<Head>,
    /// The bytes behind the headers.
    body: Vec<u8>,
}

/// The size of one read of the body.
pub const CHUNK: usize = 65536;

impl Intake {
    /// All the bytes that have arrived.
    pub closed spec fn seen(&self) -> Seq<u8> {
        self.head@ + self.body@
    }

    /// How many bytes the next read may bring.
    pub closed spec fn room(&self) -> nat {
        match self.start {
            None => (MAX_REQUEST - self.head@.len()) as nat,
            Some(h) => if h.want - self.body@.len() < CHUNK {
                (h.want - self.body@.len()) as nat
            } else {
                CHUNK as nat
            },
        }
    }

    /// Whether the headers are complete.
    pub closed spec fn in_body(&self) -> bool {
        self.start is Some
    }

    pub closed spec fn wf(&self) -> bool {
        match self.start {
            None => headers_end(self.head@) is None && self.head@.len() < MAX_REQUEST
                && self.body@.len() == 0,
            Some(h) => {
                &&& headers_end(self.head@) == Some(self.head@.len() as int)
                &&& (h.method@, h.path@, h.want as nat) == head_parts(lossy(self.head@))
                &&& self.body@.len() < h.want <= MAX_BODY
            },
        }
    }

    /// The headers are complete exactly where their end is among the bytes that have arrived.
    pub proof fn law_in_body_once_the_headers_end(&self)
        requires
            self.wf(),
        ensures
            self.in_body() == (headers_end(self.seen()) is Some),
    {
        match self.start {
            None => {
                assert(self.seen() =~= self.head@);
            },
            Some(_) => {
                lemma_headers_end_prefix(self.head@, self.body@);
            },
        }
    }

    pub fn new() -> (r: Intake)
        ensures
            r.wf(),
            r.seen() == Seq::<u8>::empty(),
            r.room() == MAX_REQUEST,
            !r.in_body(),
    {
        let r: Intake = Intake { head: Vec::new(), start: None, body: Vec::new() };
        assert(r.seen() =~= Seq::<u8>::empty());
        r
    }

    /// How many bytes to read next.
    pub fn wants(&self) -> (n: usize)
        requires
            self.wf(),
        ensures
            n == self.room(),
            0 < n <= CHUNK,
    {
        match &self.start {
            None => MAX_REQUEST - self.head.len(),
            Some(h) => {
                let left: usize = h.want - self.body.len();
                if left < CHUNK {
                    left
                } else {
                    CHUNK
                }
            },
        }
    }

    /// Takes the bytes of one read. What comes of it is the outcome of everything seen so far.
    pub fn feed(&mut self, chunk: &[u8]) -> (step: Step)
        requires
            old(self).wf(),
            chunk@.len() <= old(self).room(),
        ensures
            match step {
                Step::Read(n) => {
                    &&& outcome(old(self).seen() + chunk@) is More
                    &&& final(self).wf()
                    &&& final(self).seen() == old(self).seen() + chunk@
                    &&& n == final(self).room()
                },
                Step::Refuse(r) => r matches Response::BadRequest(m) && outcome(
                    old(self).seen() + chunk@,
                ) == Outcome::Reject(m@),
                Step::Serve(q) => outcome(old(self).seen() + chunk@) == Outcome::Done(
                    q.method@,
                    q.path@,
                    q.body@,
                ),
            },
    {
        let ghost all = self.seen() + chunk@;
        if self.start.is_some() {
            let ghost head = self.head@;
            self.body.extend_from_slice(chunk);
            proof {
                let before = old(self).body@;
                assert(self.body@ =~= before + chunk@);
                assert(all =~= head + self.body@);
                lemma_headers_end_prefix(head, self.body@);
                assert(all.subrange(0, head.len() as int) =~= head);
            }
        } else {
            self.head.extend_from_slice(chunk);
            assert(self.head@ =~= all);
            match find_headers_end(self.head.as_slice()) {
                None => {
                    if self.head.len() >= MAX_REQUEST {
                        return Step::Refuse(Response::BadRequest("request too large".to_owned()));
                    }
                    assert(self.seen() =~= all);
                    return Step::Read(self.wants());
                },
                Some(e) => {
                    let h: Head = parse_head(vstd::slice::slice_subrange(self.head.as_slice(), 0, e));
                    if h.want > MAX_BODY {
                        return Step::Refuse(Response::BadRequest("body too large".to_owned()));
                    }
                    self.body = self.head.split_off(e);
                    self.start = Some(h);
                    proof {
                        assert(all =~= self.head@ + self.body@);
                        lemma_headers_end_from(all, 0);
                        lemma_headers_end_from(self.head@, 0);
                        assert(blank_line_at(self.head@, e - 4));
                        if headers_end(self.head@)->0 < e {
                            assert(blank_line_at(all, headers_end(self.head@)->0 - 4));
                        }
                    }
                },
            }
        }
        let want: usize = match &self.start {
            Some(h) => h.want,
            None => 0,
        };
        if self.body.len() < want {
            assert(self.seen() =~= all);
            return Step::Read(self.wants());
        }
        self.body.truncate(want);
        let mut body: Vec<u8> = Vec::new();
        body.append(&mut self.body);
        match self.start.take() {
            Some(h) => {
                assert(body@ =~= all.subrange(self.head@.len() as int, self.head@.len() + want));
                Step::Serve(Request { method: h.method, path: h.path, body })
            },
            None => Step::Refuse(Response::NotFound),
        }
    }

    /// What to answer where the peer closes its side before the request is complete.
    pub fn hang_up(&self) -> (r: Option<Response>)
        requires
            self.wf(),
        ensures
            match r {
                None => !self.in_body(),
                Some(Response::BadRequest(m)) => self.in_body() && m@ == "truncated body"@,
                _ => false,
            },
    {
        if self.start.is_some() {
            Some(Response::BadRequest("truncated body".to_owned()))
        } else {
            None
        }
    }
}

/// The value that stands behind `"key":` in a flat JSON object: what is left of the text up to the
/// next comma or closing brace without the white space and quotes round it.
pub open spec fn field_of(body: Seq<char>, key: Seq<char>) -> Option<Seq<char>> {
    let quoted = "\""@ + key + "\""@;
    match match_from(body, quoted, 0) {
        Some(i) => value_behind(body.subrange(i + quoted.len(), body.len() as int)),
        None => None,
    }
}

/// The value that stands behind a colon at the start of `s`.
pub open spec fn value_behind(s: Seq<char>) -> Option<Seq<char>> {
    let t = trimmed_start(s, Pat::Space);
    if t.len() > 0 && t[0] == ':' {
        let v = trimmed_start(t.subrange(1, t.len() as int), Pat::Space);
        let e = find(v, Pat::Either(',', '}'));
        Some(trimmed(trimmed(v.subrange(0, e), Pat::Space), Pat::Is('"')))
    } else {
        None
    }
}

/// `"key"`, quotes and all.
pub fn quoted(key: &str) -> (s: String)
    ensures
        s@ == "\""@ + key@ + "\""@,
{
    let mut s: String = "\"".to_owned();
    s.append(key);
    s.append("\"");
    s
}

/// What stands behind the colon at the start of `s`, white space round the colon aside.
pub fn after_colon(s: &str) -> (r: Option<&str>)
    ensures
        ({
            let t = trimmed_start(s@, Pat::Space);
            match r {
                Some(v) => t.len() > 0 && t[0] == ':' && v@ == trimmed_start(
                    t.subrange(1, t.len() as int),
                    Pat::Space,
                ),
                None => !(t.len() > 0 && t[0] == ':'),
            }
        }),
{
    let t: &str = trim_start(s, Pat::Space);
    if char_len(t) > 0 && t.get_char(0) == ':' {
        Some(trim_start(skip(t, 1), Pat::Space))
    } else {
        None
    }
}

/// What stands behind the first `"key"` in `body`.
pub fn after_key<'a>(body: &'a str, key: &str) -> (r: Option<&'a str>)
    ensures
        ({
            let quoted = "\""@ + key@ + "\""@;
            match r {
                Some(v) => match_from(body@, quoted, 0) matches Some(i) && v@ == body@.subrange(
                    i + quoted.len(),
                    body@.len() as int,
                ),
                None => match_from(body@, quoted, 0) is None,
            }
        }),
{
    let pat: String = quoted(key);
    let n: usize = char_len(pat.as_str());
    let m: usize = char_len(body);
    match find_str(body, pat.as_str()) {
        Some(i) => {
            assert(i + n <= m);
            Some(skip(body, i + n))
        },
        None => None,
    }
}

/// Minimal reader for the flat `{"key": value}` bodies this API accepts.
pub fn json_field<'a>(body: &'a str, key: &str) -> (r: Option<&'a str>)
    ensures
        match r {
            Some(v) => field_of(body@, key@) == Some(v@),
            None => field_of(body@, key@) is None,
        },
{
    match after_key(body, key) {
        Some(rest) => match after_colon(rest) {
            Some(v) => {
                let e: usize = find_pat(v, Pat::Either(',', '}'));
                Some(trim(trim(take(v, e), Pat::Space), Pat::Is('"')))
            },
            None => None,
        },
        None => None,
    }
}

/// Path and query of a request target.
pub open spec fn query_split(path: Seq<char>) -> (Seq<char>, Seq<char>) {
    match cut(path, Pat::Is('?')) {
        Some(pair) => pair,
        None => (path, Seq::empty()),
    }
}

/// Splits `"path?query"` into `(path, query)`; without a query string the query is empty.
pub fn split_query(path: &str) -> (r: (&str, &str))
    ensures
        (r.0@, r.1@) == query_split(path@),
{
    match split_once(path, Pat::Is('?')) {
        Some((p, q)) => (p, q),
        None => {
            let e: &str = take(path, 0);
            assert(e@ =~= Seq::<char>::empty());
            (path, e)
        },
    }
}

/// The value of the first `key=value` pair at or after `i`.
pub open spec fn value_in_pairs(pairs: Seq<Seq<char>>, key: Seq<char>, i: int) -> Option<Seq<char>>
    decreases pairs.len() - i,
{
    if i < 0 || i >= pairs.len() {
        None
    } else {
        match cut(pairs[i], Pat::Is('=')) {
            Some((k, v)) => if k == key {
                Some(v)
            } else {
                value_in_pairs(pairs, key, i + 1)
            },
            None => value_in_pairs(pairs, key, i + 1),
        }
    }
}

pub open spec fn query_value(query: Seq<char>, key: Seq<char>) -> Option<Seq<char>> {
    value_in_pairs(pieces(query, Pat::Is('&')), key, 0)
}

/// Reads one `key=value` pair out of a query string (`&`-separated, first match wins). No
/// percent-decoding.
pub fn query_field<'a>(query: &'a str, key: &str) -> (r: Option<&'a str>)
    ensures
        match r {
            Some(v) => query_value(query@, key@) == Some(v@),
            None => query_value(query@, key@) is None,
        },
{
    let pairs: Vec<&str> = split(query, Pat::Is('&'));
    let ghost all = texts(pairs@);
    let mut i: usize = 0;
    while i < pairs.len()
        invariant
            i <= pairs.len(),
            all == texts(pairs@),
            all == pieces(query@, Pat::Is('&')),
            value_in_pairs(all, key@, 0) == value_in_pairs(all, key@, i as int),
        decreases pairs.len() - i,
    {
        assert(all[i as int] == pairs@[i as int]@);
        if let Some((k, v)) = split_once(pairs[i], Pat::Is('=')) {
            if same(k, key) {
                return Some(v);
            }
        }
        i = i + 1;
    }
    None
}

/// A request that is complete stays the same whatever bytes follow it.
pub proof fn law_complete_request_is_final(bytes: Seq<u8>, more: Seq<u8>)
    requires
        outcome(bytes) is Done,
    ensures
        outcome(bytes + more) == outcome(bytes),
{
    lemma_headers_end_prefix(bytes, more);
    lemma_headers_end_from(bytes, 0);
    let e = headers_end(bytes)->0;
    let want = head_parts(lossy(bytes.subrange(0, e))).2;
    assert((bytes + more).subrange(0, e) =~= bytes.subrange(0, e));
    assert((bytes + more).subrange(e, e + want) =~= bytes.subrange(e, e + want));
}

/// A path is split at its first question mark, and has no query where it has none.
pub proof fn law_query_is_split(path: Seq<char>, query: Seq<char>)
    requires
        forall|i: int| 0 <= i < path.len() ==> #[trigger] path[i] != '?',
    ensures
        query_split(path + seq!['?'] + query) == (path, query),
        query_split(path) == (path, Seq::<char>::empty()),
{
    assert forall|i: int| 0 <= i < path.len() implies !Pat::Is('?').has(#[trigger] path[i]) by {}
    crate::text::law_cut(path, '?', query, Pat::Is('?'));
}

/// A value is found in a query under its own key, first or behind others; the first of a key counts.
pub proof fn law_query_values(key: Seq<char>, value: Seq<char>, rest: Seq<char>, wanted: Seq<char>)
    requires
        forall|i: int| 0 <= i < key.len() ==> #[trigger] key[i] != '=' && key[i] != '&',
        forall|i: int| 0 <= i < value.len() ==> #[trigger] value[i] != '&',
    ensures
        query_value(key + seq!['='] + value, key) == Some(value),
        query_value(key + seq!['='] + value + seq!['&'] + rest, key) == Some(value),
        wanted != key ==> query_value(key + seq!['='] + value + seq!['&'] + rest, wanted)
            == query_value(rest, wanted),
{
    let pair = key + seq!['='] + value;
    assert forall|i: int| 0 <= i < key.len() implies !Pat::Is('=').has(#[trigger] key[i]) by {
        assert(key[i] != '=');
    }
    crate::text::law_cut(key, '=', value, Pat::Is('='));
    assert forall|i: int| 0 <= i < pair.len() implies !Pat::Is('&').has(#[trigger] pair[i]) by {
        if i < key.len() {
            assert(pair[i] == key[i]);
        } else if i > key.len() {
            assert(pair[i] == value[i - key.len() - 1]);
        }
    }
    crate::text::law_pieces(pair, '&', rest, Pat::Is('&'));
    let ps = seq![pair] + pieces(rest, Pat::Is('&'));
    assert(ps[0] == pair);
    lemma_pairs_shift(ps, pieces(rest, Pat::Is('&')), wanted, 0);
}

proof fn lemma_pairs_shift(a: Seq<Seq<char>>, b: Seq<Seq<char>>, key: Seq<char>, i: int)
    requires
        a.len() == b.len() + 1,
        forall|j: int| 0 <= j < b.len() ==> a[j + 1] == #[trigger] b[j],
        0 <= i,
    ensures
        value_in_pairs(a, key, i + 1) == value_in_pairs(b, key, i),
    decreases b.len() - i,
{
    if i < b.len() {
        assert(a[i + 1] == b[i]);
        lemma_pairs_shift(a, b, key, i + 1);
    }
}

/// The length of a body is the number that its header gives, in whatever case the header is written.
pub proof fn law_content_length(key: Seq<char>, n: nat)
    requires
        same_ignoring_case(key, "content-length"@),
        forall|i: int| 0 <= i < key.len() ==> #[trigger] key[i] != ':',
        n <= usize::MAX,
    ensures
        length_in_line(key + seq![':'] + (seq![' '] + dec(n))) == Some(n),
{
    let v = seq![' '] + dec(n);
    assert forall|i: int| 0 <= i < key.len() implies !Pat::Is(':').has(#[trigger] key[i]) by {}
    crate::text::law_cut(key, ':', v, Pat::Is(':'));
    crate::number::lemma_dec_worth(n);
    crate::number::lemma_uint_of_dec(n, usize::MAX as nat);
    let d = dec(n);
    assert(crate::text::is_digit(d[0]));
    assert(crate::text::is_digit(d[d.len() - 1]));
    assert(v[0] == ' ' && v[1] == d[0]);
    reveal_with_fuel(crate::text::span_from, 3);
    assert(crate::text::span_from(v, Pat::Space, 0) == 1);
    assert(v.subrange(1, v.len() as int) =~= d);
    crate::text::lemma_trimmed_id(d, Pat::Space);
    assert(trimmed(v, Pat::Space) == d);
}

/// The first header that gives a length counts, and without one there is no body.
pub proof fn law_first_length_counts(ls: Seq<Seq<char>>, i: int, k: int)
    requires
        0 <= i <= k <= ls.len(),
        forall|j: int| i <= j < k ==> length_in_line(#[trigger] ls[j]) is None,
    ensures
        k == ls.len() ==> content_length(ls, i) == 0,
        k < ls.len() && length_in_line(ls[k]) is Some ==> content_length(ls, i) == length_in_line(
            ls[k],
        )->0,
    decreases k - i,
{
    if i < k {
        law_first_length_counts(ls, i + 1, k);
    }
}

/// A request is served with as many bytes of its body as its header says, those right behind the
/// blank line.
pub proof fn law_body_is_behind_the_headers(head: Seq<u8>, body: Seq<u8>, more: Seq<u8>)
    requires
        headers_end(head) == Some(head.len() as int),
        head_parts(lossy(head)).2 == body.len(),
        body.len() <= MAX_BODY,
    ensures
        outcome(head + body + more) == Outcome::Done(
            head_parts(lossy(head)).0,
            head_parts(lossy(head)).1,
            body,
        ),
{
    let b = head + body + more;
    assert(b =~= head + (body + more));
    lemma_headers_end_prefix(head, body + more);
    assert(b.subrange(0, head.len() as int) =~= head);
    assert(b.subrange(head.len() as int, (head.len() + body.len()) as int) =~= body);
}

/// Headers that do not end within eight kibibytes are refused, and so is a body of over eight
/// mebibytes; anything shorter is waited for.
pub proof fn law_limits(bytes: Seq<u8>)
    ensures
        headers_end(bytes) is None && bytes.len() >= 8_192 ==> outcome(bytes) == Outcome::Reject(
            "request too large"@,
        ),
        headers_end(bytes) is None && bytes.len() < 8_192 ==> outcome(bytes) is More,
        headers_end(bytes) matches Some(e) ==> {
            let want = head_parts(lossy(bytes.subrange(0, e))).2;
            &&& want > 8_388_608 ==> outcome(bytes) == Outcome::Reject("body too large"@)
            &&& want <= 8_388_608 && bytes.len() < e + want ==> outcome(bytes) is More
        },
{
}

/// Each answer has the status that says what it is, and its body is sent as it stands or as a message
/// about the error.
pub proof fn law_answers(body: String, m: String, ctype: &'static str, bytes: Vec<u8>)
    ensures
        parts_of(Response::Json(body)) == (200u16, "application/json"@, encode_utf8(body@)),
        parts_of(Response::Blob(ctype, bytes)) == (200u16, ctype@, bytes@),
        parts_of(Response::NoContent).0 == 204 && parts_of(Response::NoContent).2.len() == 0,
        parts_of(Response::BadRequest(m)).0 == 400,
        parts_of(Response::NotFound).0 == 404,
        parts_of(Response::Conflict(m)).0 == 409,
        parts_of(Response::Error(m)).0 == 500,
        parts_of(Response::BadRequest(m)).2 == encode_utf8(error_body(m@)),
        parts_of(Response::Conflict(m)).2 == parts_of(Response::BadRequest(m)).2,
        parts_of(Response::Error(m)).2 == parts_of(Response::BadRequest(m)).2,
{
}

/// The first line of a request gives its method and its path.
pub proof fn law_request_line(method: Seq<char>, path: Seq<char>, version: Seq<char>, rest: Seq<char>)
    requires
        method.len() > 0,
        path.len() > 0,
        forall|i: int| 0 <= i < method.len() ==> !crate::text::is_space(#[trigger] method[i]),
        forall|i: int| 0 <= i < path.len() ==> !crate::text::is_space(#[trigger] path[i]),
        forall|i: int| 0 <= i < version.len() ==> #[trigger] version[i] != '\r',
    ensures
        ({
            let line = method + seq![' '] + (path + seq![' '] + version);
            let h = head_parts(line + "\r\n"@ + rest);
            h.0 == method && h.1 == path
        }),
{
    let tail = path + seq![' '] + version;
    let line = method + seq![' '] + tail;
    assert forall|i: int| 0 <= i < line.len() implies #[trigger] line[i] != '\r' by {
        if i < method.len() {
            assert(line[i] == method[i]);
        } else if i > method.len() {
            let j = i - method.len() - 1;
            assert(line[i] == tail[j]);
            if j < path.len() {
                assert(tail[j] == path[j]);
            } else if j > path.len() {
                assert(tail[j] == version[j - path.len() - 1]);
            }
        }
    }
    crate::text::law_message_lines(line, rest);
    crate::text::law_words(method, ' ', tail);
    crate::text::law_words(path, ' ', version);
    let ls = pieces_by(line + "\r\n"@ + rest, "\r\n"@);
    assert(ls[0] == line);
    let ws = words(line);
    assert(ws[0] == method && ws[1] == path);
}

/// The head of an answer says in its first line what came of the request, in the second what the body
/// is, and in the third how long: the length is read as any length is.
pub proof fn law_answer_head(code: u16, ctype: Seq<char>, len: nat)
    requires
        forall|i: int| 0 <= i < ctype.len() ==> #[trigger] ctype[i] != '\r',
        len <= usize::MAX,
    ensures
        ({
            let ls = pieces_by(head_of(code, ctype, len), "\r\n"@);
            &&& ls.len() >= 3
            &&& ls[0] == "HTTP/1.1 "@ + dec(code as nat) + " "@ + reason_of(code)
            &&& ls[1] == "Content-Type: "@ + ctype
            &&& length_in_line(ls[2]) == Some(len)
        }),
{
    let a = "HTTP/1.1 "@ + dec(code as nat) + " "@ + reason_of(code);
    let b = "Content-Type: "@ + ctype;
    let key = "Content-Length"@;
    let c = key + seq![':'] + (seq![' '] + dec(len));
    let d = "Connection: close\r\n\r\n"@;
    let t = head_of(code, ctype, len);
    assert("\r\nContent-Type: "@ =~= "\r\n"@ + "Content-Type: "@) by {
        reveal_strlit("\r\nContent-Type: ");
        reveal_strlit("\r\n");
        reveal_strlit("Content-Type: ");
    }
    assert("\r\nContent-Length: "@ =~= "\r\n"@ + (key + seq![':'] + seq![' '])) by {
        reveal_strlit("\r\nContent-Length: ");
        reveal_strlit("\r\n");
        reveal_strlit("Content-Length");
    }
    assert("\r\nConnection: close\r\n\r\n"@ =~= "\r\n"@ + d) by {
        reveal_strlit("\r\nConnection: close\r\n\r\n");
        reveal_strlit("\r\n");
        reveal_strlit("Connection: close\r\n\r\n");
    }
    let r1 = b + "\r\n"@ + (c + "\r\n"@ + d);
    assert(t =~= a + "\r\n"@ + r1);
    lemma_reason_is_one_line(code);
    crate::number::lemma_dec_worth(code as nat);
    crate::number::lemma_dec_worth(len);
    assert forall|i: int| 0 <= i < a.len() implies #[trigger] a[i] != '\r' by {
        reveal_strlit("HTTP/1.1 ");
        reveal_strlit(" ");
        let e = dec(code as nat);
        if 9 <= i < 9 + e.len() {
            assert(a[i] == e[i - 9]);
            assert(crate::text::is_digit(e[i - 9]));
        } else if i > 9 + e.len() {
            assert(a[i] == reason_of(code)[i - 10 - e.len()]);
        }
    }
    assert forall|i: int| 0 <= i < b.len() implies #[trigger] b[i] != '\r' by {
        reveal_strlit("Content-Type: ");
        if i >= 14 {
            assert(b[i] == ctype[i - 14]);
        }
    }
    reveal_strlit("Content-Length");
    assert forall|i: int| 0 <= i < c.len() implies #[trigger] c[i] != '\r' by {
        if i < 14 {
            assert(c[i] == key[i]);
        } else if i >= 16 {
            assert(c[i] == dec(len)[i - 16]);
            assert(crate::text::is_digit(dec(len)[i - 16]));
        }
    }
    crate::text::law_message_lines(a, r1);
    crate::text::law_message_lines(b, c + "\r\n"@ + d);
    crate::text::law_message_lines(c, d);
    assert(same_ignoring_case(key, "content-length"@)) by {
        reveal_strlit("content-length");
        let f = |c: char| crate::text::ascii_lower(c);
        assert(key.map_values(f) =~= "content-length"@.map_values(f));
    }
    law_content_length(key, len);
    let ls = pieces_by(t, "\r\n"@);
    assert(ls[1] == pieces_by(r1, "\r\n"@)[0]);
    assert(ls[2] == pieces_by(r1, "\r\n"@)[1]);
}

proof fn lemma_reason_is_one_line(code: u16)
    ensures
        forall|i: int| 0 <= i < reason_of(code).len() ==> #[trigger] reason_of(code)[i] != '\r',
{
    reveal_strlit("OK");
    reveal_strlit("No Content");
    reveal_strlit("Bad Request");
    reveal_strlit("Not Found");
    reveal_strlit("Conflict");
    reveal_strlit("Internal Server Error");
}

} // verus!
