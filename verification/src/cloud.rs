//! The switch that cuts the device off from the vendor's cloud.
//!
//! Everything outside the LAN is reached through the default route, and so are most hosts of the
//! LAN. So the switch first adds a route to the LAN through the same gateway and checks that the
//! kernel has it; only then does it take the default route away and put a blackhole in its place.
//! Then it tries to reach a host of the LAN, and where that fails it puts the default route back.
//! It fails safe: the cloud may stay reachable, the device never gets stranded.

use vstd::prelude::*;
use vstd::string::*;

use crate::http::{field_of, json_field};
use crate::json::{bool_str, bool_text, escaped_or_null, opt_json_escaped, opt_text};
use crate::number::{dec, parse_max, push_dec, uint_of};
use crate::text::{
    char_len, cut, escape_debug, escaped, lines, same, split_lines, split_once, split_whitespace,
    starts, starts_with, texts, trim, trimmed, words, Pat,
};

pub mod laws;

verus! {

/// Every subnet of the LAN.
pub const LAN_CIDR: &'static str = "192.168.0.0/16";

/// Where the state is persisted.
pub const STATE_PATH: &'static str = "/opt/kibble/cloud.json";

/// The port of the agent's own video server.
pub const RTSP_PORT: u16 = 8554;

/// What was asked for, and what is known for restoring it.
#[derive(Debug, PartialEq)]
pub struct State {
    pub enabled: bool,
    /// The gateway that was last seen live.
    pub gateway: Option<String>,
    pub dev: Option<String>,
    /// Why the last attempt to cut the cloud off was rolled back.
    pub last_error: Option<String>,
}

pub struct StateView {
    pub enabled: bool,
    pub gateway: Option<Seq<char>>,
    pub dev: Option<Seq<char>>,
    pub last_error: Option<Seq<char>>,
}

impl View for State {
    type V = StateView;

    open spec fn view(&self) -> StateView {
        StateView {
            enabled: self.enabled,
            gateway: opt_text(self.gateway),
            dev: opt_text(self.dev),
            last_error: opt_text(self.last_error),
        }
    }
}

impl Default for State {
    /// Nothing was ever asked for: the cloud is as the vendor left it.
    fn default() -> (s: State)
        ensures
            s@ == (StateView { enabled: true, gateway: None, dev: None, last_error: None }),
    {
        State { enabled: true, gateway: None, dev: None, last_error: None }
    }
}

/// Why the switch failed.
#[derive(Debug)]
pub enum Error {
    /// No default route is live and no gateway is known.
    NoGateway,
    /// The route to the LAN is not there after it was added. The default route was not touched.
    LanRouteMissing,
    /// A command failed.
    Command(String),
    /// No host of the LAN could be reached. The default route was put back.
    SelfCheckFailed(String),
    /// The state could not be saved.
    Io(String),
}

pub enum ErrorView {
    NoGateway,
    LanRouteMissing,
    Command(Seq<char>),
    SelfCheckFailed(Seq<char>),
    Io(Seq<char>),
}

impl View for Error {
    type V = ErrorView;

    open spec fn view(&self) -> ErrorView {
        match self {
            Error::NoGateway => ErrorView::NoGateway,
            Error::LanRouteMissing => ErrorView::LanRouteMissing,
            Error::Command(m) => ErrorView::Command(m@),
            Error::SelfCheckFailed(m) => ErrorView::SelfCheckFailed(m@),
            Error::Io(m) => ErrorView::Io(m@),
        }
    }
}

impl ErrorView {
    pub open spec fn text(self) -> Seq<char> {
        match self {
            ErrorView::NoGateway => "no default route visible and no cached gateway; cannot determine the LAN next-hop"@,
            ErrorView::LanRouteMissing => LAN_CIDR@
                + " carve-out route did not verify as present after being added; the default route was left untouched"@,
            ErrorView::Command(m) => m,
            ErrorView::SelfCheckFailed(m) => m,
            ErrorView::Io(m) => m,
        }
    }
}

impl Error {
    pub fn message(&self) -> (s: String)
        ensures
            s@ == self@.text(),
    {
        match self {
            Error::NoGateway => "no default route visible and no cached gateway; cannot determine the LAN next-hop".to_owned(),
            Error::LanRouteMissing => {
                let mut s: String = LAN_CIDR.to_owned();
                s.append(
                    " carve-out route did not verify as present after being added; the default route was left untouched",
                );
                s
            },
            Error::Command(m) => m.clone(),
            Error::SelfCheckFailed(m) => m.clone(),
            Error::Io(m) => m.clone(),
        }
    }
}

impl Clone for Error {
    fn clone(&self) -> (e: Error)
        ensures
            e@ == self@,
    {
        match self {
            Error::NoGateway => Error::NoGateway,
            Error::LanRouteMissing => Error::LanRouteMissing,
            Error::Command(m) => Error::Command(m.clone()),
            Error::SelfCheckFailed(m) => Error::SelfCheckFailed(m.clone()),
            Error::Io(m) => Error::Io(m.clone()),
        }
    }
}

/// The word at `i`, if there is one.
pub open spec fn word_at(ws: Seq<Seq<char>>, i: int) -> Option<Seq<char>> {
    if 0 <= i < ws.len() {
        Some(ws[i])
    } else {
        None
    }
}

/// The words behind `via` and behind `dev`, from word `i` on.
pub open spec fn via_dev(
    ws: Seq<Seq<char>>,
    i: int,
    gw: Option<Seq<char>>,
    dev: Option<Seq<char>>,
) -> (Option<Seq<char>>, Option<Seq<char>>)
    decreases ws.len() + 1 - i,
{
    if i < 0 || i >= ws.len() {
        (gw, dev)
    } else if ws[i] == "via"@ {
        via_dev(ws, i + 2, word_at(ws, i + 1), dev)
    } else if ws[i] == "dev"@ {
        via_dev(ws, i + 2, gw, word_at(ws, i + 1))
    } else {
        via_dev(ws, i + 1, gw, dev)
    }
}

/// Gateway and interface of a route to `target`, where the line is one.
pub open spec fn route_in(line: Seq<char>, target: Seq<char>) -> Option<(
    Option<Seq<char>>,
    Option<Seq<char>>,
)> {
    let ws = words(line);
    if ws.len() > 0 && ws[0] == target {
        Some(via_dev(ws, 1, None, None))
    } else {
        None
    }
}

/// Gateway and interface of the first live default route at or after line `i`.
pub open spec fn default_route_from(ls: Seq<Seq<char>>, i: int) -> Option<(Seq<char>, Seq<char>)>
    decreases ls.len() - i,
{
    if i < 0 || i >= ls.len() {
        None
    } else {
        match route_in(ls[i], "default"@) {
            Some((Some(gw), Some(dev))) => Some((gw, dev)),
            _ => default_route_from(ls, i + 1),
        }
    }
}

/// Gateway and interface of the first live default route.
pub open spec fn default_route(routes: Seq<char>) -> Option<(Seq<char>, Seq<char>)> {
    default_route_from(lines(routes), 0)
}

/// Whether a line is the route to the LAN through this gateway and interface.
pub open spec fn is_lan_route(line: Seq<char>, gw: Seq<char>, dev: Seq<char>) -> bool {
    route_in(line, LAN_CIDR@) == Some((Some(gw), Some(dev)))
}

/// Whether the routes hold the route to the LAN.
pub open spec fn lan_present(routes: Seq<char>, gw: Seq<char>, dev: Seq<char>) -> bool {
    exists|i: int| 0 <= i < lines(routes).len() && is_lan_route(#[trigger] lines(routes)[i], gw, dev)
}

/// What the slices of an optional pair hold.
pub open spec fn opt_str(o: Option<&str>) -> Option<Seq<char>> {
    match o {
        Some(s) => Some(s@),
        None => None,
    }
}

/// Reads one line of the routing table.
fn read_route<'a>(line: &'a str, target: &str) -> (r: Option<(Option<&'a str>, Option<&'a str>)>)
    ensures
        match r {
            Some((gw, dev)) => route_in(line@, target@) == Some((opt_str(gw), opt_str(dev))),
            None => route_in(line@, target@) is None,
        },
{
    let ws: Vec<&str> = split_whitespace(line);
    let ghost all = words(line@);
    assert(texts(ws@).len() == ws@.len());
    if ws.len() == 0 {
        return None;
    }
    assert(all[0] == ws@[0]@);
    if !same(ws[0], target) {
        return None;
    }
    let mut gw: Option<&str> = None;
    let mut dev: Option<&str> = None;
    let n: usize = ws.len();
    let mut i: usize = 1;
    while i < n
        invariant
            n == ws@.len() == all.len(),
            all == texts(ws@),
            1 <= i,
            via_dev(all, 1, None, None) == via_dev(all, i as int, opt_str(gw), opt_str(dev)),
        decreases n - i,
    {
        let word: &str = ws[i];
        assert(all[i as int] == word@);
        let is_via: bool = same(word, "via");
        if is_via || same(word, "dev") {
            proof {
                reveal_strlit("via");
                reveal_strlit("dev");
                assert("via"@[0] == 'v' && "dev"@[0] == 'd');
            }
            let next: Option<&str> = if i < n - 1 {
                assert(all[i + 1] == ws@[i + 1]@);
                Some(ws[i + 1])
            } else {
                None
            };
            if is_via {
                gw = next;
            } else {
                dev = next;
            }
            if i >= n - 1 {
                assert(via_dev(all, i + 2, opt_str(gw), opt_str(dev)) == (
                    opt_str(gw),
                    opt_str(dev),
                ));
                i = n;
            } else {
                i = i + 2;
            }
        } else {
            i = i + 1;
        }
    }
    assert(via_dev(all, i as int, opt_str(gw), opt_str(dev)) == (opt_str(gw), opt_str(dev)));
    Some((gw, dev))
}

/// The first live default route: its gateway and interface. A blackholed default is none.
pub fn parse_default_route(routes: &str) -> (r: Option<(String, String)>)
    ensures
        match r {
            Some((gw, dev)) => default_route(routes@) == Some((gw@, dev@)),
            None => default_route(routes@) is None,
        },
{
    let ls: Vec<&str> = split_lines(routes);
    let ghost all = lines(routes@);
    let mut i: usize = 0;
    assert(texts(ls@).len() == ls@.len());
    while i < ls.len()
        invariant
            i <= ls.len(),
            all == texts(ls@),
            all == lines(routes@),
            default_route_from(all, 0) == default_route_from(all, i as int),
        decreases ls.len() - i,
    {
        assert(all[i as int] == ls@[i as int]@);
        if let Some((Some(gw), Some(dev))) = read_route(ls[i], "default") {
            return Some((gw.to_owned(), dev.to_owned()));
        }
        i = i + 1;
    }
    None
}

/// Whether the routes hold the route to the LAN through this gateway and interface.
pub fn lan_route_present(routes: &str, gw: &str, dev: &str) -> (r: bool)
    ensures
        r == lan_present(routes@, gw@, dev@),
{
    let ls: Vec<&str> = split_lines(routes);
    let ghost all = lines(routes@);
    let mut i: usize = 0;
    assert(texts(ls@).len() == ls@.len());
    while i < ls.len()
        invariant
            i <= ls.len(),
            all == texts(ls@),
            all == lines(routes@),
            forall|j: int| 0 <= j < i ==> !is_lan_route(#[trigger] all[j], gw@, dev@),
        decreases ls.len() - i,
    {
        assert(all[i as int] == ls@[i as int]@);
        if let Some((Some(g), Some(d))) = read_route(ls[i], LAN_CIDR) {
            if same(g, gw) && same(d, dev) {
                return true;
            }
        }
        i = i + 1;
    }
    false
}

/// Gateway and interface: live where there is a default route, else as they were last known.
pub open spec fn gateway_of(live: Seq<char>, cached: StateView) -> Option<(Seq<char>, Seq<char>)> {
    match default_route(live) {
        Some(p) => Some(p),
        None => match (cached.gateway, cached.dev) {
            (Some(gw), Some(dev)) => Some((gw, dev)),
            _ => None,
        },
    }
}

pub fn resolve_gateway(live: &str, cached: &State) -> (r: Result<(String, String), Error>)
    ensures
        match r {
            Ok((gw, dev)) => gateway_of(live@, cached@) == Some((gw@, dev@)),
            Err(e) => gateway_of(live@, cached@) is None && e@ == ErrorView::NoGateway,
        },
{
    if let Some(pair) = parse_default_route(live) {
        return Ok(pair);
    }
    match (&cached.gateway, &cached.dev) {
        (Some(gw), Some(dev)) => Ok((gw.clone(), dev.clone())),
        _ => Err(Error::NoGateway),
    }
}

/// The addresses of this network.
pub open spec fn lan_address(ip: Seq<char>) -> bool {
    starts(ip, "192.168."@) || starts(ip, "127."@)
}

pub fn is_lan(ip: &str) -> (r: bool)
    ensures
        r == lan_address(ip@),
{
    starts_with(ip, "192.168.") || starts_with(ip, "127.")
}

/// A socket with a peer.
pub struct Connection {
    pub local_port: u16,
    pub remote_ip: String,
    pub remote_port: u16,
    pub state: &'static str,
}

pub struct ConnectionView {
    pub local_port: u16,
    pub remote_ip: Seq<char>,
    pub remote_port: u16,
    pub state: Seq<char>,
}

impl View for Connection {
    type V = ConnectionView;

    open spec fn view(&self) -> ConnectionView {
        ConnectionView {
            local_port: self.local_port,
            remote_ip: self.remote_ip@,
            remote_port: self.remote_port,
            state: self.state@,
        }
    }
}

pub open spec fn connection_views(v: Seq<Connection>) -> Seq<ConnectionView> {
    v.map_values(|c: Connection| c@)
}

pub open spec fn state_name_of(code: u8) -> Seq<char> {
    if code == 1 {
        "ESTABLISHED"@
    } else if code == 2 {
        "SYN_SENT"@
    } else if code == 3 {
        "SYN_RECV"@
    } else if code == 4 {
        "FIN_WAIT1"@
    } else if code == 5 {
        "FIN_WAIT2"@
    } else if code == 6 {
        "TIME_WAIT"@
    } else if code == 7 {
        "CLOSE"@
    } else if code == 8 {
        "CLOSE_WAIT"@
    } else if code == 9 {
        "LAST_ACK"@
    } else if code == 10 {
        "LISTEN"@
    } else if code == 11 {
        "CLOSING"@
    } else if code == 12 {
        "NEW_SYN_RECV"@
    } else {
        "UNKNOWN"@
    }
}

pub fn tcp_state_name(code: u8) -> (s: &'static str)
    ensures
        s@ == state_name_of(code),
{
    match code {
        1 => "ESTABLISHED",
        2 => "SYN_SENT",
        3 => "SYN_RECV",
        4 => "FIN_WAIT1",
        5 => "FIN_WAIT2",
        6 => "TIME_WAIT",
        7 => "CLOSE",
        8 => "CLOSE_WAIT",
        9 => "LAST_ACK",
        10 => "LISTEN",
        11 => "CLOSING",
        12 => "NEW_SYN_RECV",
        _ => "UNKNOWN",
    }
}

/// Byte `i` of a text of hexadecimal digits, two to a byte.
pub open spec fn hex_byte(s: Seq<char>, i: int) -> Option<nat> {
    uint_of(s.subrange(2 * i, 2 * i + 2), 16, 255)
}

/// The address and port that a field of the kernel's table gives. The bytes of the address stand
/// in reverse.
pub open spec fn addr_of(field: Seq<char>) -> Option<(Seq<char>, u16)> {
    match cut(field, Pat::Is(':')) {
        None => None,
        Some((ip, port)) => if ip.len() != 8 {
            None
        } else {
            match (
                hex_byte(ip, 3),
                hex_byte(ip, 2),
                hex_byte(ip, 1),
                hex_byte(ip, 0),
                uint_of(port, 16, 65535),
            ) {
                (Some(a), Some(b), Some(c), Some(d), Some(p)) => Some(
                    (
                        dec(a) + "."@ + dec(b) + "."@ + dec(c) + "."@ + dec(d),
                        p as u16,
                    ),
                ),
                _ => None,
            }
        },
    }
}

fn read_byte(s: &str, i: usize) -> (r: Option<u64>)
    requires
        2 * i + 2 <= s@.len() <= 100,
    ensures
        match r {
            Some(n) => hex_byte(s@, i as int) == Some(n as nat),
            None => hex_byte(s@, i as int) is None,
        },
{
    parse_max(s.substring_char(2 * i, 2 * i + 2), 16, 255)
}

pub fn decode_addr(field: &str) -> (r: Option<(String, u16)>)
    ensures
        match r {
            Some((ip, port)) => addr_of(field@) == Some((ip@, port)),
            None => addr_of(field@) is None,
        },
{
    let (ip, port): (&str, &str) = match split_once(field, Pat::Is(':')) {
        Some(p) => p,
        None => return None,
    };
    if char_len(ip) != 8 {
        return None;
    }
    match (
        read_byte(ip, 3),
        read_byte(ip, 2),
        read_byte(ip, 1),
        read_byte(ip, 0),
        parse_max(port, 16, 65535),
    ) {
        (Some(a), Some(b), Some(c), Some(d), Some(p)) => {
            let mut s: String = String::new();
            push_dec(&mut s, a);
            assert(s@ =~= dec(a as nat));
            s.append(".");
            push_dec(&mut s, b);
            s.append(".");
            push_dec(&mut s, c);
            s.append(".");
            push_dec(&mut s, d);
            Some((s, p as u16))
        },
        _ => None,
    }
}

/// The connection that a line of the kernel's table describes; a socket without a peer is none.
pub open spec fn connection_in(line: Seq<char>) -> Option<ConnectionView> {
    let f = words(line);
    if f.len() < 4 {
        None
    } else {
        match (addr_of(f[1]), addr_of(f[2]), uint_of(f[3], 16, 255)) {
            (Some((_, local_port)), Some((remote_ip, remote_port)), Some(code)) => if remote_ip
                == "0.0.0.0"@ && remote_port == 0 {
                None
            } else {
                Some(
                    ConnectionView {
                        local_port,
                        remote_ip,
                        remote_port,
                        state: state_name_of(code as u8),
                    },
                )
            },
            _ => None,
        }
    }
}

/// The connections in the lines before `n`, the heading aside.
pub open spec fn connections_upto(ls: Seq<Seq<char>>, n: int) -> Seq<ConnectionView>
    decreases n,
{
    if n <= 1 {
        Seq::empty()
    } else {
        match connection_in(ls[n - 1]) {
            Some(c) => connections_upto(ls, n - 1).push(c),
            None => connections_upto(ls, n - 1),
        }
    }
}

pub open spec fn connections(text: Seq<char>) -> Seq<ConnectionView> {
    connections_upto(lines(text), lines(text).len() as int)
}

fn read_connection(line: &str) -> (r: Option<Connection>)
    ensures
        match r {
            Some(c) => connection_in(line@) == Some(c@),
            None => connection_in(line@) is None,
        },
{
    let f: Vec<&str> = split_whitespace(line);
    assert(texts(f@).len() == f@.len());
    if f.len() < 4 {
        return None;
    }
    assert(words(line@)[1] == f@[1]@);
    assert(words(line@)[2] == f@[2]@);
    assert(words(line@)[3] == f@[3]@);
    match (decode_addr(f[1]), decode_addr(f[2]), parse_max(f[3], 16, 255)) {
        (Some((_, local_port)), Some((remote_ip, remote_port)), Some(code)) => {
            if same(remote_ip.as_str(), "0.0.0.0") && remote_port == 0 {
                return None;
            }
            Some(Connection { local_port, remote_ip, remote_port, state: tcp_state_name(code as u8) })
        },
        _ => None,
    }
}

/// Every socket in the kernel's table that has a peer. Malformed lines are left out.
pub fn parse_proc_net_tcp(text: &str) -> (out: Vec<Connection>)
    ensures
        connection_views(out@) == connections(text@),
{
    let ls: Vec<&str> = split_lines(text);
    let ghost all = lines(text@);
    let mut out: Vec<Connection> = Vec::new();
    let mut i: usize = 1;
    assert(texts(ls@).len() == ls@.len());
    assert(connection_views(out@) =~= Seq::<ConnectionView>::empty());
    while i < ls.len()
        invariant
            1 <= i,
            i <= ls.len() || i == 1,
            all == texts(ls@),
            connection_views(out@) == connections_upto(all, i as int),
        decreases ls.len() - i,
    {
        assert(all[i as int] == ls@[i as int]@);
        let ghost done = out@;
        if let Some(c) = read_connection(ls[i]) {
            out.push(c);
            assert(connection_views(out@) =~= connection_views(done).push(c@));
        }
        i = i + 1;
    }
    assert(ls@.len() < 1 ==> connections_upto(all, ls@.len() as int) =~= Seq::<
        ConnectionView,
    >::empty());
    out
}

/// The peer of the first live video session at or after `i`.
pub open spec fn video_peer(cs: Seq<ConnectionView>, i: int) -> Option<Seq<char>>
    decreases cs.len() - i,
{
    if i < 0 || i >= cs.len() {
        None
    } else if cs[i].local_port == RTSP_PORT && cs[i].state == "ESTABLISHED"@ {
        Some(cs[i].remote_ip)
    } else {
        video_peer(cs, i + 1)
    }
}

/// Which host of the LAN to try: whoever is pulling the video now, else the gateway. `table` is
/// the kernel's table of sockets, where it could be read.
pub fn self_check_target(table: Option<&str>, gw: &str) -> (r: (String, u16))
    ensures
        match opt_str(table) {
            Some(t) => match video_peer(connections(t), 0) {
                Some(ip) => r.0@ == ip && r.1 == RTSP_PORT,
                None => r.0@ == gw@ && r.1 == 80,
            },
            None => r.0@ == gw@ && r.1 == 80,
        },
{
    if let Some(text) = table {
        let cs: Vec<Connection> = parse_proc_net_tcp(text);
        let ghost all = connection_views(cs@);
        let mut i: usize = 0;
        while i < cs.len()
            invariant
                i <= cs.len(),
                all == connection_views(cs@),
                all == connections(text@),
                table == Some(text),
                video_peer(all, 0) == video_peer(all, i as int),
            decreases cs.len() - i,
        {
            assert(all[i as int] == cs@[i as int]@);
            if cs[i].local_port == RTSP_PORT && same(cs[i].state, "ESTABLISHED") {
                return (cs[i].remote_ip.clone(), RTSP_PORT);
            }
            i = i + 1;
        }
    }
    (gw.to_owned(), 80)
}

/// How an attempt to connect came out.
pub enum Probe {
    Connected,
    Refused,
    Failed(String),
}

/// A completed connection and a refusal both prove that a reply came back.
pub fn classify_self_check(result: Probe) -> (r: Result<(), String>)
    ensures
        match (result, r) {
            (Probe::Connected, Ok(_)) => true,
            (Probe::Refused, Ok(_)) => true,
            (Probe::Failed(m), Err(e)) => e@ == m@,
            _ => false,
        },
{
    match result {
        Probe::Connected => Ok(()),
        Probe::Refused => Ok(()),
        Probe::Failed(m) => Err(m),
    }
}

/// Why the switch was rolled back.
pub fn unreachable_message(ip: &str, port: u16, e: &str) -> (s: String)
    ensures
        s@ == "LAN unreachable after blackholing ("@ + ip@ + ":"@ + dec(port as nat) + "): "@ + e@
            + ", rolled back"@,
{
    let mut s: String = "LAN unreachable after blackholing (".to_owned();
    s.append(ip);
    s.append(":");
    push_dec(&mut s, port as u64);
    s.append("): ");
    s.append(e);
    s.append(", rolled back");
    s
}

/// The commands that change and read the routes.
#[derive(Clone, Copy, PartialEq, Eq, Debug, Structural)]
pub enum Command {
    AddLan,
    Show,
    DropDefault,
    Blackhole,
    RestoreDefault,
    DropBlackhole,
}

impl Command {
    /// The arguments of the command.
    pub open spec fn words(self, gw: Seq<char>, dev: Seq<char>) -> Seq<Seq<char>> {
        match self {
            Command::AddLan => seq![
                "route"@,
                "replace"@,
                LAN_CIDR@,
                "via"@,
                gw,
                "dev"@,
                dev,
            ],
            Command::Show => seq!["route"@, "show"@],
            Command::DropDefault => seq!["route"@, "del"@, "default"@, "via"@, gw, "dev"@, dev],
            Command::Blackhole => seq!["route"@, "replace"@, "blackhole"@, "default"@],
            Command::RestoreDefault => seq![
                "route"@,
                "replace"@,
                "default"@,
                "via"@,
                gw,
                "dev"@,
                dev,
            ],
            Command::DropBlackhole => seq!["route"@, "del"@, "blackhole"@, "default"@],
        }
    }

    pub fn args<'a>(self, gw: &'a str, dev: &'a str) -> (v: Vec<&'a str>)
        ensures
            texts(v@) == self.words(gw@, dev@),
    {
        let v: Vec<&'a str> = match self {
            Command::AddLan => vec!["route", "replace", LAN_CIDR, "via", gw, "dev", dev],
            Command::Show => vec!["route", "show"],
            Command::DropDefault => vec!["route", "del", "default", "via", gw, "dev", dev],
            Command::Blackhole => vec!["route", "replace", "blackhole", "default"],
            Command::RestoreDefault => vec!["route", "replace", "default", "via", gw, "dev", dev],
            Command::DropBlackhole => vec!["route", "del", "blackhole", "default"],
        };
        assert(texts(v@) =~= self.words(gw@, dev@));
        v
    }
}

/// How far a run of the switch has come.
#[derive(Clone, Copy, PartialEq, Eq, Debug, Structural)]
pub enum Phase {
    AddLan,
    Verify,
    DropDefault,
    Blackhole,
    SelfCheck,
    Restore,
    Cleanup,
    Done,
}

/// What a run of the switch asks for next.
#[derive(Clone, Copy, PartialEq, Eq, Debug, Structural)]
pub enum Action {
    /// Run this command, and report its output or why it failed.
    Run(Command),
    /// Try to reach a host of the LAN, and report why it failed where it did.
    SelfCheck,
    /// Nothing more.
    Finish,
}

/// One run of the switch.
pub struct Switch {
    gw: String,
    dev: String,
    /// Whether the run is to cut the cloud off.
    off: bool,
    /// Whether the cloud was recorded as enabled when the run began.
    was_enabled: bool,
    phase: Phase,
    /// Why the run is being rolled back.
    failure: Option<Error>,
}

pub struct SwitchView {
    pub gw: Seq<char>,
    pub dev: Seq<char>,
    pub off: bool,
    pub was_enabled: bool,
    pub phase: Phase,
    pub failure: Option<ErrorView>,
}

pub open spec fn error_view(e: Option<Error>) -> Option<ErrorView> {
    match e {
        Some(x) => Some(x@),
        None => None,
    }
}

impl View for Switch {
    type V = SwitchView;

    closed spec fn view(&self) -> SwitchView {
        SwitchView {
            gw: self.gw@,
            dev: self.dev@,
            off: self.off,
            was_enabled: self.was_enabled,
            phase: self.phase,
            failure: error_view(self.failure),
        }
    }
}

/// What came of an action: the output, or why it failed.
pub open spec fn event_view(r: Result<String, String>) -> Result<Seq<char>, Seq<char>> {
    match r {
        Ok(s) => Ok(s@),
        Err(s) => Err(s@),
    }
}

impl SwitchView {
    pub open spec fn at(self, phase: Phase) -> SwitchView {
        SwitchView { phase, ..self }
    }

    /// The run turns to putting the default route back.
    pub open spec fn roll_back(self, e: ErrorView) -> SwitchView {
        SwitchView { phase: Phase::Restore, failure: Some(e), ..self }
    }

    /// The run ends with an error.
    pub open spec fn fail(self, e: ErrorView) -> SwitchView {
        SwitchView { phase: Phase::Done, failure: Some(e), ..self }
    }

    /// The run after the action at hand came out as `r`.
    pub open spec fn next(self, r: Result<Seq<char>, Seq<char>>) -> SwitchView {
        match (self.phase, r) {
            (Phase::AddLan, Ok(_)) => self.at(Phase::Verify),
            (Phase::AddLan, Err(m)) => self.roll_back(ErrorView::Command(m)),
            (Phase::Verify, Ok(t)) => if lan_present(t, self.gw, self.dev) {
                self.at(Phase::DropDefault)
            } else {
                self.fail(ErrorView::LanRouteMissing)
            },
            (Phase::Verify, Err(m)) => self.roll_back(ErrorView::Command(m)),
            (Phase::DropDefault, _) => self.at(Phase::Blackhole),
            (Phase::Blackhole, Ok(_)) => self.at(Phase::SelfCheck),
            (Phase::Blackhole, Err(m)) => self.roll_back(ErrorView::Command(m)),
            (Phase::SelfCheck, Ok(_)) => self.at(Phase::Done),
            (Phase::SelfCheck, Err(m)) => self.roll_back(ErrorView::SelfCheckFailed(m)),
            (Phase::Restore, Ok(_)) => self.at(Phase::Cleanup),
            (Phase::Restore, Err(m)) => if self.off {
                self.at(Phase::Done)
            } else {
                self.fail(ErrorView::Command(m))
            },
            (Phase::Cleanup, _) => self.at(Phase::Done),
            (Phase::Done, _) => self,
        }
    }

    pub open spec fn action(self) -> Action {
        match self.phase {
            Phase::AddLan => Action::Run(Command::AddLan),
            Phase::Verify => Action::Run(Command::Show),
            Phase::DropDefault => Action::Run(Command::DropDefault),
            Phase::Blackhole => Action::Run(Command::Blackhole),
            Phase::SelfCheck => Action::SelfCheck,
            Phase::Restore => Action::Run(Command::RestoreDefault),
            Phase::Cleanup => Action::Run(Command::DropBlackhole),
            Phase::Done => Action::Finish,
        }
    }

    /// The state that a run which has ended leaves to be saved. A run that is to cut the cloud off
    /// always leaves one: where it was rolled back the cloud is enabled, and where it stopped short
    /// of the default route the cloud is as it was. One that failed to put the default route back
    /// leaves what was saved before.
    pub open spec fn to_save(self) -> Option<StateView> {
        match self.failure {
            None => Some(
                StateView {
                    enabled: !self.off,
                    gateway: Some(self.gw),
                    dev: Some(self.dev),
                    last_error: None,
                },
            ),
            Some(e) => if self.off {
                Some(
                    StateView {
                        enabled: e == ErrorView::LanRouteMissing ==> self.was_enabled,
                        gateway: Some(self.gw),
                        dev: Some(self.dev),
                        last_error: Some(e.text()),
                    },
                )
            } else {
                None
            },
        }
    }
}

/// A run that is to cut the cloud off, before anything is done.
pub open spec fn off_run(gw: Seq<char>, dev: Seq<char>, was_enabled: bool) -> SwitchView {
    SwitchView { gw, dev, off: true, was_enabled, phase: Phase::AddLan, failure: None }
}

/// A run that is to put the default route back.
pub open spec fn on_run(gw: Seq<char>, dev: Seq<char>, was_enabled: bool) -> SwitchView {
    SwitchView { gw, dev, off: false, was_enabled, phase: Phase::Restore, failure: None }
}

impl Switch {
    /// Starts a run that is to cut the cloud off, which was recorded as enabled or not.
    pub fn turn_off(gw: String, dev: String, was_enabled: bool) -> (s: Switch)
        ensures
            s@ == off_run(gw@, dev@, was_enabled),
    {
        Switch { gw, dev, off: true, was_enabled, phase: Phase::AddLan, failure: None }
    }

    /// Starts a run that is to put the default route back.
    pub fn turn_on(gw: String, dev: String, was_enabled: bool) -> (s: Switch)
        ensures
            s@ == on_run(gw@, dev@, was_enabled),
    {
        Switch { gw, dev, off: false, was_enabled, phase: Phase::Restore, failure: None }
    }

    pub fn gateway(&self) -> (s: &str)
        ensures
            s@ == self@.gw,
    {
        self.gw.as_str()
    }

    pub fn device(&self) -> (s: &str)
        ensures
            s@ == self@.dev,
    {
        self.dev.as_str()
    }

    /// What to do next.
    pub fn action(&self) -> (a: Action)
        ensures
            a == self@.action(),
    {
        match self.phase {
            Phase::AddLan => Action::Run(Command::AddLan),
            Phase::Verify => Action::Run(Command::Show),
            Phase::DropDefault => Action::Run(Command::DropDefault),
            Phase::Blackhole => Action::Run(Command::Blackhole),
            Phase::SelfCheck => Action::SelfCheck,
            Phase::Restore => Action::Run(Command::RestoreDefault),
            Phase::Cleanup => Action::Run(Command::DropBlackhole),
            Phase::Done => Action::Finish,
        }
    }

    /// Takes what came of the action.
    pub fn advance(&mut self, result: Result<String, String>)
        ensures
            final(self)@ == old(self)@.next(event_view(result)),
    {
        match (self.phase, result) {
            (Phase::AddLan, Ok(_)) => {
                self.phase = Phase::Verify;
            },
            (Phase::Verify, Ok(t)) => {
                if lan_route_present(t.as_str(), self.gw.as_str(), self.dev.as_str()) {
                    self.phase = Phase::DropDefault;
                } else {
                    self.phase = Phase::Done;
                    self.failure = Some(Error::LanRouteMissing);
                }
            },
            (Phase::AddLan, Err(m)) | (Phase::Verify, Err(m)) | (Phase::Blackhole, Err(m)) => {
                self.phase = Phase::Restore;
                self.failure = Some(Error::Command(m));
            },
            (Phase::DropDefault, _) => {
                self.phase = Phase::Blackhole;
            },
            (Phase::Blackhole, Ok(_)) => {
                self.phase = Phase::SelfCheck;
            },
            (Phase::SelfCheck, Ok(_)) => {
                self.phase = Phase::Done;
            },
            (Phase::SelfCheck, Err(m)) => {
                self.phase = Phase::Restore;
                self.failure = Some(Error::SelfCheckFailed(m));
            },
            (Phase::Restore, Ok(_)) => {
                self.phase = Phase::Cleanup;
            },
            (Phase::Restore, Err(m)) => {
                self.phase = Phase::Done;
                if !self.off {
                    self.failure = Some(Error::Command(m));
                }
            },
            (Phase::Cleanup, _) => {
                self.phase = Phase::Done;
            },
            (Phase::Done, _) => {},
        }
    }

    /// What a run that has ended leaves to be saved, if anything.
    pub fn to_save(&self) -> (r: Option<State>)
        ensures
            match r {
                Some(s) => self@.to_save() == Some(s@),
                None => self@.to_save() is None,
            },
    {
        match &self.failure {
            None => Some(
                State {
                    enabled: !self.off,
                    gateway: Some(self.gw.clone()),
                    dev: Some(self.dev.clone()),
                    last_error: None,
                },
            ),
            Some(e) => if self.off {
                let enabled: bool = match e {
                    Error::LanRouteMissing => self.was_enabled,
                    _ => true,
                };
                Some(
                    State {
                        enabled,
                        gateway: Some(self.gw.clone()),
                        dev: Some(self.dev.clone()),
                        last_error: Some(e.message()),
                    },
                )
            } else {
                None
            },
        }
    }

    /// Why a run that has ended failed, if it did.
    pub fn failure(&self) -> (r: Option<Error>)
        ensures
            error_view(r) == self@.failure,
    {
        match &self.failure {
            None => None,
            Some(e) => Some(e.clone()),
        }
    }
}

/// Starts cutting the cloud off: the gateway is the live one, else the one that was last known.
pub fn disable(live: &str, cached: &State) -> (r: Result<Switch, Error>)
    ensures
        match r {
            Ok(s) => gateway_of(live@, cached@) matches Some((gw, dev)) && s@ == off_run(
                gw,
                dev,
                cached.enabled,
            ),
            Err(e) => gateway_of(live@, cached@) is None && e@ == ErrorView::NoGateway,
        },
{
    match resolve_gateway(live, cached) {
        Ok((gw, dev)) => Ok(Switch::turn_off(gw, dev, cached.enabled)),
        Err(e) => Err(e),
    }
}

/// Starts putting the default route back.
pub fn enable(live: &str, cached: &State) -> (r: Result<Switch, Error>)
    ensures
        match r {
            Ok(s) => gateway_of(live@, cached@) matches Some((gw, dev)) && s@ == on_run(
                gw,
                dev,
                cached.enabled,
            ),
            Err(e) => gateway_of(live@, cached@) is None && e@ == ErrorView::NoGateway,
        },
{
    match resolve_gateway(live, cached) {
        Ok((gw, dev)) => Ok(Switch::turn_on(gw, dev, cached.enabled)),
        Err(e) => Err(e),
    }
}

/// What a look at the live routes calls for.
pub enum Reconcile {
    /// All is as it should be.
    Consistent,
    /// A default route came back while the cloud is cut off.
    Repeat(Switch),
    /// The default route is gone while the cloud is enabled.
    Heal(Switch),
    /// The same, but no gateway is known.
    Stuck,
}

/// Compares what was asked for with the live routes.
pub fn reconcile_once(state: &State, live: &str) -> (r: Reconcile)
    ensures
        match (state.enabled, default_route(live@)) {
            (false, Some((gw, dev))) => r matches Reconcile::Repeat(s) && s@ == off_run(
                gw,
                dev,
                false,
            ),
            (true, None) => match (state@.gateway, state@.dev) {
                (Some(gw), Some(dev)) => r matches Reconcile::Heal(s) && s@ == on_run(
                    gw,
                    dev,
                    true,
                ),
                _ => r is Stuck,
            },
            _ => r is Consistent,
        },
{
    match (state.enabled, parse_default_route(live)) {
        (false, Some((gw, dev))) => Reconcile::Repeat(Switch::turn_off(gw, dev, false)),
        (true, None) => match (&state.gateway, &state.dev) {
            (Some(gw), Some(dev)) => Reconcile::Heal(
                Switch::turn_on(gw.clone(), dev.clone(), true),
            ),
            _ => Reconcile::Stuck,
        },
        _ => Reconcile::Consistent,
    }
}

/// The text of a field, where it is not `null`.
pub open spec fn text_field(s: Seq<char>, key: Seq<char>) -> Option<Seq<char>> {
    match field_of(s, key) {
        Some(v) => if v != "null"@ {
            Some(v)
        } else {
            None
        },
        None => None,
    }
}

/// The state that was persisted as `s`.
pub open spec fn state_of(s: Seq<char>) -> StateView {
    StateView {
        enabled: match field_of(s, "enabled"@) {
            Some(v) => v == "true"@,
            None => true,
        },
        gateway: text_field(s, "gateway"@),
        dev: text_field(s, "dev"@),
        last_error: text_field(s, "last_error"@),
    }
}

fn read_text_field(s: &str, key: &str) -> (r: Option<String>)
    ensures
        opt_text(r) == text_field(s@, key@),
{
    match json_field(s, key) {
        Some(v) => if same(v, "null") {
            None
        } else {
            Some(v.to_owned())
        },
        None => None,
    }
}

pub fn parse_state(text: &str) -> (s: State)
    ensures
        s@ == state_of(text@),
{
    let enabled: bool = match json_field(text, "enabled") {
        Some(v) => same(v, "true"),
        None => true,
    };
    State {
        enabled,
        gateway: read_text_field(text, "gateway"),
        dev: read_text_field(text, "dev"),
        last_error: read_text_field(text, "last_error"),
    }
}

/// A text in quotes, or `null`.
pub open spec fn quoted_or_null(o: Option<Seq<char>>) -> Seq<char> {
    match o {
        Some(s) => "\""@ + s + "\""@,
        None => "null"@,
    }
}

/// The persisted form of the state.
pub open spec fn state_text(s: StateView) -> Seq<char> {
    "{\n  \"enabled\": "@ + bool_text(s.enabled) + ",\n  \"gateway\": "@ + quoted_or_null(s.gateway)
        + ",\n  \"dev\": "@ + quoted_or_null(s.dev) + ",\n  \"last_error\": "@ + escaped_or_null(
        s.last_error,
    ) + "\n}\n"@
}

pub fn opt_json(v: &Option<String>) -> (s: String)
    ensures
        s@ == quoted_or_null(opt_text(*v)),
{
    match v {
        Some(t) => {
            let mut s: String = "\"".to_owned();
            s.append(t.as_str());
            s.append("\"");
            s
        },
        None => "null".to_owned(),
    }
}

pub fn to_json(state: &State) -> (s: String)
    ensures
        s@ == state_text(state@),
{
    let mut s: String = "{\n  \"enabled\": ".to_owned();
    s.append(bool_str(state.enabled));
    s.append(",\n  \"gateway\": ");
    s.append(opt_json(&state.gateway).as_str());
    s.append(",\n  \"dev\": ");
    s.append(opt_json(&state.dev).as_str());
    s.append(",\n  \"last_error\": ");
    s.append(opt_json_escaped(&state.last_error).as_str());
    s.append("\n}\n");
    s
}

/// The routes that are reported: the lines that are not blank, among the first `n`.
pub open spec fn routes_upto(ls: Seq<Seq<char>>, n: int) -> Seq<char>
    decreases n,
{
    if n <= 0 {
        Seq::empty()
    } else {
        let before = routes_upto(ls, n - 1);
        let t = trimmed(ls[n - 1], Pat::Space);
        if t.len() == 0 {
            before
        } else {
            (if before.len() > 0 {
                before + ","@
            } else {
                before
            }) + "\""@ + escaped(t) + "\""@
        }
    }
}

/// The connections that are reported: those that leave the LAN, among the first `n`.
pub open spec fn peers_upto(cs: Seq<ConnectionView>, n: int) -> Seq<char>
    decreases n,
{
    if n <= 0 {
        Seq::empty()
    } else {
        let before = peers_upto(cs, n - 1);
        let c = cs[n - 1];
        if lan_address(c.remote_ip) {
            before
        } else {
            (if before.len() > 0 {
                before + ","@
            } else {
                before
            }) + "{\"remote\":\""@ + c.remote_ip + ":"@ + dec(c.remote_port as nat)
                + "\",\"state\":\""@ + c.state + "\"}"@
        }
    }
}

/// The body that reports the switch: what was asked for, the routes, and who is connected beyond
/// the LAN.
pub open spec fn status_text(s: StateView, routes: Seq<char>, cs: Seq<ConnectionView>) -> Seq<char> {
    "{\n  \"enabled\": "@ + bool_text(s.enabled) + ",\n  \"last_error\": "@ + escaped_or_null(
        s.last_error,
    ) + ",\n  \"routes\": ["@ + routes_upto(lines(routes), lines(routes).len() as int)
        + "],\n  \"connections\": ["@ + peers_upto(cs, cs.len() as int) + "]\n}\n"@
}

fn routes_json(routes: &str) -> (s: String)
    ensures
        s@ == routes_upto(lines(routes@), lines(routes@).len() as int),
{
    let ls: Vec<&str> = split_lines(routes);
    let ghost all = lines(routes@);
    let mut s: String = String::new();
    let mut i: usize = 0;
    assert(texts(ls@).len() == ls@.len());
    while i < ls.len()
        invariant
            i <= ls.len(),
            all == texts(ls@),
            s@ == routes_upto(all, i as int),
        decreases ls.len() - i,
    {
        assert(all[i as int] == ls@[i as int]@);
        let t: &str = trim(ls[i], Pat::Space);
        if char_len(t) > 0 {
            if char_len(s.as_str()) > 0 {
                s.append(",");
            }
            s.append("\"");
            s.append(escape_debug(t).as_str());
            s.append("\"");
        }
        i = i + 1;
    }
    s
}

fn peers_json(cs: &Vec<Connection>) -> (s: String)
    ensures
        s@ == peers_upto(connection_views(cs@), cs@.len() as int),
{
    let ghost all = connection_views(cs@);
    let mut s: String = String::new();
    let mut i: usize = 0;
    while i < cs.len()
        invariant
            i <= cs.len(),
            all == connection_views(cs@),
            s@ == peers_upto(all, i as int),
        decreases cs.len() - i,
    {
        assert(all[i as int] == cs@[i as int]@);
        let c: &Connection = &cs[i];
        if !is_lan(c.remote_ip.as_str()) {
            if char_len(s.as_str()) > 0 {
                s.append(",");
            }
            s.append("{\"remote\":\"");
            s.append(c.remote_ip.as_str());
            s.append(":");
            push_dec(&mut s, c.remote_port as u64);
            s.append("\",\"state\":\"");
            s.append(c.state);
            s.append("\"}");
        }
        i = i + 1;
    }
    s
}

/// The body that reports the switch. `routes` and `table` are what the kernel reports, empty where
/// it could not be read.
pub fn status_json(state: &State, routes: &str, table: &str) -> (s: String)
    ensures
        s@ == status_text(state@, routes@, connections(table@)),
{
    let cs: Vec<Connection> = parse_proc_net_tcp(table);
    let mut s: String = "{\n  \"enabled\": ".to_owned();
    s.append(bool_str(state.enabled));
    s.append(",\n  \"last_error\": ");
    s.append(opt_json_escaped(&state.last_error).as_str());
    s.append(",\n  \"routes\": [");
    s.append(routes_json(routes).as_str());
    s.append("],\n  \"connections\": [");
    s.append(peers_json(&cs).as_str());
    s.append("]\n}\n");
    assert(connection_views(cs@).len() == cs@.len());
    s
}

} // verus!
