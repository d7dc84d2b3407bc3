//! Writing a setting into the live shared config, and keeping it applied.
//!
//! A write is validated against the table of settings before anything is touched. The same plan
//! serves a request and the reconciler, which puts back what has drifted.

use vstd::prelude::*;
use vstd::string::*;

use crate::bus::Peer;
use crate::bytes::{le32, push_le32};
use crate::text::same;

verus! {

/// How a setting is stored.
#[derive(Clone, Copy, PartialEq, Eq, Debug, Structural)]
pub enum Width {
    U8,
    U32,
}

/// Which values a setting takes.
#[derive(Clone, Copy, PartialEq, Eq, Debug, Structural)]
pub enum Kind {
    Bool,
    Range { min: u32, max: u32 },
}

impl Kind {
    pub open spec fn takes(self, value: u32) -> bool {
        match self {
            Kind::Bool => value <= 1,
            Kind::Range { min, max } => min <= value <= max,
        }
    }

    pub fn accepts(&self, value: u32) -> (r: bool)
        ensures
            r == self.takes(value),
    {
        match self {
            Kind::Bool => value <= 1,
            Kind::Range { min, max } => *min <= value && value <= *max,
        }
    }
}

/// The message that tells a process of a new value: the first bytes of the value.
#[derive(Clone, Copy, PartialEq, Eq, Debug, Structural)]
pub struct Notify {
    pub peer: Peer,
    pub msg_id: u16,
    pub payload_len: u8,
}

/// One setting of the shared config.
pub struct Setting {
    pub key: &'static str,
    pub offset: u64,
    pub width: Width,
    pub kind: Kind,
    /// Whether writing it was verified.
    pub writable: bool,
    pub notify: Option<Notify>,
}

/// Why a write was refused.
#[derive(Debug)]
pub enum WriteError {
    UnknownKey,
    NotWritable,
    OutOfRange,
    Io(String),
}

impl WriteError {
    pub open spec fn text(&self) -> Seq<char> {
        match self {
            WriteError::UnknownKey => "unknown setting key"@,
            WriteError::NotWritable => "setting is read-only (write not yet verified)"@,
            WriteError::OutOfRange => "value out of range for this setting"@,
            WriteError::Io(m) => m@,
        }
    }

    pub fn message(&self) -> (s: String)
        ensures
            s@ == self.text(),
    {
        match self {
            WriteError::UnknownKey => "unknown setting key".to_owned(),
            WriteError::NotWritable => "setting is read-only (write not yet verified)".to_owned(),
            WriteError::OutOfRange => "value out of range for this setting".to_owned(),
            WriteError::Io(m) => m.clone(),
        }
    }
}

/// Whether no message of the table asks for more bytes than a value has.
pub open spec fn table_ok(table: Seq<Setting>) -> bool {
    forall|i: int|
        0 <= i < table.len() ==> ((#[trigger] table[i]).notify matches Some(n) ==> n.payload_len
            <= 4)
}

/// What a write does.
pub struct WriteOutcome {
    /// The setting, by its place in the table.
    pub setting: usize,
    /// Where the bytes go.
    pub offset: u64,
    pub bytes: Vec<u8>,
    /// Whom to tell, with which message and payload.
    pub notify: Option<(Peer, u16, Vec<u8>)>,
}

/// Where a key stands first in the table at or after `i`, or the length where it stands nowhere.
pub open spec fn place_from(table: Seq<Setting>, key: Seq<char>, i: int) -> int
    decreases table.len() - i,
{
    if i < 0 || i >= table.len() || table[i].key@ == key {
        i
    } else {
        place_from(table, key, i + 1)
    }
}

/// The first setting with this key.
pub fn find(table: &[Setting], key: &str) -> (r: Option<usize>)
    ensures
        match r {
            Some(i) => place_from(table@, key@, 0) == i && i < table@.len() && table@[i as int].key@
                == key@,
            None => place_from(table@, key@, 0) == table@.len(),
        },
{
    let mut i: usize = 0;
    while i < table.len()
        invariant
            i <= table@.len(),
            place_from(table@, key@, 0) == place_from(table@, key@, i as int),
        decreases table@.len() - i,
    {
        if same(table[i].key, key) {
            return Some(i);
        }
        i = i + 1;
    }
    None
}

/// The bytes that a value takes.
pub open spec fn stored(width: Width, value: u32) -> Seq<u8> {
    match width {
        Width::U8 => le32(value as nat).subrange(0, 1),
        Width::U32 => le32(value as nat),
    }
}

/// Whether a plan is what writing `value` to `s` asks for.
pub open spec fn plans(o: WriteOutcome, s: Setting, value: u32) -> bool {
    &&& o.offset == s.offset
    &&& o.bytes@ == stored(s.width, value)
    &&& match (s.notify, o.notify) {
        (None, None) => true,
        (Some(n), Some((peer, msg_id, payload))) => peer == n.peer && msg_id == n.msg_id
            && payload@ == le32(value as nat).subrange(0, n.payload_len as int),
        _ => false,
    }
}

fn value_bytes(value: u32, n: usize) -> (b: Vec<u8>)
    requires
        n <= 4,
    ensures
        b@ == le32(value as nat).subrange(0, n as int),
{
    let mut b: Vec<u8> = Vec::new();
    push_le32(&mut b, value);
    assert(b@ =~= le32(value as nat));
    b.truncate(n);
    b
}

fn plan(table: &[Setting], i: usize, value: u32) -> (o: WriteOutcome)
    requires
        i < table@.len(),
        table_ok(table@),
    ensures
        o.setting == i,
        plans(o, table@[i as int], value),
{
    let s: &Setting = &table[i];
    let bytes: Vec<u8> = match s.width {
        Width::U8 => value_bytes(value, 1),
        Width::U32 => {
            assert(le32(value as nat).subrange(0, 4) =~= le32(value as nat));
            value_bytes(value, 4)
        },
    };
    let notify: Option<(Peer, u16, Vec<u8>)> = match s.notify {
        None => None,
        Some(n) => {
            Some((n.peer, n.msg_id, value_bytes(value, n.payload_len as usize)))
        },
    };
    WriteOutcome { setting: i, offset: s.offset, bytes, notify }
}

/// Validates a write, and says what it does. Nothing is touched where it is refused.
pub fn write_setting(table: &[Setting], key: &str, value: u32) -> (r: Result<
    WriteOutcome,
    WriteError,
>)
    requires
        table_ok(table@),
    ensures
        ({
            let i = place_from(table@, key@, 0);
            match r {
                Ok(o) => i < table@.len() && table@[i].writable && table@[i].kind.takes(value)
                    && o.setting == i && plans(o, table@[i], value),
                Err(WriteError::UnknownKey) => i == table@.len(),
                Err(WriteError::NotWritable) => i < table@.len() && !table@[i].writable,
                Err(WriteError::OutOfRange) => i < table@.len() && table@[i].writable
                    && !table@[i].kind.takes(value),
                Err(WriteError::Io(_)) => false,
            }
        }),
{
    let i: usize = match find(table, key) {
        Some(i) => i,
        None => return Err(WriteError::UnknownKey),
    };
    if !table[i].writable {
        return Err(WriteError::NotWritable);
    }
    if !table[i].kind.accepts(value) {
        return Err(WriteError::OutOfRange);
    }
    Ok(plan(table, i, value))
}

/// What a recorded setting calls for.
pub enum Reconcile {
    /// No setting has the key.
    Unknown,
    /// The setting does not take the value any more.
    Stale,
    /// The live value is the recorded one.
    InSync,
    /// The value has drifted: write it again.
    Apply(WriteOutcome),
}

/// Compares a recorded setting with its live value.
pub fn reconcile_one(table: &[Setting], key: &str, desired: u32, live: u32) -> (r: Reconcile)
    requires
        table_ok(table@),
    ensures
        ({
            let i = place_from(table@, key@, 0);
            match r {
                Reconcile::Unknown => i == table@.len(),
                Reconcile::Stale => i < table@.len() && !(table@[i].writable && table@[i].kind.takes(
                    desired,
                )),
                Reconcile::InSync => i < table@.len() && table@[i].writable && table@[i].kind.takes(
                    desired,
                ) && live == desired,
                Reconcile::Apply(o) => i < table@.len() && table@[i].writable
                    && table@[i].kind.takes(desired) && live != desired && o.setting == i && plans(
                    o,
                    table@[i],
                    desired,
                ),
            }
        }),
{
    let i: usize = match find(table, key) {
        Some(i) => i,
        None => return Reconcile::Unknown,
    };
    if !table[i].writable || !table[i].kind.accepts(desired) {
        return Reconcile::Stale;
    }
    if live == desired {
        return Reconcile::InSync;
    }
    Reconcile::Apply(plan(table, i, desired))
}

/// A value that is stored is the value, the least significant byte first, or its lowest byte alone in
/// a field of one byte.
pub proof fn law_stored_value(value: u32)
    ensures
        stored(Width::U32, value).len() == 4,
        stored(Width::U32, value)[0] + 256 * stored(Width::U32, value)[1] + 65536 * stored(
            Width::U32,
            value,
        )[2] + 16777216 * stored(Width::U32, value)[3] == value,
        stored(Width::U8, value).len() == 1,
        value < 256 ==> stored(Width::U8, value)[0] == value,
{
    crate::bytes::lemma_le32(value as nat);
}

/// A setting is found under its own key, and no earlier one has it.
pub proof fn law_settings_are_found(table: Seq<Setting>, key: Seq<char>, i: int, j: int)
    requires
        0 <= i <= j < table.len(),
        table[j].key@ == key,
    ensures
        i <= place_from(table, key, i) <= j,
        table[place_from(table, key, i)].key@ == key,
        forall|k: int| i <= k < place_from(table, key, i) ==> (#[trigger] table[k]).key@ != key,
    decreases j - i,
{
    if table[i].key@ != key {
        law_settings_are_found(table, key, i + 1, j);
    }
}

/// A switch takes nought and one, a range what lies in it, and neither anything else.
pub proof fn law_values_taken(value: u32, min: u32, max: u32)
    ensures
        Kind::Bool.takes(value) <==> value == 0 || value == 1,
        (Kind::Range { min, max }).takes(value) <==> min <= value && value <= max,
{
}

/// Whoever is told of a new value gets the value itself, its low byte first, cut to the length that the
/// setting gives; where the setting names nobody, nobody is told.
pub proof fn law_notice_carries_the_value(o: WriteOutcome, s: Setting, value: u32)
    requires
        plans(o, s, value),
        s.notify matches Some(n) ==> n.payload_len <= 4,
    ensures
        o.notify is Some <==> s.notify is Some,
        s.notify matches Some(n) ==> {
            let (peer, msg_id, payload) = o.notify->0;
            &&& peer == n.peer
            &&& msg_id == n.msg_id
            &&& payload@.len() == n.payload_len
            &&& n.payload_len >= 1 ==> payload@[0] == value % 256
            &&& n.payload_len == 4 ==> payload@[0] + 256 * payload@[1] + 65536 * payload@[2] + 16777216
                * payload@[3] == value
        },
{
    crate::bytes::lemma_le32(value as nat);
}

} // verus!
