//! The feeder's internal message bus: queue names, message framing and the feed payload.
//!
//! Every vendor process owns one message queue. A message is its id and the sender's id, two bytes
//! each, and the payload; the receiver only selects the queue.

use vstd::prelude::*;
use vstd::string::*;
use vstd::utf8::encode_utf8;

use crate::bytes::{le16, push_all, push_le16};
use crate::number::{dec, push_dec};

pub mod msg;

verus! {

/// The longest payload: a queue holds messages of this many bytes and four.
pub const MAX_PAYLOAD: usize = 0x21c;

/// The owners of the queues.
#[derive(Clone, Copy, PartialEq, Eq, Debug, Structural)]
pub enum Peer {
    Ctrl,
    Media,
    Cloud,
    Watchdog,
    Agora,
    Ble,
    LogUpload,
}

impl Peer {
    /// The number of the peer's queue.
    pub open spec fn number(self) -> u16 {
        match self {
            Peer::Ctrl => 1,
            Peer::Media => 2,
            Peer::Cloud => 4,
            Peer::Watchdog => 5,
            Peer::Agora => 7,
            Peer::Ble => 8,
            Peer::LogUpload => 10,
        }
    }

    pub fn id(self) -> (n: u16)
        ensures
            n == self.number(),
    {
        match self {
            Peer::Ctrl => 1,
            Peer::Media => 2,
            Peer::Cloud => 4,
            Peer::Watchdog => 5,
            Peer::Agora => 7,
            Peer::Ble => 8,
            Peer::LogUpload => 10,
        }
    }

    /// The name of the peer's queue.
    pub fn queue_name(self) -> (s: String)
        ensures
            s@ == "/msg_dispatch_"@ + dec(self.number() as nat),
    {
        let mut s: String = "/msg_dispatch_".to_owned();
        push_dec(&mut s, self.id() as u64);
        s
    }
}

/// No two peers share a queue.
pub proof fn law_queues_are_distinct(a: Peer, b: Peer)
    requires
        a != b,
    ensures
        a.number() != b.number(),
{
}

/// Why a message was not built.
#[derive(Clone, Copy, PartialEq, Eq, Debug, Structural)]
pub enum BusError {
    /// The payload exceeds [`MAX_PAYLOAD`].
    TooLong,
}

impl BusError {
    pub fn message(&self) -> (s: &'static str)
        ensures
            s@ == "payload exceeds 540 bytes"@,
    {
        "payload exceeds 540 bytes"
    }
}

/// The bytes of a message.
pub open spec fn frame_of(msg_id: u16, src: u16, payload: Seq<u8>) -> Seq<u8> {
    le16(msg_id as nat) + le16(src as nat) + payload
}

/// Frames a message. A payload that a queue would cut off is refused.
pub fn frame(msg_id: u16, src: u16, payload: &[u8]) -> (r: Result<Vec<u8>, BusError>)
    ensures
        match r {
            Ok(b) => payload@.len() <= MAX_PAYLOAD && b@ == frame_of(msg_id, src, payload@),
            Err(e) => payload@.len() > MAX_PAYLOAD && e == BusError::TooLong,
        },
{
    if payload.len() > MAX_PAYLOAD {
        return Err(BusError::TooLong);
    }
    let mut buf: Vec<u8> = Vec::new();
    push_le16(&mut buf, msg_id);
    push_le16(&mut buf, src);
    push_all(&mut buf, payload);
    assert(buf@ =~= frame_of(msg_id, src, payload@));
    Ok(buf)
}

/// Payload of [`msg::BLE_FEED_CTRL`].
pub struct FeedCtrl {
    pub cancel: bool,
    /// Feed-record id.
    pub id: String,
    pub amount1: u8,
    pub amount2: u8,
}

/// The byte at `i` of a text field of `room` bytes that always ends with a zero byte.
pub open spec fn field_byte(text: Seq<u8>, room: int, i: int) -> u8 {
    if 0 <= i < text.len() && i < room - 1 {
        text[i]
    } else {
        0
    }
}

impl FeedCtrl {
    /// How many bytes the payload has.
    pub const LEN: usize = 67;

    /// The payload: the cancel flag, the id in a field of 64 bytes, the two amounts.
    pub open spec fn payload(&self) -> Seq<u8> {
        Seq::new(
            67,
            |i: int|
                if i == 0 {
                    if self.cancel {
                        1u8
                    } else {
                        0u8
                    }
                } else if i < 65 {
                    field_byte(encode_utf8(self.id@), 64, i - 1)
                } else if i == 65 {
                    self.amount1
                } else {
                    self.amount2
                },
        )
    }

    pub fn encode(&self) -> (b: [u8; 67])
        ensures
            b@ == self.payload(),
    {
        let mut b: [u8; 67] = [0u8;67];
        b[0] = if self.cancel {
            1
        } else {
            0
        };
        let id: &[u8] = self.id.as_str().as_bytes();
        let n: usize = if id.len() < 63 {
            id.len()
        } else {
            63
        };
        let mut i: usize = 0;
        while i < n
            invariant
                i <= n <= 63,
                n <= id@.len(),
                b@.len() == 67,
                b@[0] == (if self.cancel {
                    1u8
                } else {
                    0u8
                }),
                forall|j: int| 0 <= j < i ==> b@[1 + j] == id@[j],
                forall|j: int| 1 + i <= j < 67 ==> b@[j] == 0,
            decreases n - i,
        {
            b[1 + i] = id[i];
            i = i + 1;
        }
        b[65] = self.amount1;
        b[66] = self.amount2;
        assert(b@ =~= self.payload()) by {
            assert forall|k: int| 0 <= k < 67 implies b@[k] == self.payload()[k] by {
                if 1 <= k < 1 + n {
                    assert(b@[1 + (k - 1)] == id@[k - 1]);
                }
            }
        }
        b
    }
}

/// However long the id, its field ends with a zero byte and the amounts behind it are whole.
pub proof fn law_feed_id_stays_in_its_field(f: FeedCtrl)
    ensures
        f.payload().len() == 67,
        f.payload()[64] == 0,
        f.payload()[65] == f.amount1,
        f.payload()[66] == f.amount2,
        f.payload()[0] == 1 <==> f.cancel,
{
}

/// A framed message is its number and its sender, the low byte of each first, then the payload.
pub proof fn law_frame_layout(msg_id: u16, src: u16, payload: Seq<u8>)
    ensures
        ({
            let b = frame_of(msg_id, src, payload);
            &&& b.len() == 4 + payload.len()
            &&& b[0] + 256 * b[1] == msg_id
            &&& b[2] + 256 * b[3] == src
            &&& b.subrange(4, b.len() as int) == payload
        }),
{
    let b = frame_of(msg_id, src, payload);
    assert(b.subrange(4, b.len() as int) =~= payload);
}

/// An order to feed says in its first byte whether it cancels, then gives the id, and in its last two
/// bytes the portions of the first hopper and of the second.
pub proof fn law_feed_order_layout(f: FeedCtrl, k: int)
    requires
        0 <= k < 63,
    ensures
        ({
            let b = f.payload();
            let id = encode_utf8(f.id@);
            &&& b.len() == 67
            &&& b[0] == (if f.cancel {
                1u8
            } else {
                0u8
            })
            &&& b[65] == f.amount1
            &&& b[66] == f.amount2
            &&& b[64] == 0
            &&& k < id.len() ==> b[1 + k] == id[k]
            &&& k >= id.len() ==> b[1 + k] == 0
        }),
{
}

} // verus!
