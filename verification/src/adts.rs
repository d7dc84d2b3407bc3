//! ADTS header parsing for the microphone's AAC records.

use vstd::prelude::*;

verus! {

/// MPEG-4 `AudioSpecificConfig` of the stream: AAC-LC, 16000 Hz, mono.
pub const AUDIO_SPECIFIC_CONFIG: [u8; 2] = [0x14, 0x08];

/// MPEG-4 audio object type of AAC-LC; the header's `profile` field holds one less.
pub const AOT_AAC_LC: u8 = 2;

/// A parsed, structurally validated ADTS header.
#[derive(Debug, PartialEq, Eq)]
pub struct AdtsHeader {
    /// MPEG-4 audio object type.
    pub audio_object_type: u8,
    pub sample_rate: u32,
    pub channels: u8,
    /// Whether no checksum follows the header.
    pub protection_absent: bool,
    /// 7 bytes without a checksum, 9 with one.
    pub header_len: usize,
    /// The length of the whole frame, header included.
    pub frame_length: u16,
}

pub const SAMPLE_RATES: [u32; 13] = [
    96000, 88200, 64000, 48000, 44100, 32000, 24000, 22050, 16000, 12000, 11025, 8000, 7350,
];

/// Whether `b` starts with the 12-bit syncword.
pub open spec fn has_sync(b: Seq<u8>) -> bool {
    b[0] == 0xFF && b[1] >= 0xF0
}

pub open spec fn header_len_of(b: Seq<u8>) -> nat {
    if b[1] % 2 == 1 {
        7
    } else {
        9
    }
}

pub open spec fn rate_index(b: Seq<u8>) -> int {
    b[2] as int / 4 % 16
}

/// The 13-bit frame length: two bits of byte 3, byte 4, three bits of byte 5.
pub open spec fn frame_length_of(b: Seq<u8>) -> nat {
    (b[3] as nat % 4) * 2048 + (b[4] as nat) * 8 + b[5] as nat / 32
}

/// Whether `b` starts with a header.
pub open spec fn is_header(b: Seq<u8>) -> bool {
    b.len() >= 7 && has_sync(b) && b.len() >= header_len_of(b) && rate_index(b) < 13
        && frame_length_of(b) >= header_len_of(b)
}

/// The header that `b` starts with.
pub open spec fn header_of(b: Seq<u8>) -> AdtsHeader {
    AdtsHeader {
        audio_object_type: (b[2] / 64 + 1) as u8,
        sample_rate: SAMPLE_RATES@[rate_index(b)],
        channels: ((b[2] as int % 2) * 4 + b[3] as int / 64) as u8,
        protection_absent: b[1] % 2 == 1,
        header_len: header_len_of(b) as usize,
        frame_length: frame_length_of(b) as u16,
    }
}

/// Parse and structurally validate an ADTS header at the start of `buf`. `None` on a bad syncword,
/// a reserved sampling-frequency index, a frame length that does not fit the header it claims, or
/// a buffer shorter than the header itself.
pub fn parse(buf: &[u8]) -> (r: Option<AdtsHeader>)
    ensures
        r == if is_header(buf@) {
            Some(header_of(buf@))
        } else {
            None
        },
{
    if buf.len() < 7 {
        return None;
    }
    if buf[0] != 0xFF || buf[1] < 0xF0 {
        return None;
    }
    let protection_absent: bool = buf[1] % 2 == 1;
    let header_len: usize = if protection_absent {
        7
    } else {
        9
    };
    if buf.len() < header_len {
        return None;
    }
    let index: usize = (buf[2] / 4 % 16) as usize;
    if index >= 13 {
        return None;
    }
    let sample_rate: u32 = SAMPLE_RATES[index];
    let channels: u8 = (buf[2] % 2) * 4 + buf[3] / 64;
    let frame_length: u16 = (buf[3] as u16 % 4) * 2048 + (buf[4] as u16) * 8 + (buf[5] as u16) / 32;
    if (frame_length as usize) < header_len {
        return None;
    }
    Some(
        AdtsHeader {
            audio_object_type: buf[2] / 64 + 1,
            sample_rate,
            channels,
            protection_absent,
            header_len,
            frame_length,
        },
    )
}

/// Whether a parsed header matches the microphone's stream: AAC-LC, 16 kHz, mono.
pub fn is_kibble_mic_stream(h: &AdtsHeader) -> (r: bool)
    ensures
        r == (h.audio_object_type == AOT_AAC_LC && h.sample_rate == 16000 && h.channels == 1),
{
    h.audio_object_type == AOT_AAC_LC && h.sample_rate == 16000 && h.channels == 1
}

/// Only the header decides: bytes behind it change nothing.
pub proof fn law_header_decides(b: Seq<u8>, more: Seq<u8>)
    requires
        is_header(b),
    ensures
        is_header(b + more),
        header_of(b + more) == header_of(b),
{
}

/// A header that parses has a length of its own inside the frame that it announces.
pub proof fn law_frame_holds_its_header(b: Seq<u8>)
    requires
        is_header(b),
    ensures
        7 <= header_of(b).header_len <= 9,
        header_of(b).header_len <= header_of(b).frame_length <= 8191,
        1 <= header_of(b).audio_object_type <= 4,
        header_of(b).channels <= 7,
{
}

/// A header of AAC frames, as encoders write it: the kind of audio less one in two bits, the index of
/// the rate in four, the channels in three, the length of the frame in thirteen.
pub open spec fn written_header(
    object_type: int,
    rate: int,
    channels: int,
    protection_absent: bool,
    frame_length: int,
) -> Seq<u8> {
    seq![
        0xFFu8,
        if protection_absent {
            0xF1u8
        } else {
            0xF0u8
        },
        ((object_type - 1) * 64 + rate * 4 + channels / 4) as u8,
        (channels % 4 * 64 + frame_length / 2048) as u8,
        (frame_length / 8 % 256) as u8,
        (frame_length % 8 * 32) as u8,
        0u8,
        0u8,
        0u8,
    ]
}

/// A header that was written is read back, field by field.
pub proof fn law_header_reads_back(
    object_type: int,
    rate: int,
    channels: int,
    protection_absent: bool,
    frame_length: int,
)
    requires
        1 <= object_type <= 4,
        0 <= rate < 13,
        0 <= channels < 8,
        9 <= frame_length < 8192,
    ensures
        ({
            let b = written_header(object_type, rate, channels, protection_absent, frame_length);
            let h = header_of(b);
            &&& is_header(b)
            &&& h.audio_object_type == object_type
            &&& h.sample_rate == SAMPLE_RATES@[rate]
            &&& h.channels == channels
            &&& h.protection_absent == protection_absent
            &&& h.header_len == (if protection_absent {
                7int
            } else {
                9
            })
            &&& h.frame_length == frame_length
        }),
{
    let b = written_header(object_type, rate, channels, protection_absent, frame_length);
    assert(0 <= (object_type - 1) * 64 + rate * 4 + channels / 4 < 256);
    assert(0 <= channels % 4 * 64 + frame_length / 2048 < 256);
    assert(0 <= frame_length % 8 * 32 < 256);
}

/// What does not start with the sync word is no header, nor is a frame that is shorter than its
/// header.
pub proof fn law_no_header(b: Seq<u8>)
    requires
        b.len() >= 7,
    ensures
        b[0] != 0xFF || b[1] / 16 != 15 ==> !is_header(b),
        is_header(b) ==> frame_length_of(b) >= 7,
{
}

} // verus!
