//! Talkback packets: RTP-framed G.711 to samples for the speaker.

use vstd::prelude::*;
use vstd::slice::slice_subrange;

use crate::g711::{
    alaw_decode, alaw_sample, doubled, law_sample_ranges, law_upsampling_keeps_samples, ulaw_decode,
    ulaw_sample, upsample_2x_linear,
};

verus! {

/// RTP payload type of mu-law.
pub const PT_PCMU: u8 = 0;

/// RTP payload type of A-law.
pub const PT_PCMA: u8 = 8;

/// The length of an RTP header: twelve bytes, and four for each contributing source.
pub open spec fn rtp_header_len(packet: Seq<u8>) -> int {
    12 + 4 * (packet[0] as int % 16)
}

/// What stands behind the RTP header.
pub open spec fn payload_of(packet: Seq<u8>) -> Option<Seq<u8>> {
    if packet.len() >= 12 && packet.len() >= rtp_header_len(packet) {
        Some(packet.subrange(rtp_header_len(packet), packet.len() as int))
    } else {
        None
    }
}

/// The payload behind the RTP header. `None` if the packet is too short for a bare header, or for
/// the number of contributing sources that it claims.
pub fn rtp_payload(packet: &[u8]) -> (r: Option<&[u8]>)
    ensures
        match r {
            Some(p) => payload_of(packet@) == Some(p@),
            None => payload_of(packet@) is None,
        },
{
    if packet.len() < 12 {
        return None;
    }
    let header_len: usize = 12 + 4 * (packet[0] % 16) as usize;
    if packet.len() < header_len {
        return None;
    }
    Some(slice_subrange(packet, header_len, packet.len()))
}

/// The 8 kHz samples of a payload.
pub open spec fn samples_of(payload: Seq<u8>, payload_type: u8) -> Seq<i16> {
    payload.map_values(
        |b: u8|
            (if payload_type == PT_PCMU {
                ulaw_sample(b)
            } else {
                alaw_sample(b)
            }) as i16,
    )
}

/// What a packet gives the speaker: nothing where it is too short, empty or of another payload
/// type, else its samples at twice the rate.
pub open spec fn packet_audio(packet: Seq<u8>, payload_type: u8) -> Option<Seq<i16>> {
    match payload_of(packet) {
        Some(p) => if p.len() > 0 && (payload_type == PT_PCMU || payload_type == PT_PCMA) {
            Some(doubled(samples_of(p, payload_type)))
        } else {
            None
        },
        None => None,
    }
}

/// Turns one packet into 16 kHz samples. A malformed or stray packet gives none.
pub fn on_rtp_packet(packet: &[u8], payload_type: u8) -> (r: Option<Vec<i16>>)
    ensures
        match r {
            Some(v) => packet_audio(packet@, payload_type) == Some(v@),
            None => packet_audio(packet@, payload_type) is None,
        },
{
    let payload: &[u8] = match rtp_payload(packet) {
        Some(p) => p,
        None => return None,
    };
    if payload_type != PT_PCMU && payload_type != PT_PCMA {
        return None;
    }
    if payload.len() == 0 {
        return None;
    }
    let mut samples: Vec<i16> = Vec::new();
    let mut i: usize = 0;
    while i < payload.len()
        invariant
            i <= payload@.len(),
            payload_type == PT_PCMU || payload_type == PT_PCMA,
            samples@ == samples_of(payload@, payload_type).subrange(0, i as int),
        decreases payload@.len() - i,
    {
        let s: i16 = if payload_type == PT_PCMU {
            ulaw_decode(payload[i])
        } else {
            alaw_decode(payload[i])
        };
        samples.push(s);
        i = i + 1;
        assert(samples@ =~= samples_of(payload@, payload_type).subrange(0, i as int));
    }
    assert(samples@ =~= samples_of(payload@, payload_type));
    Some(upsample_2x_linear(samples.as_slice()))
}

/// The payload of a packet is what stands behind its header of twelve bytes and the four bytes of
/// each source that it lists.
pub proof fn law_payload_is_behind_the_header(header: Seq<u8>, payload: Seq<u8>)
    requires
        header.len() >= 12,
        header.len() == 12 + 4 * (header[0] % 16),
    ensures
        payload_of(header + payload) == Some(payload),
{
    let p = header + payload;
    assert(p[0] == header[0]);
    assert(p.subrange(header.len() as int, p.len() as int) =~= payload);
}

/// A packet that is cut off before its header ends has no payload.
pub proof fn law_cut_packets_have_no_payload(packet: Seq<u8>)
    requires
        packet.len() < 12 || packet.len() < 12 + 4 * (packet[0] % 16),
    ensures
        payload_of(packet) is None,
{
}

/// Each byte of a payload becomes its sample, mu-law for one payload type and A-law for the other,
/// at twice the rate: every other sample is that of a byte.
pub proof fn law_packets_are_decoded(packet: Seq<u8>, payload: Seq<u8>, i: int)
    requires
        payload_of(packet) == Some(payload),
        0 <= i < payload.len(),
    ensures
        packet_audio(packet, 0) matches Some(v) && v.len() == 2 * payload.len() && v[2 * i]
            == ulaw_sample(payload[i]),
        packet_audio(packet, 8) matches Some(v) && v.len() == 2 * payload.len() && v[2 * i]
            == alaw_sample(payload[i]),
{
    law_upsampling_keeps_samples(samples_of(payload, 0), i);
    law_upsampling_keeps_samples(samples_of(payload, 8), i);
    law_sample_ranges(payload[i]);
}

/// No other payload type is played, and an empty payload is not either.
pub proof fn law_other_packets_are_dropped(packet: Seq<u8>, payload_type: u8)
    ensures
        payload_type != 0 && payload_type != 8 ==> packet_audio(packet, payload_type) is None,
        payload_of(packet) == Some(Seq::<u8>::empty()) ==> packet_audio(packet, payload_type) is None,
{
}

} // verus!
