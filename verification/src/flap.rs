//! FLAP is the framing layer every OSCAR byte travels in.
//!
//! Wire format (big-endian):
//!   byte 0:      0x2a  (marker that starts every frame)
//!   byte 1:      channel (see `FlapChannel`)
//!   bytes 2-3:   sequence number
//!   bytes 4-5:   payload length
//!   bytes 6...:  payload

use vstd::prelude::*;

use crate::bytes::{be16_at, be16_bytes, lemma_be16_roundtrip, push_all, push_be16, read_be16};

verus! {

pub const FLAP_MAGIC_BYTE: u8 = 0x2a;

pub const FLAP_HEADER_SIZE: usize = 6;

/// FLAP channels multiplex different kinds of traffic over one connection.
#[derive(Debug, Clone, Copy, PartialEq, Eq, Structural)]
pub enum FlapChannel {
    /// Connection negotiation: hello and disconnect notices (0x01).
    NewConnection,
    /// SNAC-wrapped data, where almost everything lives (0x02).
    Data,
    /// 0x03.
    Error,
    /// 0x04.
    CloseConnection,
    /// 0x05.
    KeepAlive,
}

/// The channel byte that stands for `c` on the wire.
pub open spec fn channel_byte(c: FlapChannel) -> u8 {
    match c {
        FlapChannel::NewConnection => 0x01,
        FlapChannel::Data => 0x02,
        FlapChannel::Error => 0x03,
        FlapChannel::CloseConnection => 0x04,
        FlapChannel::KeepAlive => 0x05,
    }
}

/// The channel a byte names, if any.
pub open spec fn channel_of_byte(b: u8) -> Option<FlapChannel> {
    if b == 0x01 {
        Some(FlapChannel::NewConnection)
    } else if b == 0x02 {
        Some(FlapChannel::Data)
    } else if b == 0x03 {
        Some(FlapChannel::Error)
    } else if b == 0x04 {
        Some(FlapChannel::CloseConnection)
    } else if b == 0x05 {
        Some(FlapChannel::KeepAlive)
    } else {
        None
    }
}

impl FlapChannel {
    /// The channel named by `value`, or `None` for an unknown channel byte.
    pub fn from_u8(value: u8) -> (r: Option<FlapChannel>)
        ensures
            r == channel_of_byte(value),
    {
        match value {
            0x01 => Some(FlapChannel::NewConnection),
            0x02 => Some(FlapChannel::Data),
            0x03 => Some(FlapChannel::Error),
            0x04 => Some(FlapChannel::CloseConnection),
            0x05 => Some(FlapChannel::KeepAlive),
            _ => None,
        }
    }

    /// The channel byte written on the wire.
    pub fn as_u8(self) -> (r: u8)
        ensures
            r == channel_byte(self),
    {
        match self {
            FlapChannel::NewConnection => 0x01,
            FlapChannel::Data => 0x02,
            FlapChannel::Error => 0x03,
            FlapChannel::CloseConnection => 0x04,
            FlapChannel::KeepAlive => 0x05,
        }
    }
}

/// Every channel survives a trip through its byte.
pub proof fn lemma_channel_byte_roundtrip(c: FlapChannel)
    ensures
        channel_of_byte(channel_byte(c)) == Some(c),
{
}

#[derive(Debug, Clone)]
pub struct FlapFrame {
    pub channel: FlapChannel,
    pub sequence: u16,
    pub payload: Vec<u8>,
}

/// The bytes of a frame on `channel` with `sequence` and `payload`; the
/// length field holds the payload length modulo 2^16, as the wire field is
/// 16 bits wide.
pub open spec fn flap_frame_bytes(channel: FlapChannel, sequence: u16, payload: Seq<u8>) -> Seq<u8> {
    seq![FLAP_MAGIC_BYTE, channel_byte(channel)] + be16_bytes(sequence) + be16_bytes(
        (payload.len() % 65536) as u16,
    ) + payload
}

/// What `parse_header` makes of a byte string.
pub open spec fn flap_header_of(h: Seq<u8>) -> Option<(FlapChannel, u16, u16)> {
    if h.len() != FLAP_HEADER_SIZE || h[0] != FLAP_MAGIC_BYTE {
        None
    } else {
        match channel_of_byte(h[1]) {
            Some(c) => Some((c, be16_at(h, 2), be16_at(h, 4))),
            None => None,
        }
    }
}

impl FlapFrame {
    /// Serializes this frame to the bytes written to the socket.
    pub fn encode(&self) -> (out: Vec<u8>)
        ensures
            out@ == flap_frame_bytes(self.channel, self.sequence, self.payload@),
    {
        let mut out: Vec<u8> = Vec::new();
        out.push(FLAP_MAGIC_BYTE);
        out.push(self.channel.as_u8());
        push_be16(&mut out, self.sequence);
        let len16: u16 = (self.payload.len() % 65536) as u16;
        push_be16(&mut out, len16);
        push_all(&mut out, self.payload.as_slice());
        assert(out@ =~= flap_frame_bytes(self.channel, self.sequence, self.payload@));
        out
    }

    /// Parses the 6-byte header to learn the channel, sequence number and
    /// payload length. `None` when the header is not exactly 6 bytes, does not
    /// start with the marker byte, or names an unknown channel.
    pub fn parse_header(header: &[u8]) -> (r: Option<(FlapChannel, u16, u16)>)
        ensures
            r == flap_header_of(header@),
    {
        if header.len() != FLAP_HEADER_SIZE || header[0] != FLAP_MAGIC_BYTE {
            return None;
        }
        let channel = match FlapChannel::from_u8(header[1]) {
            Some(c) => c,
            None => return None,
        };
        let sequence = read_be16(header, 2);
        let length = read_be16(header, 4);
        Some((channel, sequence, length))
    }
}

/// Encoding a frame and reading back its header gives the channel, the
/// sequence number and the payload length, and the payload follows the
/// header, whenever the payload fits the 16-bit length field.
pub proof fn lemma_flap_encode_parse_header(channel: FlapChannel, sequence: u16, payload: Seq<u8>)
    requires
        payload.len() <= 65535,
    ensures
        flap_header_of(flap_frame_bytes(channel, sequence, payload).subrange(0, 6)) == Some(
            (channel, sequence, payload.len() as u16),
        ),
        flap_frame_bytes(channel, sequence, payload).subrange(6, 6 + payload.len() as int) == payload,
{
    let b = flap_frame_bytes(channel, sequence, payload);
    let h = b.subrange(0, 6);
    lemma_be16_roundtrip(sequence);
    lemma_be16_roundtrip(payload.len() as u16);
    assert(h[2] == be16_bytes(sequence)[0]);
    assert(h[3] == be16_bytes(sequence)[1]);
    assert(h[4] == be16_bytes(payload.len() as u16)[0]);
    assert(h[5] == be16_bytes(payload.len() as u16)[1]);
    assert(b.subrange(6, 6 + payload.len() as int) =~= payload);
}

} // verus!
