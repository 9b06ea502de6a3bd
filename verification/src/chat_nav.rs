//! ChatNav (SNAC family 0x0D): the short-lived connection used to create a
//! chat room, and the room-info block (`ChatRoomInfoUpdate`) shared with the
//! chat connection itself:
//!
//!   exchange (u16), cookie length (u8), cookie, instance (u16),
//!   detail level (u8), TLV count (u16), that many TLVs (0xD3 = room name).

use std::collections::HashMap;

use vstd::prelude::*;
use vstd::utf8::encode_utf8;

use crate::bytes::{be16_at, be16_bytes, copy_range, push_all, push_be16, read_be16};
use crate::client::OscarError;
use crate::flap::FlapFrame;
use crate::snac::{
    family_code, snac_header_of, tlv_block_map, tlv_bytes, tlv_consumed, tlv_list, tlv_map, Snac,
    SnacFamily, SnacHeader, Tlv,
};
use crate::text::{bytes_to_text, string_from_utf8_lossy};

verus! {

broadcast use vstd::std_specs::hash::group_hash_axioms;

pub const CREATE_ROOM: u16 = 0x08;

pub const NAV_INFO: u16 = 0x09;

/// The private (create-on-demand) room exchange.
pub const PRIVATE_EXCHANGE: u16 = 4;

pub const ROOM_TLV_NAME: u16 = 0xD3;

pub const NAV_TLV_ROOM_INFO: u16 = 0x04;

/// Identifies one chat room: what `create_room` returns and what an invite
/// carries, enough to join without talking to ChatNav.
#[derive(Debug, Clone, PartialEq)]
pub struct ChatRoomHandle {
    pub exchange: u16,
    pub room_cookie: String,
    pub instance: u16,
    pub room_name: String,
}

/// A decoded room-info block: exchange, cookie, instance, room name.
pub type RoomInfo = (u16, Seq<char>, u16, Seq<char>);

/// The room-info block `parse_chat_room_info_update` reads from `b`, if
/// the fixed part is whole; a missing name TLV reads as an empty name.
pub open spec fn room_info_of(b: Seq<u8>) -> Option<RoomInfo> {
    if b.len() < 5 {
        None
    } else {
        let cl = b[2] as int;
        if b.len() < 3 + cl + 3 || b.len() < 6 + cl + 2 {
            None
        } else {
            let tlvs = tlv_map(tlv_list(b.skip(8 + cl), be16_at(b, 6 + cl) as nat));
            Some(
                (
                    be16_at(b, 0),
                    bytes_to_text(b.subrange(3, 3 + cl)),
                    be16_at(b, 3 + cl),
                    if tlvs.contains_key(ROOM_TLV_NAME) {
                        bytes_to_text(tlvs[ROOM_TLV_NAME])
                    } else {
                        seq![]
                    },
                ),
            )
        }
    }
}

/// `h` is the decoded room info `i`.
pub open spec fn handle_is(h: ChatRoomHandle, i: RoomInfo) -> bool {
    &&& h.exchange == i.0
    &&& h.room_cookie@ == i.1
    &&& h.instance == i.2
    &&& h.room_name@ == i.3
}

/// Parses a room-info block.
pub fn parse_chat_room_info_update(body: &[u8]) -> (r: Option<ChatRoomHandle>)
    ensures
        r is Some <==> room_info_of(body@) is Some,
        r matches Some(h) ==> handle_is(h, room_info_of(body@).unwrap()),
{
    if body.len() < 5 {
        return None;
    }
    let exchange = read_be16(body, 0);
    let cookie_len = body[2] as usize;
    if body.len() < 3 + cookie_len + 3 {
        return None;
    }
    let cookie_bytes = copy_range(body, 3, 3 + cookie_len);
    let room_cookie = string_from_utf8_lossy(cookie_bytes.as_slice());
    let mut index: usize = 3 + cookie_len;
    let instance = read_be16(body, index);
    index = index + 2;
    index = index + 1;
    if body.len() < index + 2 {
        return None;
    }
    let tlv_count = read_be16(body, index) as usize;
    index = index + 2;
    let rest = &body[index..body.len()];
    assert(rest@ =~= body@.skip(index as int));
    let (tlvs, _) = Tlv::parse_n(rest, tlv_count);
    let room_name = match tlvs.get(&ROOM_TLV_NAME) {
        Some(v) => string_from_utf8_lossy(v.as_slice()),
        None => String::new(),
    };
    Some(ChatRoomHandle { exchange, room_cookie, instance, room_name })
}

/// The body of a create-room request for `room_name`: the private
/// exchange, cookie "create", instance 0, detail level 2, then one TLV
/// (0xD3) carrying the name.
pub open spec fn create_room_body(room_name: Seq<char>) -> Seq<u8> {
    be16_bytes(PRIVATE_EXCHANGE) + seq![6u8] + seq![0x63u8, 0x72, 0x65, 0x61, 0x74, 0x65] + be16_bytes(0)
        + seq![0x02u8] + be16_bytes(1) + tlv_bytes(ROOM_TLV_NAME, encode_utf8(room_name))
}

/// The ChatNav create-room SNAC for `room_name`.
pub fn create_room_request(room_name: &str, request_id: u32) -> (s: Snac)
    ensures
        s.header == (SnacHeader {
            family: family_code(SnacFamily::ChatNav),
            subtype: CREATE_ROOM,
            flags: 0,
            request_id,
        }),
        s.body@ == create_room_body(room_name@),
{
    let mut body: Vec<u8> = Vec::new();
    push_be16(&mut body, PRIVATE_EXCHANGE);
    body.push(6);
    let create: [u8; 6] = [0x63, 0x72, 0x65, 0x61, 0x74, 0x65];
    push_all(&mut body, &create);
    push_be16(&mut body, 0);
    body.push(0x02);
    push_be16(&mut body, 1);
    let name_tlv = Tlv::new(ROOM_TLV_NAME, copy_range(room_name.as_bytes(), 0, room_name.as_bytes().len()));
    let enc = name_tlv.encode();
    push_all(&mut body, enc.as_slice());
    assert(body@ =~= create_room_body(room_name@));
    let header = SnacHeader { family: SnacFamily::ChatNav.as_u16(), subtype: CREATE_ROOM, flags: 0, request_id };
    Snac { header, body }
}

/// What one frame means while waiting for the create-room reply.
pub enum NavReply {
    /// Not the reply; keep reading.
    Ignore,
    /// The reply: the room that was created, or why it cannot be read.
    Done(Result<ChatRoomHandle, OscarError>),
}

/// Reads one frame while waiting for the ChatNav reply (family 0x0D,
/// subtype 0x09): any other frame is ignored; the reply's TLV 0x04 holds
/// the created room's info block.
pub fn handle_nav_frame(frame: &FlapFrame) -> (r: NavReply)
    ensures
        ({
            let p = frame.payload@;
            match snac_header_of(p) {
                Some(h) if frame.channel == crate::flap::FlapChannel::Data && h.family == family_code(
                    SnacFamily::ChatNav,
                ) && h.subtype == NAV_INFO => {
                    let m = tlv_block_map(p.skip(10));
                    if !m.contains_key(NAV_TLV_ROOM_INFO) {
                        r matches NavReply::Done(Err(OscarError::UnexpectedResponse(_)))
                    } else {
                        match room_info_of(m[NAV_TLV_ROOM_INFO]) {
                            Some(i) => r matches NavReply::Done(Ok(h)) && handle_is(h, i),
                            None => r matches NavReply::Done(Err(OscarError::UnexpectedResponse(_))),
                        }
                    }
                },
                _ => r is Ignore,
            }
        }),
{
    if frame.channel != crate::flap::FlapChannel::Data {
        return NavReply::Ignore;
    }
    let snac = match Snac::parse(frame.payload.as_slice()) {
        Some(s) => s,
        None => return NavReply::Ignore,
    };
    if snac.header.family != SnacFamily::ChatNav.as_u16() || snac.header.subtype != NAV_INFO {
        return NavReply::Ignore;
    }
    let tlvs = Tlv::parse_all(snac.body.as_slice());
    assert(snac.body@ =~= frame.payload@.skip(10));
    match tlvs.get(&NAV_TLV_ROOM_INFO) {
        Some(info) => match parse_chat_room_info_update(info.as_slice()) {
            Some(h) => NavReply::Done(Ok(h)),
            None => NavReply::Done(
                Err(OscarError::UnexpectedResponse("malformed ChatRoomInfoUpdate in ChatNavNavInfo")),
            ),
        },
        None => NavReply::Done(Err(OscarError::UnexpectedResponse("ChatNavNavInfo missing room info (TLV 0x04)"))),
    }
}

} // verus!
