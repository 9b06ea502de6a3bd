//! The login exchange, as the decisions between reads and writes: the auth
//! server is asked for a challenge, answered with the hashed password, and
//! replies with the BOS address and cookie; the BOS connection is then
//! greeted with the cookie, waits for "host online", and is told which
//! families the client speaks. The caller does the reading and writing.

use vstd::prelude::*;
use vstd::utf8::encode_utf8;

use crate::bytes::{be16_at, be16_bytes, be32_bytes, copy_range, push_all, push_be16, push_be32, read_be16};
use crate::chat::{parse_user_info_list, ChatOccupant};
use crate::chat_nav::{parse_chat_room_info_update, ChatRoomHandle};
use crate::client::{parse_redirect_address_and_cookie, redirect_of, roast_password, roasted_password, OscarError};
use crate::flap::{FlapChannel, FlapFrame};
use crate::server_address::ServerAddress;
use crate::snac::{
    family_code, family_of_code, snac_header_of, tlv_block_map, tlv_bytes, Snac, SnacFamily, SnacHeader, Tlv,
};
use crate::text::{decimal_digits, decimal_string, str_chars, string_from_chars};

verus! {

broadcast use vstd::std_specs::hash::group_hash_axioms;

pub const BUCP_LOGIN_REQUEST: u16 = 0x02;

pub const BUCP_LOGIN_REPLY: u16 = 0x03;

pub const BUCP_CHALLENGE_REQUEST: u16 = 0x06;

pub const BUCP_CHALLENGE_REPLY: u16 = 0x07;

pub const GENERIC_CLIENT_ONLINE: u16 = 0x02;

pub const GENERIC_HOST_ONLINE: u16 = 0x03;

/// The outcome of reading one frame while waiting for a particular reply.
pub enum Awaited<T> {
    /// Not the awaited reply; keep reading.
    Ignore,
    /// The awaited reply, and what it says.
    Done(Result<T, OscarError>),
}

/// The FLAP hello: protocol version 1.
pub open spec fn hello_bytes() -> Seq<u8> {
    be32_bytes(1)
}

pub fn hello_payload() -> (r: Vec<u8>)
    ensures
        r@ == hello_bytes(),
{
    let mut out: Vec<u8> = Vec::new();
    push_be32(&mut out, 1);
    out
}

/// The hello on a redirected connection: version 1, then the handoff
/// cookie as TLV 0x06.
pub open spec fn redirect_hello_bytes(cookie: Seq<u8>) -> Seq<u8> {
    be32_bytes(1) + tlv_bytes(0x06, cookie)
}

pub fn redirect_hello_payload(cookie: Vec<u8>) -> (r: Vec<u8>)
    ensures
        r@ == redirect_hello_bytes(cookie@),
{
    let mut out = hello_payload();
    let t = Tlv::new(0x06, cookie).encode();
    push_all(&mut out, t.as_slice());
    out
}

/// The challenge request: the screen name as TLV 0x01.
pub fn challenge_request(screen_name: &str, request_id: u32) -> (s: Snac)
    ensures
        s.header == (SnacHeader {
            family: family_code(SnacFamily::Authorization),
            subtype: BUCP_CHALLENGE_REQUEST,
            flags: 0,
            request_id,
        }),
        s.body@ == tlv_bytes(0x01, encode_utf8(screen_name@)),
{
    let name = screen_name.as_bytes();
    let body = Tlv::new(0x01, copy_range(name, 0, name.len())).encode();
    Snac {
        header: SnacHeader { family: SnacFamily::Authorization.as_u16(), subtype: BUCP_CHALLENGE_REQUEST, flags: 0, request_id },
        body,
    }
}

/// The data SNAC a frame carries, when it is one, with its body.
pub open spec fn data_snac_of(frame_channel: FlapChannel, payload: Seq<u8>) -> Option<(SnacHeader, Seq<u8>)> {
    if frame_channel != FlapChannel::Data {
        None
    } else {
        match snac_header_of(payload) {
            Some(h) => Some((h, payload.skip(10))),
            None => None,
        }
    }
}

/// Whether a frame is the SNAC (`family`, `subtype`).
pub open spec fn is_snac(frame_channel: FlapChannel, payload: Seq<u8>, family: SnacFamily, subtype: u16) -> bool {
    data_snac_of(frame_channel, payload) matches Some((h, _)) && h.family == family_code(family) && h.subtype
        == subtype
}

fn data_snac(frame: &FlapFrame) -> (r: Option<Snac>)
    ensures
        match data_snac_of(frame.channel, frame.payload@) {
            Some((h, b)) => r matches Some(s) && s.header == h && s.body@ == b,
            None => r is None,
        },
{
    if frame.channel != FlapChannel::Data {
        return None;
    }
    let s = Snac::parse(frame.payload.as_slice());
    if let Some(ref snac) = s {
        assert(snac.body@ =~= frame.payload@.skip(10));
    }
    s
}

/// Reads one frame while waiting for the challenge reply (family 0x17,
/// subtype 0x07), whose body is a u16 length then the auth key.
pub fn handle_challenge_frame(frame: &FlapFrame) -> (r: Awaited<Vec<u8>>)
    ensures
        if is_snac(frame.channel, frame.payload@, SnacFamily::Authorization, BUCP_CHALLENGE_REPLY) {
            let b = frame.payload@.skip(10);
            if b.len() < 2 || b.len() < 2 + be16_at(b, 0) {
                r matches Awaited::Done(Err(OscarError::UnexpectedResponse(_)))
            } else {
                r matches Awaited::Done(Ok(key)) && key@ == b.subrange(2, 2 + be16_at(b, 0) as int)
            }
        } else {
            r is Ignore
        },
{
    let snac = match data_snac(frame) {
        Some(s) => s,
        None => return Awaited::Ignore,
    };
    if snac.header.family != SnacFamily::Authorization.as_u16() || snac.header.subtype != BUCP_CHALLENGE_REPLY {
        return Awaited::Ignore;
    }
    let body = snac.body.as_slice();
    if body.len() < 2 {
        return Awaited::Done(Err(OscarError::UnexpectedResponse("challenge reply shorter than its length prefix")));
    }
    let key_len = read_be16(body, 0) as usize;
    if body.len() < 2 + key_len {
        return Awaited::Done(Err(OscarError::UnexpectedResponse("challenge reply truncated before end of auth key")));
    }
    Awaited::Done(Ok(copy_range(body, 2, 2 + key_len)))
}

/// The client identifier sent at login: "oscar-rs/0.1".
pub open spec fn client_id_bytes() -> Seq<u8> {
    seq![0x6F, 0x73, 0x63, 0x61, 0x72, 0x2D, 0x72, 0x73, 0x2F, 0x30, 0x2E, 0x31]
}

/// The login request body: screen name (TLV 0x01), password hash (TLV
/// 0x25), client identifier (TLV 0x03).
pub open spec fn login_body(screen_name: Seq<char>, password: Seq<char>, auth_key: Seq<u8>) -> Seq<u8> {
    tlv_bytes(0x01, encode_utf8(screen_name)) + tlv_bytes(0x25, roasted_password(auth_key, password)) + tlv_bytes(
        0x03,
        client_id_bytes(),
    )
}

pub fn login_request(screen_name: &str, password: &str, auth_key: &[u8], request_id: u32) -> (s: Snac)
    ensures
        s.header == (SnacHeader {
            family: family_code(SnacFamily::Authorization),
            subtype: BUCP_LOGIN_REQUEST,
            flags: 0,
            request_id,
        }),
        s.body@ == login_body(screen_name@, password@, auth_key@),
{
    let hash = roast_password(auth_key, password);
    let name = screen_name.as_bytes();
    let mut body: Vec<u8> = Vec::new();
    let t1 = Tlv::new(0x01, copy_range(name, 0, name.len())).encode();
    push_all(&mut body, t1.as_slice());
    let t2 = Tlv::new(0x25, copy_range(&hash, 0, 16)).encode();
    push_all(&mut body, t2.as_slice());
    let id: [u8; 12] = [0x6F, 0x73, 0x63, 0x61, 0x72, 0x2D, 0x72, 0x73, 0x2F, 0x30, 0x2E, 0x31];
    let t3 = Tlv::new(0x03, copy_range(&id, 0, 12)).encode();
    push_all(&mut body, t3.as_slice());
    assert(hash@.subrange(0, 16) =~= hash@);
    assert(id@.subrange(0, 12) =~= client_id_bytes());
    assert(body@ =~= login_body(screen_name@, password@, auth_key@));
    Snac {
        header: SnacHeader { family: SnacFamily::Authorization.as_u16(), subtype: BUCP_LOGIN_REQUEST, flags: 0, request_id },
        body,
    }
}

/// "BUCP error code " followed by the code.
pub open spec fn login_failed_text(code: u16) -> Seq<char> {
    seq!['B', 'U', 'C', 'P', ' ', 'e', 'r', 'r', 'o', 'r', ' ', 'c', 'o', 'd', 'e', ' '] + decimal_digits(code as nat)
}

/// The error code of a login rejection's TLV 0x08: its first two bytes, or
/// 0 when shorter.
pub open spec fn login_error_code(v: Seq<u8>) -> u16 {
    if v.len() >= 2 {
        be16_at(v, 0)
    } else {
        0
    }
}

/// Reads one frame while waiting for the login reply (family 0x17,
/// subtype 0x03): TLV 0x08 means rejection, with its code; otherwise the
/// reply must carry the BOS address and cookie.
pub fn handle_login_reply_frame(frame: &FlapFrame) -> (r: Awaited<(ServerAddress, Vec<u8>)>)
    ensures
        if is_snac(frame.channel, frame.payload@, SnacFamily::Authorization, BUCP_LOGIN_REPLY) {
            let m = tlv_block_map(frame.payload@.skip(10));
            if m.contains_key(0x08) {
                r matches Awaited::Done(Err(OscarError::LoginFailed(t))) && t@ == login_failed_text(
                    login_error_code(m[0x08]),
                )
            } else {
                match redirect_of(m) {
                    Some((host, port, cookie)) => r matches Awaited::Done(Ok((a, c))) && a.host@ == host && a.port
                        == port && c@ == cookie,
                    None => r matches Awaited::Done(Err(OscarError::UnexpectedResponse(_))),
                }
            }
        } else {
            r is Ignore
        },
{
    let snac = match data_snac(frame) {
        Some(s) => s,
        None => return Awaited::Ignore,
    };
    if snac.header.family != SnacFamily::Authorization.as_u16() || snac.header.subtype != BUCP_LOGIN_REPLY {
        return Awaited::Ignore;
    }
    let tlvs = Tlv::parse_all(snac.body.as_slice());
    proof {
        assert(tlvs@.map_values(|v: Vec<u8>| v@) =~= tlv_block_map(frame.payload@.skip(10)));
    }
    if let Some(error_bytes) = tlvs.get(&0x08) {
        let code: u16 = if error_bytes.len() >= 2 {
            read_be16(error_bytes.as_slice(), 0)
        } else {
            0
        };
        let prefix = ['B', 'U', 'C', 'P', ' ', 'e', 'r', 'r', 'o', 'r', ' ', 'c', 'o', 'd', 'e', ' '];
        let mut text: Vec<char> = Vec::new();
        let mut i: usize = 0;
        while i < 16
            invariant
                i <= 16,
                text@ == prefix@.take(i as int),
            decreases 16 - i,
        {
            text.push(prefix[i]);
            i = i + 1;
            assert(prefix@.take(i as int) =~= prefix@.take(i - 1).push(prefix@[i - 1]));
        }
        let digits = str_chars(decimal_string(code as u32).as_str());
        let mut j: usize = 0;
        let ghost head = text@;
        while j < digits.len()
            invariant
                j <= digits@.len(),
                text@ == head + digits@.take(j as int),
            decreases digits@.len() - j,
        {
            text.push(digits[j]);
            j = j + 1;
            assert(digits@.take(j as int) =~= digits@.take(j - 1).push(digits@[j - 1]));
        }
        assert(digits@.take(digits@.len() as int) =~= digits@);
        assert(text@ =~= login_failed_text(code));
        return Awaited::Done(Err(OscarError::LoginFailed(string_from_chars(text.as_slice()))));
    }
    Awaited::Done(parse_redirect_address_and_cookie(&tlvs))
}

/// Whether a frame is the server's "host online" (family 0x01, subtype
/// 0x03), which a redirected connection waits for.
pub fn is_host_online(frame: &FlapFrame) -> (r: bool)
    ensures
        r == is_snac(frame.channel, frame.payload@, SnacFamily::Generic, GENERIC_HOST_ONLINE),
{
    match data_snac(frame) {
        Some(s) => s.header.family == SnacFamily::Generic.as_u16() && s.header.subtype == GENERIC_HOST_ONLINE,
        None => false,
    }
}

/// One family entry of a client-online announcement: family, version 1,
/// tool id 0, tool version 0.
pub open spec fn family_entry(f: SnacFamily) -> Seq<u8> {
    be16_bytes(family_code(f)) + be16_bytes(1) + be16_bytes(0) + be16_bytes(0)
}

/// The BOS client-online body: one entry each for the generic, locate,
/// presence, messaging and feedbag families.
pub open spec fn client_online_bytes() -> Seq<u8> {
    family_entry(SnacFamily::Generic) + family_entry(SnacFamily::Locate) + family_entry(SnacFamily::BuddyPresence)
        + family_entry(SnacFamily::Messaging) + family_entry(SnacFamily::Feedbag)
}

fn push_family_entry(out: &mut Vec<u8>, f: SnacFamily)
    ensures
        final(out)@ == old(out)@ + family_entry(f),
{
    push_be16(out, f.as_u16());
    push_be16(out, 1);
    push_be16(out, 0);
    push_be16(out, 0);
    assert(final(out)@ =~= old(out)@ + family_entry(f));
}

/// The client-online announcement that completes sign-on on BOS.
pub fn client_online_request(request_id: u32) -> (s: Snac)
    ensures
        s.header == (SnacHeader {
            family: family_code(SnacFamily::Generic),
            subtype: GENERIC_CLIENT_ONLINE,
            flags: 0,
            request_id,
        }),
        s.body@ == client_online_bytes(),
{
    let mut body: Vec<u8> = Vec::new();
    push_family_entry(&mut body, SnacFamily::Generic);
    push_family_entry(&mut body, SnacFamily::Locate);
    push_family_entry(&mut body, SnacFamily::BuddyPresence);
    push_family_entry(&mut body, SnacFamily::Messaging);
    push_family_entry(&mut body, SnacFamily::Feedbag);
    assert(body@ =~= client_online_bytes());
    Snac {
        header: SnacHeader { family: SnacFamily::Generic.as_u16(), subtype: GENERIC_CLIENT_ONLINE, flags: 0, request_id },
        body,
    }
}

/// The client-online announcement on a chat room's connection: the chat
/// family only.
pub fn chat_client_online_request(request_id: u32) -> (s: Snac)
    ensures
        s.header == (SnacHeader {
            family: family_code(SnacFamily::Generic),
            subtype: GENERIC_CLIENT_ONLINE,
            flags: 0,
            request_id,
        }),
        s.body@ == family_entry(SnacFamily::Chat),
{
    let mut body: Vec<u8> = Vec::new();
    push_family_entry(&mut body, SnacFamily::Chat);
    assert(body@ =~= family_entry(SnacFamily::Chat));
    Snac {
        header: SnacHeader { family: SnacFamily::Generic.as_u16(), subtype: GENERIC_CLIENT_ONLINE, flags: 0, request_id },
        body,
    }
}

/// The TLV that names a room in a chat redirect request: TLV 0x01 holding
/// the room's service data.
pub fn room_redirect_tlv(handle: &ChatRoomHandle) -> (t: Tlv)
    ensures
        t.tlv_type == 0x01,
        t.value@ == crate::messaging::room_selector_bytes(handle.exchange, handle.room_cookie@, handle.instance),
{
    Tlv::new(0x01, crate::messaging::room_selector(handle))
}

/// The state of joining a room, while its connection delivers the join
/// sequence: the occupant list, then the room's info.
pub struct ChatJoin {
    pub occupants: Vec<ChatOccupant>,
    pub handle: ChatRoomHandle,
}

impl ChatJoin {
    pub fn new(handle: ChatRoomHandle) -> (r: ChatJoin)
        ensures
            r.occupants@.len() == 0,
            r.handle == handle,
    {
        ChatJoin { occupants: Vec::new(), handle }
    }

    /// Reads one frame of the join sequence; returns whether the join is
    /// complete. A chat occupant list (subtype 0x03) replaces the
    /// occupants; the room info (subtype 0x02) completes the join, and
    /// replaces the handle when it parses. Other frames are skipped.
    pub fn step(&mut self, frame: &FlapFrame) -> (done: bool)
        ensures
            done == is_snac(frame.channel, frame.payload@, SnacFamily::Chat, crate::chat::ROOM_INFO_UPDATE),
            is_snac(frame.channel, frame.payload@, SnacFamily::Chat, crate::chat::USERS_JOINED) ==> crate::chat::occupants_view(
                final(self).occupants@,
            ) == crate::chat::user_info_list_of(frame.payload@.skip(10)) && final(self).handle == old(self).handle,
            done ==> final(self).occupants@ == old(self).occupants@ && match crate::chat_nav::room_info_of(
                frame.payload@.skip(10),
            ) {
                Some(i) => crate::chat_nav::handle_is(final(self).handle, i),
                None => final(self).handle == old(self).handle,
            },
            !done && !is_snac(frame.channel, frame.payload@, SnacFamily::Chat, crate::chat::USERS_JOINED)
                ==> final(self).occupants@ == old(self).occupants@ && final(self).handle == old(self).handle,
    {
        let snac = match data_snac(frame) {
            Some(s) => s,
            None => return false,
        };
        if snac.header.family != SnacFamily::Chat.as_u16() {
            return false;
        }
        if snac.header.subtype == crate::chat::USERS_JOINED {
            self.occupants = parse_user_info_list(snac.body.as_slice());
            false
        } else if snac.header.subtype == crate::chat::ROOM_INFO_UPDATE {
            if let Some(updated) = parse_chat_room_info_update(snac.body.as_slice()) {
                self.handle = updated;
            }
            true
        } else {
            false
        }
    }
}

} // verus!
