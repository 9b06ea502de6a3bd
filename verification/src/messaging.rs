//! ICBM (SNAC family 0x04): instant messages, chat-room invites (channel 2
//! rendezvous proposals) and warnings. Every send starts with an 8-byte
//! message cookie, a 2-byte channel and the recipient as a BUF (one length
//! byte, then the name).

use vstd::prelude::*;
use vstd::utf8::encode_utf8;

use crate::bytes::{be16_at, be16_bytes, copy_range, lemma_be16_roundtrip, push_all, push_be16, read_be16};
use crate::chat_nav::ChatRoomHandle;
use crate::snac::{
    tlv_block_map, tlv_bytes, user_info_fits, user_info_len, user_info_name_bytes, Tlv, UserInfo,
};
use crate::text::{bytes_to_text, str_chars, string_from_chars, string_from_utf8_lossy};

verus! {

broadcast use vstd::std_specs::hash::group_hash_axioms;

pub const SEND_IM: u16 = 0x06;

pub const INCOMING_IM: u16 = 0x07;

pub const SEND_WARNING: u16 = 0x08;

pub const WARNING_REPLY: u16 = 0x09;

pub const RDV_TYPE_PROPOSE: u16 = 0x00;

pub const RDV_TLV_SEQ_NUM: u16 = 0x0A;

pub const RDV_TLV_INVITATION: u16 = 0x0C;

pub const RDV_TLV_SVC_DATA: u16 = 0x2711;

/// The chat capability UUID.
pub open spec fn cap_chat() -> Seq<u8> {
    seq![0x74, 0x8F, 0x24, 0x20, 0x62, 0x87, 0x11, 0xD1, 0x82, 0x22, 0x44, 0x45, 0x53, 0x54, 0x00, 0x00]
}

/// An instant message received from another user.
#[derive(Debug, Clone, PartialEq)]
pub struct IncomingIm {
    pub from: String,
    pub text: String,
}

/// A chat-room invite (ICBM channel 2).
#[derive(Debug, Clone, PartialEq)]
pub struct ChatInvite {
    pub from: String,
    pub invitation_text: String,
    pub room: ChatRoomHandle,
}

/// Calls `rand::random` for 8 bytes. Nothing is claimed of the result.
#[verifier::external_body]
pub(crate) fn random_cookie() -> (r: [u8; 8]) {
    rand::random()
}

/// The UTF-8 bytes of `s`.
pub fn str_bytes(s: &str) -> (r: Vec<u8>)
    ensures
        r@ == encode_utf8(s@),
{
    let b = s.as_bytes();
    copy_range(b, 0, b.len())
}

/// A BUF: the byte length of the name (modulo 256, as the field is one
/// byte), then the name's bytes.
pub open spec fn buf_bytes(name: Seq<char>) -> Seq<u8> {
    seq![(encode_utf8(name).len() % 256) as u8] + encode_utf8(name)
}

fn push_buf(out: &mut Vec<u8>, name: &str)
    ensures
        final(out)@ == old(out)@ + buf_bytes(name@),
{
    let b = name.as_bytes();
    out.push((b.len() % 256) as u8);
    push_all(out, b);
    assert(final(out)@ =~= old(out)@ + buf_bytes(name@));
}

/// The start of every ICBM send: cookie, channel, recipient BUF.
pub open spec fn icbm_prefix(cookie: Seq<u8>, channel: u16, recipient: Seq<char>) -> Seq<u8> {
    cookie + be16_bytes(channel) + buf_bytes(recipient)
}

/// The ICBM send prefix with a given message cookie.
pub fn icbm_prefix_with_cookie(cookie: &[u8; 8], channel: u16, recipient: &str) -> (r: Vec<u8>)
    ensures
        r@ == icbm_prefix(cookie@, channel, recipient@),
{
    let mut body: Vec<u8> = Vec::new();
    push_all(&mut body, cookie);
    push_be16(&mut body, channel);
    push_buf(&mut body, recipient);
    assert(body@ =~= icbm_prefix(cookie@, channel, recipient@));
    body
}

/// The ICBM send prefix with a fresh random message cookie.
pub fn icbm_send_prefix(channel: u16, recipient: &str) -> (r: Vec<u8>)
    ensures
        exists|c: Seq<u8>| c.len() == 8 && r@ == icbm_prefix(c, channel, recipient@),
{
    let cookie = random_cookie();
    icbm_prefix_with_cookie(&cookie, channel, recipient)
}

/// The message TLV of a plain-text IM: a features fragment (0x0501) and
/// the text fragment (0x0101, charset bytes 0 0 then the text).
pub open spec fn im_message_tlv(text: Seq<char>) -> Seq<u8> {
    tlv_bytes(0x02, tlv_bytes(0x0501, seq![1u8, 1, 1, 2]) + tlv_bytes(0x0101, seq![0u8, 0] + encode_utf8(text)))
}

/// The body of a send-IM SNAC with message cookie `cookie`.
pub open spec fn im_body(cookie: Seq<u8>, recipient: Seq<char>, text: Seq<char>) -> Seq<u8> {
    icbm_prefix(cookie, 1, recipient) + im_message_tlv(text)
}

/// The send-IM body with a given message cookie.
pub fn im_body_with_cookie(cookie: &[u8; 8], recipient: &str, text: &str) -> (r: Vec<u8>)
    ensures
        r@ == im_body(cookie@, recipient@, text@),
{
    let mut body = icbm_prefix_with_cookie(cookie, 1, recipient);
    let mut inner: Vec<u8> = Vec::new();
    let features = Tlv::new(0x0501, vec![0x01, 0x01, 0x01, 0x02]);
    let fe = features.encode();
    push_all(&mut inner, fe.as_slice());
    let mut text_fragment: Vec<u8> = vec![0x00, 0x00];
    let tb = text.as_bytes();
    push_all(&mut text_fragment, tb);
    let te = Tlv::new(0x0101, text_fragment).encode();
    push_all(&mut inner, te.as_slice());
    assert(features.value@ =~= seq![1u8, 1, 1, 2]);
    let msg = Tlv::new(0x02, inner).encode();
    push_all(&mut body, msg.as_slice());
    assert(body@ =~= im_body(cookie@, recipient@, text@));
    body
}

/// The send-IM body with a fresh random message cookie.
pub fn im_body_random(recipient: &str, text: &str) -> (r: Vec<u8>)
    ensures
        exists|c: Seq<u8>| c.len() == 8 && r@ == im_body(c, recipient@, text@),
{
    let cookie = random_cookie();
    im_body_with_cookie(&cookie, recipient, text)
}

/// The service data naming a room: exchange, cookie as a BUF, instance.
pub open spec fn room_selector_bytes(exchange: u16, cookie: Seq<char>, instance: u16) -> Seq<u8> {
    be16_bytes(exchange) + buf_bytes(cookie) + be16_bytes(instance)
}

/// The service data naming `room`.
pub fn room_selector(room: &ChatRoomHandle) -> (r: Vec<u8>)
    ensures
        r@ == room_selector_bytes(room.exchange, room.room_cookie@, room.instance),
{
    let mut out: Vec<u8> = Vec::new();
    push_be16(&mut out, room.exchange);
    push_buf(&mut out, room.room_cookie.as_str());
    push_be16(&mut out, room.instance);
    assert(out@ =~= room_selector_bytes(room.exchange, room.room_cookie@, room.instance));
    out
}

/// The rendezvous fragment of a chat invite.
pub open spec fn invite_fragment(rdv_cookie: Seq<u8>, room: ChatRoomHandle, text: Seq<char>) -> Seq<u8> {
    be16_bytes(RDV_TYPE_PROPOSE) + rdv_cookie + cap_chat() + tlv_bytes(RDV_TLV_SEQ_NUM, be16_bytes(1))
        + tlv_bytes(RDV_TLV_INVITATION, encode_utf8(text)) + tlv_bytes(
        RDV_TLV_SVC_DATA,
        room_selector_bytes(room.exchange, room.room_cookie@, room.instance),
    )
}

/// The body of a chat-invite send: channel-2 prefix, then the rendezvous
/// fragment as TLV 0x05.
pub open spec fn invite_body(
    cookie: Seq<u8>,
    rdv_cookie: Seq<u8>,
    recipient: Seq<char>,
    room: ChatRoomHandle,
    text: Seq<char>,
) -> Seq<u8> {
    icbm_prefix(cookie, 2, recipient) + tlv_bytes(0x05, invite_fragment(rdv_cookie, room, text))
}

/// The chat-invite body with given message and rendezvous cookies.
pub fn invite_body_with_cookies(
    cookie: &[u8; 8],
    rdv_cookie: &[u8; 8],
    recipient: &str,
    room: &ChatRoomHandle,
    text: &str,
) -> (r: Vec<u8>)
    ensures
        r@ == invite_body(cookie@, rdv_cookie@, recipient@, *room, text@),
{
    let mut body = icbm_prefix_with_cookie(cookie, 2, recipient);
    let svc = room_selector(room);
    let mut tlvs: Vec<u8> = Vec::new();
    let mut seq_num: Vec<u8> = Vec::new();
    push_be16(&mut seq_num, 1);
    let t1 = Tlv::new(RDV_TLV_SEQ_NUM, seq_num).encode();
    push_all(&mut tlvs, t1.as_slice());
    let t2 = Tlv::new(RDV_TLV_INVITATION, str_bytes(text)).encode();
    push_all(&mut tlvs, t2.as_slice());
    let t3 = Tlv::new(RDV_TLV_SVC_DATA, svc).encode();
    push_all(&mut tlvs, t3.as_slice());
    let mut fragment: Vec<u8> = Vec::new();
    push_be16(&mut fragment, RDV_TYPE_PROPOSE);
    push_all(&mut fragment, rdv_cookie);
    let cap: [u8; 16] = [0x74, 0x8F, 0x24, 0x20, 0x62, 0x87, 0x11, 0xD1, 0x82, 0x22, 0x44, 0x45, 0x53, 0x54, 0x00, 0x00];
    assert(cap@ =~= cap_chat());
    push_all(&mut fragment, &cap);
    push_all(&mut fragment, tlvs.as_slice());
    assert(fragment@ =~= invite_fragment(rdv_cookie@, *room, text@));
    let f = Tlv::new(0x05, fragment).encode();
    push_all(&mut body, f.as_slice());
    assert(body@ =~= invite_body(cookie@, rdv_cookie@, recipient@, *room, text@));
    body
}

/// The chat-invite body with fresh random cookies.
pub fn invite_body_random(recipient: &str, room: &ChatRoomHandle, text: &str) -> (r: Vec<u8>)
    ensures
        exists|c: Seq<u8>, d: Seq<u8>| c.len() == 8 && d.len() == 8 && r@ == invite_body(c, d, recipient@, *room, text@),
{
    let cookie = random_cookie();
    let rdv_cookie = random_cookie();
    invite_body_with_cookies(&cookie, &rdv_cookie, recipient, room, text)
}

/// The invitation text sent with an invite to a room: "Join " and the
/// room's name.
pub fn invitation_text_for(room_name: &str) -> (r: String)
    ensures
        r@ == seq!['J', 'o', 'i', 'n', ' '] + room_name@,
{
    let mut cs: Vec<char> = vec!['J', 'o', 'i', 'n', ' '];
    let name = str_chars(room_name);
    let ghost head = cs@;
    let mut i: usize = 0;
    while i < name.len()
        invariant
            i <= name@.len(),
            cs@ == head + name@.take(i as int),
        decreases name@.len() - i,
    {
        cs.push(name[i]);
        i = i + 1;
        assert(name@.take(i as int) =~= name@.take(i - 1).push(name@[i - 1]));
    }
    assert(name@.take(name@.len() as int) =~= name@);
    string_from_chars(cs.as_slice())
}

/// The body of a warning request: flags (0x0001 when anonymous), then the
/// target's BUF.
pub open spec fn warning_body(screen_name: Seq<char>, anonymous: bool) -> Seq<u8> {
    be16_bytes(if anonymous { 1 } else { 0 }) + buf_bytes(screen_name)
}

pub fn warning_request_body(screen_name: &str, anonymous: bool) -> (r: Vec<u8>)
    ensures
        r@ == warning_body(screen_name@, anonymous),
{
    let mut body: Vec<u8> = Vec::new();
    let flags: u16 = if anonymous { 0x0001 } else { 0 };
    push_be16(&mut body, flags);
    push_buf(&mut body, screen_name);
    assert(body@ =~= warning_body(screen_name@, anonymous));
    body
}

/// The channel field of an incoming ICBM (bytes 8-9), when present.
pub open spec fn icbm_channel_of(b: Seq<u8>) -> Option<u16> {
    if b.len() < 10 {
        None
    } else {
        Some(be16_at(b, 8))
    }
}

pub fn icbm_channel(body: &[u8]) -> (r: Option<u16>)
    ensures
        r == icbm_channel_of(body@),
{
    if body.len() < 10 {
        return None;
    }
    Some(read_be16(body, 8))
}

/// The position of the first `c` in `s` at or after `from`.
pub open spec fn index_of_from(s: Seq<char>, c: char, from: int) -> Option<int>
    decreases s.len() - from,
{
    if from < 0 || from >= s.len() {
        None
    } else if s[from] == c {
        Some(from)
    } else {
        index_of_from(s, c, from + 1)
    }
}

/// The room name a `"{exchange}-{instance}-{name}"` cookie carries: the
/// text after the second `-`, or the whole cookie when it has fewer.
pub open spec fn room_name_of_cookie(s: Seq<char>) -> Seq<char> {
    match index_of_from(s, '-', 0) {
        Some(i) => match index_of_from(s, '-', i + 1) {
            Some(j) => s.skip(j + 1),
            None => s,
        },
        None => s,
    }
}

proof fn lemma_index_of_skips(s: Seq<char>, c: char, from: int, upto: int)
    requires
        0 <= from <= upto <= s.len(),
        forall|k: int| from <= k < upto ==> s[k] != c,
    ensures
        index_of_from(s, c, from) == index_of_from(s, c, upto),
    decreases upto - from,
{
    if from < upto {
        lemma_index_of_skips(s, c, from + 1, upto);
    }
}

/// A cookie `"{exchange}-{instance}-{name}"` carries `name`, dashes in it
/// included, whenever the exchange and instance parts hold no dash.
pub proof fn lemma_room_name_of_cookie(exchange: Seq<char>, instance: Seq<char>, name: Seq<char>)
    requires
        !exchange.contains('-'),
        !instance.contains('-'),
    ensures
        room_name_of_cookie(exchange + seq!['-'] + instance + seq!['-'] + name) == name,
{
    let s = exchange + seq!['-'] + instance + seq!['-'] + name;
    let a = exchange.len() as int;
    let b = a + 1 + instance.len();
    assert forall|k: int| 0 <= k < a implies s[k] != '-' by {
        assert(s[k] == exchange[k]);
    }
    lemma_index_of_skips(s, '-', 0, a);
    assert(index_of_from(s, '-', 0) == Some(a));
    assert forall|k: int| a + 1 <= k < b implies s[k] != '-' by {
        assert(s[k] == instance[k - a - 1]);
    }
    lemma_index_of_skips(s, '-', a + 1, b);
    assert(index_of_from(s, '-', a + 1) == Some(b));
    assert(s.skip(b + 1) =~= name);
}

/// An ICBM sent with a given channel is read back as on that channel.
pub proof fn lemma_icbm_channel_of_prefix(cookie: Seq<u8>, channel: u16, recipient: Seq<char>, rest: Seq<u8>)
    requires
        cookie.len() == 8,
    ensures
        icbm_channel_of(icbm_prefix(cookie, channel, recipient) + rest) == Some(channel),
{
    let b = icbm_prefix(cookie, channel, recipient) + rest;
    lemma_be16_roundtrip(channel);
    assert(b[8] == be16_bytes(channel)[0] && b[9] == be16_bytes(channel)[1]);
}

fn find_dash(s: &[char], from: usize) -> (r: Option<usize>)
    requires
        from <= s@.len(),
    ensures
        match index_of_from(s@, '-', from as int) {
            Some(i) => r == Some(i as usize) && from <= i < s@.len(),
            None => r is None,
        },
{
    let mut i = from;
    while i < s.len()
        invariant
            from <= i <= s@.len(),
            index_of_from(s@, '-', from as int) == index_of_from(s@, '-', i as int),
        decreases s@.len() - i,
    {
        if s[i] == '-' {
            return Some(i);
        }
        i = i + 1;
    }
    None
}

/// The room name carried in a room cookie.
pub fn room_name_from_cookie(cookie: &str) -> (r: String)
    ensures
        r@ == room_name_of_cookie(cookie@),
{
    let cs = str_chars(cookie);
    let first = find_dash(cs.as_slice(), 0);
    proof {
        if let Some(i) = first {
            assert(index_of_from(cs@, '-', 0) is Some);
            assert(i < cs@.len());
        }
    }
    match first {
        Some(i) => match find_dash(cs.as_slice(), i + 1) {
            Some(j) => {
                assert(index_of_from(cs@, '-', i + 1) is Some);
                assert(j < cs@.len());
                let n: usize = cs.len();
                assert(j < n);
                let mut out: Vec<char> = Vec::new();
                let mut k: usize = j + 1;
                while k < cs.len()
                    invariant
                        j + 1 <= k <= cs@.len(),
                        out@ == cs@.subrange(j + 1, k as int),
                    decreases cs@.len() - k,
                {
                    out.push(cs[k]);
                    k = k + 1;
                    assert(cs@.subrange(j + 1, k as int) =~= cs@.subrange(j + 1, k - 1).push(cs@[k - 1]));
                }
                assert(cs@.subrange(j + 1, cs@.len() as int) =~= cs@.skip(j + 1));
                string_from_chars(out.as_slice())
            },
            None => string_from_chars(cs.as_slice()),
        },
        None => string_from_chars(cs.as_slice()),
    }
}

/// The sender and text `parse_incoming_im` reads from an incoming ICBM
/// body: cookie and channel, the sender's user block, then TLVs whose 0x02
/// entry nests the text fragment 0x0101 (two charset bytes, then text).
/// A missing or too-short fragment reads as empty text.
pub open spec fn incoming_im_of(b: Seq<u8>) -> Option<(Seq<char>, Seq<char>)> {
    if b.len() <= 10 || !user_info_fits(b.skip(10)) {
        None
    } else {
        let u = b.skip(10);
        let m = tlv_block_map(b.skip(10 + user_info_len(u)));
        let text = if !m.contains_key(0x02) {
            seq![]
        } else {
            let f = tlv_block_map(m[0x02]);
            if !f.contains_key(0x0101) || f[0x0101].len() <= 2 {
                seq![]
            } else {
                bytes_to_text(f[0x0101].skip(2))
            }
        };
        Some((bytes_to_text(user_info_name_bytes(u)), text))
    }
}

proof fn lemma_tlv_map_pair(l: Seq<(u16, Seq<u8>)>)
    requires
        l.len() == 2,
        l[0].0 != l[1].0,
    ensures
        crate::snac::tlv_map(l).contains_key(l[1].0),
        crate::snac::tlv_map(l)[l[1].0] == l[1].1,
{
    assert(l.drop_last().drop_last() =~= Seq::<(u16, Seq<u8>)>::empty());
}

/// An instant message as this library sends it (cookie, channel 1, the
/// sender's user block, and `im_message_tlv(text)`: the features fragment,
/// then the text fragment) reads back as that sender and exactly that text.
pub proof fn lemma_incoming_im_roundtrip(
    cookie: Seq<u8>,
    name: Seq<u8>,
    warning: u16,
    user_tlvs: Seq<(u16, Seq<u8>)>,
    text: Seq<char>,
)
    requires
        cookie.len() == 8,
        name.len() <= 255,
        user_tlvs.len() <= 65535,
        crate::snac::tlv_values_fit(user_tlvs),
        encode_utf8(text).len() <= 65000,
    ensures
        incoming_im_of(
            cookie + be16_bytes(1) + crate::snac::user_info_bytes(name, warning, user_tlvs) + im_message_tlv(text),
        ) == Some((bytes_to_text(name), text)),
{
    let blk = crate::snac::user_info_bytes(name, warning, user_tlvs);
    let msg = im_message_tlv(text);
    let b = cookie + be16_bytes(1) + blk + msg;
    assert(b.skip(10) =~= blk + msg);
    crate::snac::lemma_user_info_roundtrip(name, warning, user_tlvs, msg);
    assert(b.skip(10 + blk.len() as int) =~= msg);
    let enc = encode_utf8(text);
    let frag = seq![0u8, 0] + enc;
    let inner_l = seq![(0x0501u16, seq![1u8, 1, 1, 2]), (0x0101u16, frag)];
    let inner = tlv_bytes(0x0501, seq![1u8, 1, 1, 2]) + tlv_bytes(0x0101, frag);
    assert(inner_l.drop_first().drop_first() =~= Seq::<(u16, Seq<u8>)>::empty());
    assert(crate::snac::tlvs_bytes(inner_l.drop_first().drop_first()) =~= Seq::<u8>::empty());
    assert(inner_l.drop_first()[0] == (0x0101u16, frag));
    assert(crate::snac::tlvs_bytes(inner_l.drop_first()) =~= tlv_bytes(0x0101, frag));
    assert(crate::snac::tlvs_bytes(inner_l) =~= inner);
    let outer_l = seq![(0x02u16, inner)];
    assert(outer_l.drop_first() =~= Seq::<(u16, Seq<u8>)>::empty());
    assert(crate::snac::tlvs_bytes(outer_l.drop_first()) =~= Seq::<u8>::empty());
    assert(crate::snac::tlvs_bytes(outer_l) =~= msg);
    assert(crate::snac::tlv_values_fit(outer_l));
    assert(crate::snac::tlv_values_fit(inner_l));
    crate::snac::lemma_tlv_block_roundtrip(outer_l);
    crate::snac::lemma_tlv_block_roundtrip(inner_l);
    assert(outer_l.drop_last() =~= Seq::<(u16, Seq<u8>)>::empty());
    let m = tlv_block_map(msg);
    assert(m.contains_key(0x02) && m[0x02] == inner);
    lemma_tlv_map_pair(inner_l);
    let f = tlv_block_map(inner);
    assert(f.contains_key(0x0101) && f[0x0101] == frag);
    assert(frag.skip(2) =~= enc);
    vstd::utf8::encode_utf8_valid_utf8(text);
    vstd::utf8::encode_utf8_decode_utf8(text);
    if frag.len() <= 2 {
        assert(enc.len() == 0);
        vstd::utf8::encode_utf8_decode_utf8(text);
        assert(text.len() == 0) by {
            assert(enc =~= Seq::<u8>::empty());
            if text.len() > 0 {
                assert(encode_utf8(text) == vstd::utf8::encode_scalar(text[0] as u32) + encode_utf8(text.drop_first()));
            }
        }
        assert(text =~= seq![]);
    }
}

/// Parses an incoming plain-text ICBM.
pub fn parse_incoming_im(body: &[u8]) -> (r: Option<IncomingIm>)
    ensures
        match incoming_im_of(body@) {
            Some((from, text)) => r matches Some(im) && im.from@ == from && im.text@ == text,
            None => r is None,
        },
{
    if body.len() <= 10 {
        return None;
    }
    let after = &body[10..body.len()];
    assert(after@ =~= body@.skip(10));
    let (sender_info, consumed) = match UserInfo::parse(after) {
        Some(p) => p,
        None => return None,
    };
    let index = 10 + consumed;
    let sender = sender_info.screen_name;
    let rest = &body[index..body.len()];
    assert(rest@ =~= body@.skip(index as int));
    let tlvs = Tlv::parse_all(rest);
    let message_tlv = match tlvs.get(&0x02) {
        Some(m) => m,
        None => return Some(IncomingIm { from: sender, text: String::new() }),
    };
    let fragments = Tlv::parse_all(message_tlv.as_slice());
    let text_fragment = match fragments.get(&0x0101) {
        Some(t) => t,
        None => return Some(IncomingIm { from: sender, text: String::new() }),
    };
    if text_fragment.len() <= 2 {
        return Some(IncomingIm { from: sender, text: String::new() });
    }
    let tail = copy_range(text_fragment.as_slice(), 2, text_fragment.len());
    assert(tail@ =~= text_fragment@.skip(2));
    let text = string_from_utf8_lossy(tail.as_slice());
    Some(IncomingIm { from: sender, text })
}

/// A decoded chat invite: sender, invitation text, exchange, room cookie,
/// instance.
pub type InviteInfo = (Seq<char>, Seq<char>, u16, Seq<char>, u16);

/// The invite `parse_chat_invite` reads from an incoming channel-2 ICBM
/// body: after cookie, channel and the sender's user block, TLV 0x05 holds
/// the rendezvous fragment (type, cookie, capability: 26 bytes, then TLVs);
/// its TLV 0x0C is the invitation text (empty when absent) and TLV 0x2711
/// the room's service data.
pub open spec fn chat_invite_of(b: Seq<u8>) -> Option<InviteInfo> {
    if b.len() <= 10 || !user_info_fits(b.skip(10)) {
        None
    } else {
        let u = b.skip(10);
        let m = tlv_block_map(b.skip(10 + user_info_len(u)));
        if !m.contains_key(0x05) || m[0x05].len() < 26 {
            None
        } else {
            let f = tlv_block_map(m[0x05].skip(26));
            if !f.contains_key(RDV_TLV_SVC_DATA) {
                None
            } else {
                let svc = f[RDV_TLV_SVC_DATA];
                if svc.len() < 3 || svc.len() < 3 + svc[2] + 2 {
                    None
                } else {
                    let cl = svc[2] as int;
                    Some(
                        (
                            bytes_to_text(user_info_name_bytes(u)),
                            if f.contains_key(RDV_TLV_INVITATION) {
                                bytes_to_text(f[RDV_TLV_INVITATION])
                            } else {
                                seq![]
                            },
                            be16_at(svc, 0),
                            bytes_to_text(svc.subrange(3, 3 + cl)),
                            be16_at(svc, 3 + cl),
                        ),
                    )
                }
            }
        }
    }
}

/// Parses an incoming chat invite; the room name is taken from the room
/// cookie, as the invite does not carry it.
pub fn parse_chat_invite(body: &[u8]) -> (r: Option<ChatInvite>)
    ensures
        match chat_invite_of(body@) {
            Some((from, text, exchange, cookie, instance)) => r matches Some(inv) && inv.from@ == from
                && inv.invitation_text@ == text && inv.room.exchange == exchange && inv.room.room_cookie@
                == cookie && inv.room.instance == instance && inv.room.room_name@ == room_name_of_cookie(
                cookie,
            ),
            None => r is None,
        },
{
    if body.len() <= 10 {
        return None;
    }
    let after = &body[10..body.len()];
    assert(after@ =~= body@.skip(10));
    let (sender_info, consumed) = match UserInfo::parse(after) {
        Some(p) => p,
        None => return None,
    };
    let index = 10 + consumed;
    let from = sender_info.screen_name;
    let rest = &body[index..body.len()];
    assert(rest@ =~= body@.skip(index as int));
    let tlvs = Tlv::parse_all(rest);
    let fragment = match tlvs.get(&0x05) {
        Some(f) => f,
        None => return None,
    };
    if fragment.len() < 26 {
        return None;
    }
    let frag_rest = &fragment.as_slice()[26..fragment.len()];
    assert(frag_rest@ =~= fragment@.skip(26));
    let fragment_tlvs = Tlv::parse_all(frag_rest);
    let invitation_text = match fragment_tlvs.get(&RDV_TLV_INVITATION) {
        Some(v) => string_from_utf8_lossy(v.as_slice()),
        None => String::new(),
    };
    let svc_data = match fragment_tlvs.get(&RDV_TLV_SVC_DATA) {
        Some(s) => s,
        None => return None,
    };
    if svc_data.len() < 3 {
        return None;
    }
    let exchange = read_be16(svc_data.as_slice(), 0);
    let cookie_len = svc_data[2] as usize;
    if svc_data.len() < 3 + cookie_len + 2 {
        return None;
    }
    let cookie_bytes = copy_range(svc_data.as_slice(), 3, 3 + cookie_len);
    let room_cookie = string_from_utf8_lossy(cookie_bytes.as_slice());
    let instance = read_be16(svc_data.as_slice(), 3 + cookie_len);
    let room_name = room_name_from_cookie(room_cookie.as_str());
    Some(ChatInvite { from, invitation_text, room: ChatRoomHandle { exchange, room_cookie, instance, room_name } })
}

} // verus!
