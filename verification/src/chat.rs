//! Chat (SNAC family 0x0E): one joined room, on its own connection. The
//! room's state (its handle, who is in it, what has been said) is driven by
//! the frames the room's connection delivers.

use vstd::prelude::*;
use vstd::utf8::encode_utf8;

use crate::bytes::{be16_bytes, copy_range, push_all, push_be16};
use crate::chat_nav::{handle_is, parse_chat_room_info_update, room_info_of, ChatRoomHandle};
use crate::client::RequestIdCounter;
use crate::flap::{FlapChannel, FlapFrame};
use crate::snac::{
    family_code, snac_header_of, tlv_block_map, tlv_bytes, user_info_fits, user_info_len,
    user_info_name_bytes, user_info_warning, Snac, SnacFamily, SnacHeader, Tlv, UserInfo,
};
use crate::text::{bytes_to_text, clone_string, same_screen_name, screen_names_match, string_from_utf8_lossy};

verus! {

broadcast use vstd::std_specs::hash::group_hash_axioms;

pub const ROOM_INFO_UPDATE: u16 = 0x02;

pub const USERS_JOINED: u16 = 0x03;

pub const USERS_LEFT: u16 = 0x04;

pub const CHANNEL_MSG_TO_HOST: u16 = 0x05;

pub const CHANNEL_MSG_TO_CLIENT: u16 = 0x06;

pub const MSG_TLV_INFO: u16 = 0x05;

pub const MSG_TLV_TEXT: u16 = 0x01;

/// One person in a room.
#[derive(Debug, Clone, PartialEq)]
pub struct ChatOccupant {
    pub screen_name: String,
    pub warning_level: u16,
}

#[derive(Debug, Clone, PartialEq)]
pub struct ChatMessage {
    pub from: String,
    pub text: String,
}

/// An occupant as (screen name, warning level).
pub type OccupantView = (Seq<char>, u16);

pub open spec fn occupant_view(o: ChatOccupant) -> OccupantView {
    (o.screen_name@, o.warning_level)
}

pub open spec fn occupants_view(v: Seq<ChatOccupant>) -> Seq<OccupantView> {
    v.map_values(|o: ChatOccupant| occupant_view(o))
}

/// The user blocks of a joined/left body, back to back with no count, read
/// until the body is exhausted or a block is incomplete.
pub open spec fn user_info_list_of(b: Seq<u8>) -> Seq<OccupantView>
    decreases b.len(),
{
    if b.len() == 0 || !user_info_fits(b) {
        seq![]
    } else {
        let n = user_info_len(b);
        if n <= 0 || n > b.len() {
            seq![]
        } else {
            seq![(bytes_to_text(user_info_name_bytes(b)), user_info_warning(b))] + user_info_list_of(b.skip(n))
        }
    }
}

/// A user block as (name bytes, warning level, TLVs).
pub type UserBlock = (Seq<u8>, u16, Seq<(u16, Seq<u8>)>);

/// The user blocks `bs`, encoded one after another.
pub open spec fn user_blocks_bytes(bs: Seq<UserBlock>) -> Seq<u8>
    decreases bs.len(),
{
    if bs.len() == 0 {
        seq![]
    } else {
        crate::snac::user_info_bytes(bs[0].0, bs[0].1, bs[0].2) + user_blocks_bytes(bs.drop_first())
    }
}

/// Reading a run of encoded user blocks, whatever TLVs each carries, gives
/// one occupant per block, in order, with that block's name and warning
/// level.
pub proof fn lemma_user_info_list_roundtrip(bs: Seq<UserBlock>)
    requires
        forall|i: int|
            0 <= i < bs.len() ==> (#[trigger] bs[i]).0.len() <= 255 && bs[i].2.len() <= 65535
                && crate::snac::tlv_values_fit(bs[i].2),
    ensures
        user_info_list_of(user_blocks_bytes(bs)) == bs.map_values(|x: UserBlock| (bytes_to_text(x.0), x.1)),
    decreases bs.len(),
{
    if bs.len() > 0 {
        let first = bs[0];
        let tail = bs.drop_first();
        assert forall|i: int| 0 <= i < tail.len() implies (#[trigger] tail[i]).0.len() <= 255 && tail[i].2.len() <= 65535
            && crate::snac::tlv_values_fit(tail[i].2) by {
            assert(tail[i] == bs[i + 1]);
        }
        lemma_user_info_list_roundtrip(tail);
        let rest = user_blocks_bytes(tail);
        let blk = crate::snac::user_info_bytes(first.0, first.1, first.2);
        let d = user_blocks_bytes(bs);
        assert(d == blk + rest);
        crate::snac::lemma_user_info_roundtrip(first.0, first.1, first.2, rest);
        assert(blk.len() >= 5);
        assert(d.skip(blk.len() as int) =~= rest);
        assert(user_info_list_of(d) == seq![(bytes_to_text(first.0), first.1)] + user_info_list_of(rest));
        assert(bs.map_values(|x: UserBlock| (bytes_to_text(x.0), x.1)) =~= seq![(bytes_to_text(first.0), first.1)]
            + tail.map_values(|x: UserBlock| (bytes_to_text(x.0), x.1)));
    } else {
        assert(user_blocks_bytes(bs) =~= seq![]);
        assert(bs.map_values(|x: UserBlock| (bytes_to_text(x.0), x.1)) =~= seq![]);
    }
}

/// Parses a run of user blocks (a joined or left notification).
pub fn parse_user_info_list(body: &[u8]) -> (r: Vec<ChatOccupant>)
    ensures
        occupants_view(r@) == user_info_list_of(body@),
{
    let mut occupants: Vec<ChatOccupant> = Vec::new();
    let mut offset: usize = 0;
    let ghost d = body@;
    let ghost mut done: Seq<OccupantView> = seq![];
    assert(d.skip(0) =~= d);
    assert(done + user_info_list_of(d) =~= user_info_list_of(d));
    while offset < body.len()
        invariant
            d == body@,
            offset <= d.len(),
            user_info_list_of(d) == done + user_info_list_of(d.skip(offset as int)),
            occupants_view(occupants@) == done,
        ensures
            user_info_list_of(d.skip(offset as int)) == Seq::<OccupantView>::empty(),
        decreases d.len() - offset,
    {
        let rest = &body[offset..body.len()];
        let ghost r = d.skip(offset as int);
        assert(rest@ =~= r);
        let (info, consumed) = match UserInfo::parse(rest) {
            Some(p) => p,
            None => {
                assert(user_info_list_of(r) =~= seq![]);
                break;
            },
        };
        if consumed == 0 {
            assert(user_info_list_of(r) =~= seq![]);
            break;
        }
        proof {
            let x = (bytes_to_text(user_info_name_bytes(r)), user_info_warning(r));
            assert(r.skip(consumed as int) =~= d.skip(offset + consumed));
            assert(done + user_info_list_of(r) =~= done.push(x) + user_info_list_of(d.skip(offset + consumed)));
            done = done.push(x);
        }
        occupants.push(ChatOccupant { screen_name: info.screen_name, warning_level: info.warning_level });
        assert(occupants_view(occupants@) =~= done);
        offset = offset + consumed;
    }
    if offset >= body.len() {
        assert(d.skip(offset as int) =~= seq![]);
    }
    assert(done + user_info_list_of(d.skip(offset as int)) =~= done);
    occupants
}

/// The sender and text of a room message: after cookie and channel, TLVs
/// where 0x03 is the sender's user block and 0x05 nests the text TLV 0x01.
pub open spec fn chat_message_of(b: Seq<u8>) -> Option<(Seq<char>, Seq<char>)> {
    if b.len() < 10 {
        None
    } else {
        let m = tlv_block_map(b.skip(10));
        if !m.contains_key(0x03) || !user_info_fits(m[0x03]) || !m.contains_key(MSG_TLV_INFO) {
            None
        } else {
            let inner = tlv_block_map(m[MSG_TLV_INFO]);
            if !inner.contains_key(MSG_TLV_TEXT) {
                None
            } else {
                Some((bytes_to_text(user_info_name_bytes(m[0x03])), bytes_to_text(inner[MSG_TLV_TEXT])))
            }
        }
    }
}

/// Parses a room message sent to this client.
pub fn parse_chat_message(body: &[u8]) -> (r: Option<ChatMessage>)
    ensures
        match chat_message_of(body@) {
            Some((from, text)) => r matches Some(m) && m.from@ == from && m.text@ == text,
            None => r is None,
        },
{
    if body.len() < 10 {
        return None;
    }
    let rest = &body[10..body.len()];
    assert(rest@ =~= body@.skip(10));
    let tlvs = Tlv::parse_all(rest);
    let sender_bytes = match tlvs.get(&0x03) {
        Some(s) => s,
        None => return None,
    };
    let (sender, _) = match UserInfo::parse(sender_bytes.as_slice()) {
        Some(p) => p,
        None => return None,
    };
    let message_info = match tlvs.get(&MSG_TLV_INFO) {
        Some(m) => m,
        None => return None,
    };
    let inner = Tlv::parse_all(message_info.as_slice());
    let text_bytes = match inner.get(&MSG_TLV_TEXT) {
        Some(t) => t,
        None => return None,
    };
    let text = string_from_utf8_lossy(text_bytes.as_slice());
    Some(ChatMessage { from: sender.screen_name, text })
}

/// Whether some entry of `occ` has the same screen name as `name`.
pub open spec fn has_occupant(occ: Seq<OccupantView>, name: Seq<char>) -> bool {
    exists|i: int| 0 <= i < occ.len() && same_screen_name(#[trigger] occ[i].0, name)
}

/// `occ` after a joined notification listing `joined`: each newcomer is
/// appended, in order, unless someone with the same screen name is already
/// there (counting newcomers appended before it).
pub open spec fn add_occupants(occ: Seq<OccupantView>, joined: Seq<OccupantView>) -> Seq<OccupantView>
    decreases joined.len(),
{
    if joined.len() == 0 {
        occ
    } else {
        let cur = add_occupants(occ, joined.drop_last());
        if has_occupant(cur, joined.last().0) {
            cur
        } else {
            cur.push(joined.last())
        }
    }
}

/// `occ` after a left notification listing `left`: everyone whose screen
/// name matches someone in `left` is dropped; the rest keep their order.
pub open spec fn remove_occupants(occ: Seq<OccupantView>, left: Seq<OccupantView>) -> Seq<OccupantView>
    decreases occ.len(),
{
    if occ.len() == 0 {
        seq![]
    } else if has_occupant(left, occ.last().0) {
        remove_occupants(occ.drop_last(), left)
    } else {
        remove_occupants(occ.drop_last(), left).push(occ.last())
    }
}

/// No two occupants share a screen name.
pub open spec fn occupants_distinct(occ: Seq<OccupantView>) -> bool {
    forall|i: int, j: int| 0 <= i < j < occ.len() ==> !same_screen_name(#[trigger] occ[i].0, #[trigger] occ[j].0)
}

/// A joined notification keeps everyone already in the room, in place,
/// leaves no screen name twice in the list, and afterwards everyone it
/// names is in the room.
pub proof fn lemma_join_keeps_occupants_distinct(occ: Seq<OccupantView>, joined: Seq<OccupantView>)
    requires
        occupants_distinct(occ),
    ensures
        occupants_distinct(add_occupants(occ, joined)),
        add_occupants(occ, joined).len() >= occ.len(),
        forall|k: int| 0 <= k < occ.len() ==> #[trigger] add_occupants(occ, joined)[k] == occ[k],
        forall|k: int| 0 <= k < joined.len() ==> has_occupant(add_occupants(occ, joined), #[trigger] joined[k].0),
    decreases joined.len(),
{
    if joined.len() > 0 {
        let prev = joined.drop_last();
        lemma_join_keeps_occupants_distinct(occ, prev);
        let cur = add_occupants(occ, prev);
        let x = joined.last();
        let r = add_occupants(occ, joined);
        if !has_occupant(cur, x.0) {
            assert(r == cur.push(x));
            assert forall|i: int, j: int| 0 <= i < j < r.len() implies !same_screen_name(#[trigger] r[i].0, #[trigger] r[j].0) by {
                if j == r.len() - 1 {
                    assert(r[i] == cur[i]);
                    if same_screen_name(cur[i].0, x.0) {
                        assert(has_occupant(cur, x.0));
                    }
                } else {
                    assert(r[i] == cur[i] && r[j] == cur[j]);
                }
            }
            assert(r[r.len() - 1] == x);
            assert(same_screen_name(r[r.len() - 1].0, x.0));
        }
        assert forall|k: int| 0 <= k < joined.len() implies has_occupant(r, #[trigger] joined[k].0) by {
            if k < joined.len() - 1 {
                assert(joined[k] == prev[k]);
                assert(has_occupant(cur, prev[k].0));
                let i = choose|i: int| 0 <= i < cur.len() && same_screen_name(#[trigger] cur[i].0, prev[k].0);
                assert(r[i] == cur[i]);
            } else if !has_occupant(cur, x.0) {
                assert(r[r.len() - 1] == x);
                assert(same_screen_name(r[r.len() - 1].0, joined[k].0));
            }
        }
    }
}

/// A left notification keeps the list free of repeated screen names,
/// drops everyone it names, keeps everyone else, and adds no one.
pub proof fn lemma_leave_keeps_occupants_distinct(occ: Seq<OccupantView>, left: Seq<OccupantView>)
    requires
        occupants_distinct(occ),
    ensures
        occupants_distinct(remove_occupants(occ, left)),
        forall|k: int| 0 <= k < left.len() ==> !has_occupant(remove_occupants(occ, left), #[trigger] left[k].0),
        forall|i: int| 0 <= i < occ.len() && !has_occupant(left, #[trigger] occ[i].0) ==> remove_occupants(occ, left).contains(occ[i]),
        forall|x: OccupantView| #[trigger] remove_occupants(occ, left).contains(x) ==> occ.contains(x),
{
    lemma_remove_occupants_props(occ, left);
}

proof fn lemma_remove_occupants_props(occ: Seq<OccupantView>, left: Seq<OccupantView>)
    requires
        occupants_distinct(occ),
    ensures
        occupants_distinct(remove_occupants(occ, left)),
        forall|i: int| 0 <= i < remove_occupants(occ, left).len() ==> !has_occupant(left, #[trigger] remove_occupants(occ, left)[i].0),
        forall|k: int| 0 <= k < left.len() ==> !has_occupant(remove_occupants(occ, left), #[trigger] left[k].0),
        forall|i: int| 0 <= i < occ.len() && !has_occupant(left, #[trigger] occ[i].0) ==> remove_occupants(occ, left).contains(occ[i]),
        forall|x: OccupantView| #[trigger] remove_occupants(occ, left).contains(x) ==> occ.contains(x),
    decreases occ.len(),
{
    let r = remove_occupants(occ, left);
    if occ.len() > 0 {
        let p = occ.drop_last();
        assert(occupants_distinct(p)) by {
            assert forall|i: int, j: int| 0 <= i < j < p.len() implies !same_screen_name(#[trigger] p[i].0, #[trigger] p[j].0) by {
                assert(p[i] == occ[i] && p[j] == occ[j]);
            }
        }
        lemma_remove_occupants_props(p, left);
        let rp = remove_occupants(p, left);
        let x = occ.last();
        assert forall|y: OccupantView| #[trigger] rp.contains(y) implies occ.contains(y) by {
            assert(p.contains(y));
            let a = choose|a: int| 0 <= a < p.len() && p[a] == y;
            assert(occ[a] == y);
        }
        if !has_occupant(left, x.0) {
            assert(r == rp.push(x));
            assert forall|i: int, j: int| 0 <= i < j < r.len() implies !same_screen_name(#[trigger] r[i].0, #[trigger] r[j].0) by {
                if j == r.len() - 1 {
                    assert(r[i] == rp[i]);
                    assert(rp.contains(rp[i]));
                    assert(p.contains(rp[i]));
                    let a = choose|a: int| 0 <= a < p.len() && p[a] == rp[i];
                    assert(occ[a] == p[a]);
                    assert(occ[occ.len() - 1] == x);
                    assert(!same_screen_name(occ[a].0, occ[occ.len() - 1].0));
                    assert(r[j] == x);
                } else {
                    assert(r[i] == rp[i] && r[j] == rp[j]);
                }
            }
            assert forall|i: int| 0 <= i < r.len() implies !has_occupant(left, #[trigger] r[i].0) by {
                if i < r.len() - 1 {
                    assert(r[i] == rp[i]);
                }
            }
            assert forall|y: OccupantView| #[trigger] r.contains(y) implies occ.contains(y) by {
                let a = choose|a: int| 0 <= a < r.len() && r[a] == y;
                if a < r.len() - 1 {
                    assert(rp[a] == y);
                    assert(rp.contains(y));
                } else {
                    assert(occ[occ.len() - 1] == y);
                }
            }
            assert forall|i: int| 0 <= i < occ.len() && !has_occupant(left, #[trigger] occ[i].0) implies r.contains(occ[i]) by {
                if i < occ.len() - 1 {
                    assert(occ[i] == p[i]);
                    assert(rp.contains(p[i]));
                    let a = choose|a: int| 0 <= a < rp.len() && rp[a] == p[i];
                    assert(r[a] == rp[a]);
                } else {
                    assert(r[r.len() - 1] == x);
                }
            }
        } else {
            assert(r == rp);
            assert forall|i: int| 0 <= i < occ.len() && !has_occupant(left, #[trigger] occ[i].0) implies r.contains(occ[i]) by {
                if i < occ.len() - 1 {
                    assert(occ[i] == p[i]);
                }
            }
        }
    }
    assert forall|k: int| 0 <= k < left.len() implies !has_occupant(r, #[trigger] left[k].0) by {
        if has_occupant(r, left[k].0) {
            let i = choose|i: int| 0 <= i < r.len() && same_screen_name(#[trigger] r[i].0, left[k].0);
            assert(same_screen_name(left[k].0, r[i].0));
            assert(has_occupant(left, r[i].0));
        }
    }
}

/// The body of a message sent to the room with message cookie `cookie`:
/// cookie, channel 1, then TLV 0x05 wrapping the text TLV 0x01.
pub open spec fn chat_send_body(cookie: Seq<u8>, text: Seq<char>) -> Seq<u8> {
    cookie + be16_bytes(1) + tlv_bytes(MSG_TLV_INFO, tlv_bytes(MSG_TLV_TEXT, encode_utf8(text)))
}

/// What a frame on a room's connection is, for the room's state.
pub enum ChatEvent {
    /// Not a chat-family data SNAC, or one this client does not handle.
    Ignored,
    RoomInfo(Seq<u8>),
    Joined(Seq<u8>),
    Left(Seq<u8>),
    Message(Seq<u8>),
}

/// How `ChatRoomSession::dispatch_frame` classifies a frame.
pub open spec fn chat_event_of(channel: FlapChannel, payload: Seq<u8>) -> ChatEvent {
    match snac_header_of(payload) {
        Some(h) => if channel != FlapChannel::Data || h.family != family_code(SnacFamily::Chat) {
            ChatEvent::Ignored
        } else {
            let body = payload.skip(10);
            if h.subtype == ROOM_INFO_UPDATE {
                ChatEvent::RoomInfo(body)
            } else if h.subtype == USERS_JOINED {
                ChatEvent::Joined(body)
            } else if h.subtype == USERS_LEFT {
                ChatEvent::Left(body)
            } else if h.subtype == CHANNEL_MSG_TO_CLIENT {
                ChatEvent::Message(body)
            } else {
                ChatEvent::Ignored
            }
        },
        None => ChatEvent::Ignored,
    }
}

/// Messages as (sender, text).
pub open spec fn messages_view(v: Seq<ChatMessage>) -> Seq<(Seq<char>, Seq<char>)> {
    v.map_values(|m: ChatMessage| (m.from@, m.text@))
}

/// A joined room's state.
pub struct ChatRoomSession {
    pub ids: RequestIdCounter,
    pub handle: ChatRoomHandle,
    pub occupants: Vec<ChatOccupant>,
    pub messages: Vec<ChatMessage>,
    pub my_screen_name: String,
}

impl ChatRoomSession {
    /// A freshly joined room: no occupants or messages yet.
    pub fn new(handle: ChatRoomHandle, my_screen_name: String) -> (r: ChatRoomSession)
        ensures
            r.ids.0 == 0,
            r.handle == handle,
            r.occupants@.len() == 0,
            r.messages@.len() == 0,
            r.my_screen_name == my_screen_name,
    {
        ChatRoomSession { ids: RequestIdCounter::new(), handle, occupants: Vec::new(), messages: Vec::new(), my_screen_name }
    }

    fn add_joined(&mut self, joined: Vec<ChatOccupant>)
        ensures
            occupants_view(final(self).occupants@) == add_occupants(
                occupants_view(old(self).occupants@),
                occupants_view(joined@),
            ),
            final(self).handle == old(self).handle,
            final(self).messages@ == old(self).messages@,
            final(self).my_screen_name == old(self).my_screen_name,
            final(self).ids.0 == old(self).ids.0,
    {
        let ghost start = occupants_view(self.occupants@);
        let ghost jv = occupants_view(joined@);
        let mut i: usize = 0;
        while i < joined.len()
            invariant
                i <= joined@.len(),
                jv == occupants_view(joined@),
                occupants_view(self.occupants@) == add_occupants(start, jv.take(i as int)),
                self.handle == old(self).handle,
                self.messages@ == old(self).messages@,
                self.my_screen_name == old(self).my_screen_name,
                self.ids.0 == old(self).ids.0,
            decreases joined@.len() - i,
        {
            let newcomer = &joined[i];
            let mut found = false;
            let mut k: usize = 0;
            while k < self.occupants.len()
                invariant
                    k <= self.occupants@.len(),
                    found == exists|j: int| 0 <= j < k && same_screen_name(
                        #[trigger] occupants_view(self.occupants@)[j].0,
                        newcomer.screen_name@,
                    ),
                decreases self.occupants@.len() - k,
            {
                if screen_names_match(self.occupants[k].screen_name.as_str(), newcomer.screen_name.as_str()) {
                    found = true;
                }
                assert(occupants_view(self.occupants@)[k as int].0 == self.occupants@[k as int].screen_name@);
                k = k + 1;
            }
            proof {
                assert(jv.take(i + 1).drop_last() =~= jv.take(i as int));
                assert(jv.take(i + 1).last() == occupant_view(*newcomer));
            }
            if !found {
                let c = ChatOccupant {
                    screen_name: clone_string(&newcomer.screen_name),
                    warning_level: newcomer.warning_level,
                };
                self.occupants.push(c);
                assert(occupants_view(self.occupants@) =~= add_occupants(start, jv.take(i + 1)));
            }
            i = i + 1;
        }
        assert(jv.take(jv.len() as int) =~= jv);
    }

    fn remove_left(&mut self, left: Vec<ChatOccupant>)
        ensures
            occupants_view(final(self).occupants@) == remove_occupants(
                occupants_view(old(self).occupants@),
                occupants_view(left@),
            ),
            final(self).handle == old(self).handle,
            final(self).messages@ == old(self).messages@,
            final(self).my_screen_name == old(self).my_screen_name,
            final(self).ids.0 == old(self).ids.0,
    {
        let ghost ov = occupants_view(self.occupants@);
        let ghost lv = occupants_view(left@);
        let mut kept: Vec<ChatOccupant> = Vec::new();
        let mut i: usize = 0;
        while i < self.occupants.len()
            invariant
                i <= self.occupants@.len(),
                ov == occupants_view(self.occupants@),
                lv == occupants_view(left@),
                occupants_view(kept@) == remove_occupants(ov.take(i as int), lv),
            decreases self.occupants@.len() - i,
        {
            let o = &self.occupants[i];
            let mut gone = false;
            let mut k: usize = 0;
            while k < left.len()
                invariant
                    k <= left@.len(),
                    lv == occupants_view(left@),
                    gone == exists|j: int| 0 <= j < k && same_screen_name(#[trigger] lv[j].0, o.screen_name@),
                decreases left@.len() - k,
            {
                if screen_names_match(left[k].screen_name.as_str(), o.screen_name.as_str()) {
                    gone = true;
                }
                assert(lv[k as int].0 == left@[k as int].screen_name@);
                k = k + 1;
            }
            proof {
                assert(ov.take(i + 1).drop_last() =~= ov.take(i as int));
                assert(ov.take(i + 1).last() == occupant_view(*o));
            }
            if !gone {
                kept.push(ChatOccupant { screen_name: clone_string(&o.screen_name), warning_level: o.warning_level });
                assert(occupants_view(kept@) =~= remove_occupants(ov.take(i + 1), lv));
            }
            i = i + 1;
        }
        assert(ov.take(ov.len() as int) =~= ov);
        self.occupants = kept;
    }

    /// Applies one frame from the room's connection: a room-info update
    /// replaces the handle (when it parses), a joined notification adds
    /// newcomers, a left notification drops who left, and a message is
    /// appended. Anything else leaves the room as it was.
    pub fn dispatch_frame(&mut self, frame: FlapFrame)
        ensures
            final(self).my_screen_name == old(self).my_screen_name,
            final(self).ids.0 == old(self).ids.0,
            match chat_event_of(frame.channel, frame.payload@) {
                ChatEvent::RoomInfo(b) => {
                    &&& (match room_info_of(b) {
                        Some(i) => handle_is(final(self).handle, i),
                        None => final(self).handle == old(self).handle,
                    })
                    &&& final(self).occupants@ == old(self).occupants@
                    &&& final(self).messages@ == old(self).messages@
                },
                ChatEvent::Joined(b) => {
                    &&& occupants_view(final(self).occupants@) == add_occupants(
                        occupants_view(old(self).occupants@),
                        user_info_list_of(b),
                    )
                    &&& final(self).handle == old(self).handle
                    &&& final(self).messages@ == old(self).messages@
                },
                ChatEvent::Left(b) => {
                    &&& occupants_view(final(self).occupants@) == remove_occupants(
                        occupants_view(old(self).occupants@),
                        user_info_list_of(b),
                    )
                    &&& final(self).handle == old(self).handle
                    &&& final(self).messages@ == old(self).messages@
                },
                ChatEvent::Message(b) => {
                    &&& (match chat_message_of(b) {
                        Some(m) => messages_view(final(self).messages@) == messages_view(old(self).messages@).push(m),
                        None => final(self).messages@ == old(self).messages@,
                    })
                    &&& final(self).handle == old(self).handle
                    &&& final(self).occupants@ == old(self).occupants@
                },
                ChatEvent::Ignored => {
                    &&& final(self).handle == old(self).handle
                    &&& final(self).occupants@ == old(self).occupants@
                    &&& final(self).messages@ == old(self).messages@
                },
            },
    {
        if frame.channel != FlapChannel::Data {
            return;
        }
        let snac = match Snac::parse(frame.payload.as_slice()) {
            Some(s) => s,
            None => return,
        };
        assert(snac.body@ =~= frame.payload@.skip(10));
        match SnacFamily::from_u16(snac.header.family) {
            Some(SnacFamily::Chat) => {},
            _ => return,
        }
        let subtype = snac.header.subtype;
        if subtype == ROOM_INFO_UPDATE {
            if let Some(updated) = parse_chat_room_info_update(snac.body.as_slice()) {
                self.handle = updated;
            }
        } else if subtype == USERS_JOINED {
            let joined = parse_user_info_list(snac.body.as_slice());
            self.add_joined(joined);
        } else if subtype == USERS_LEFT {
            let left = parse_user_info_list(snac.body.as_slice());
            self.remove_left(left);
        } else if subtype == CHANNEL_MSG_TO_CLIENT {
            if let Some(message) = parse_chat_message(snac.body.as_slice()) {
                self.messages.push(message);
                assert(messages_view(self.messages@) =~= messages_view(old(self).messages@).push(
                    chat_message_of(frame.payload@.skip(10)).unwrap(),
                ));
            }
        }
    }

    /// The message SNAC for sending `text` to the room with a given message
    /// cookie; takes the next request id.
    pub fn message_snac_with_cookie(&mut self, text: &str, cookie: &[u8; 8]) -> (s: Snac)
        ensures
            final(self).ids.0 == (old(self).ids.0 + 1) % 0x1_0000_0000,
            s.header == (SnacHeader {
                family: family_code(SnacFamily::Chat),
                subtype: CHANNEL_MSG_TO_HOST,
                flags: 0,
                request_id: final(self).ids.0,
            }),
            s.body@ == chat_send_body(cookie@, text@),
            final(self).handle == old(self).handle,
            final(self).occupants@ == old(self).occupants@,
            final(self).messages@ == old(self).messages@,
            final(self).my_screen_name == old(self).my_screen_name,
    {
        let mut body: Vec<u8> = Vec::new();
        push_all(&mut body, cookie);
        push_be16(&mut body, 1);
        let tb = text.as_bytes();
        let text_tlv = Tlv::new(MSG_TLV_TEXT, copy_range(tb, 0, tb.len())).encode();
        let info = Tlv::new(MSG_TLV_INFO, text_tlv).encode();
        push_all(&mut body, info.as_slice());
        assert(body@ =~= chat_send_body(cookie@, text@));
        let request_id = self.ids.next();
        let header = SnacHeader { family: SnacFamily::Chat.as_u16(), subtype: CHANNEL_MSG_TO_HOST, flags: 0, request_id };
        Snac { header, body }
    }

    /// The message SNAC for sending `text` to the room, with a fresh random
    /// message cookie. The room does not echo a client's own messages back,
    /// so `messages` is left unchanged.
    pub fn send_message(&mut self, text: &str) -> (s: Snac)
        ensures
            final(self).ids.0 == (old(self).ids.0 + 1) % 0x1_0000_0000,
            s.header == (SnacHeader {
                family: family_code(SnacFamily::Chat),
                subtype: CHANNEL_MSG_TO_HOST,
                flags: 0,
                request_id: final(self).ids.0,
            }),
            exists|c: Seq<u8>| c.len() == 8 && s.body@ == chat_send_body(c, text@),
            final(self).handle == old(self).handle,
            final(self).occupants@ == old(self).occupants@,
            final(self).messages@ == old(self).messages@,
            final(self).my_screen_name == old(self).my_screen_name,
    {
        let cookie = crate::messaging::random_cookie();
        self.message_snac_with_cookie(text, &cookie)
    }
}

} // verus!
