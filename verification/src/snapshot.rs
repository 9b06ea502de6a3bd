//! Plain-data snapshots of a session and of a chat room, for a user
//! interface to render, and the label a room's window is known by.

use vstd::prelude::*;

use crate::chat::{messages_view, occupants_view, ChatMessage, ChatOccupant, ChatRoomSession};
use crate::chat_nav::ChatRoomHandle;
use crate::feedbag::Buddy;
use crate::messaging::{ChatInvite, IncomingIm};
use crate::session::{buddies_view, ims_view, opt_text, OscarSession};
use crate::text::{clone_string, str_chars, string_from_chars};

verus! {

/// What the user interface shows of a session.
pub struct SessionSnapshot {
    pub screen_name: String,
    pub buddies: Vec<Buddy>,
    pub incoming_messages: Vec<IncomingIm>,
    pub away_message: Option<String>,
    pub incoming_chat_invites: Vec<ChatInvite>,
}

/// What the user interface shows of one chat room; `closed` once the
/// room's connection has ended.
pub struct ChatRoomSnapshot {
    pub room_name: String,
    pub occupants: Vec<ChatOccupant>,
    pub messages: Vec<ChatMessage>,
    pub my_screen_name: String,
    pub closed: bool,
}

/// A room handle as (exchange, cookie, instance, room name).
pub open spec fn handle_view(h: ChatRoomHandle) -> (u16, Seq<char>, u16, Seq<char>) {
    (h.exchange, h.room_cookie@, h.instance, h.room_name@)
}

/// Invites as (sender, invitation text, room).
pub open spec fn invites_view(v: Seq<ChatInvite>) -> Seq<(Seq<char>, Seq<char>, (u16, Seq<char>, u16, Seq<char>))> {
    v.map_values(|i: ChatInvite| (i.from@, i.invitation_text@, handle_view(i.room)))
}

fn copy_text(o: &Option<String>) -> (r: Option<String>)
    ensures
        opt_text(r) == opt_text(*o),
{
    match o {
        Some(s) => Some(clone_string(s)),
        None => None,
    }
}

fn copy_buddies(v: &Vec<Buddy>) -> (r: Vec<Buddy>)
    ensures
        buddies_view(r@) == buddies_view(v@),
{
    let mut r: Vec<Buddy> = Vec::new();
    let mut i: usize = 0;
    while i < v.len()
        invariant
            i <= v@.len(),
            r@.len() == i,
            forall|k: int| 0 <= k < i ==> buddies_view(r@).index(k) == #[trigger] buddies_view(v@).index(k),
        decreases v@.len() - i,
    {
        let b = &v[i];
        r.push(Buddy {
            screen_name: clone_string(&b.screen_name),
            group_name: clone_string(&b.group_name),
            is_online: b.is_online,
            is_away: b.is_away,
            away_message: copy_text(&b.away_message),
            warning_level: b.warning_level,
            is_blocked: b.is_blocked,
        });
        i = i + 1;
    }
    assert(buddies_view(r@) =~= buddies_view(v@));
    r
}

fn copy_ims(v: &Vec<IncomingIm>) -> (r: Vec<IncomingIm>)
    ensures
        ims_view(r@) == ims_view(v@),
{
    let mut r: Vec<IncomingIm> = Vec::new();
    let mut i: usize = 0;
    while i < v.len()
        invariant
            i <= v@.len(),
            r@.len() == i,
            forall|k: int| 0 <= k < i ==> ims_view(r@).index(k) == #[trigger] ims_view(v@).index(k),
        decreases v@.len() - i,
    {
        r.push(IncomingIm { from: clone_string(&v[i].from), text: clone_string(&v[i].text) });
        i = i + 1;
    }
    assert(ims_view(r@) =~= ims_view(v@));
    r
}

fn copy_handle(h: &ChatRoomHandle) -> (r: ChatRoomHandle)
    ensures
        handle_view(r) == handle_view(*h),
{
    ChatRoomHandle {
        exchange: h.exchange,
        room_cookie: clone_string(&h.room_cookie),
        instance: h.instance,
        room_name: clone_string(&h.room_name),
    }
}

fn copy_invites(v: &Vec<ChatInvite>) -> (r: Vec<ChatInvite>)
    ensures
        invites_view(r@) == invites_view(v@),
{
    let mut r: Vec<ChatInvite> = Vec::new();
    let mut i: usize = 0;
    while i < v.len()
        invariant
            i <= v@.len(),
            r@.len() == i,
            forall|k: int| 0 <= k < i ==> invites_view(r@).index(k) == #[trigger] invites_view(v@).index(k),
        decreases v@.len() - i,
    {
        r.push(ChatInvite {
            from: clone_string(&v[i].from),
            invitation_text: clone_string(&v[i].invitation_text),
            room: copy_handle(&v[i].room),
        });
        i = i + 1;
    }
    assert(invites_view(r@) =~= invites_view(v@));
    r
}

fn copy_occupants(v: &Vec<ChatOccupant>) -> (r: Vec<ChatOccupant>)
    ensures
        occupants_view(r@) == occupants_view(v@),
{
    let mut r: Vec<ChatOccupant> = Vec::new();
    let mut i: usize = 0;
    while i < v.len()
        invariant
            i <= v@.len(),
            r@.len() == i,
            forall|k: int| 0 <= k < i ==> occupants_view(r@).index(k) == #[trigger] occupants_view(v@).index(k),
        decreases v@.len() - i,
    {
        r.push(ChatOccupant { screen_name: clone_string(&v[i].screen_name), warning_level: v[i].warning_level });
        i = i + 1;
    }
    assert(occupants_view(r@) =~= occupants_view(v@));
    r
}

fn copy_messages(v: &Vec<ChatMessage>) -> (r: Vec<ChatMessage>)
    ensures
        messages_view(r@) == messages_view(v@),
{
    let mut r: Vec<ChatMessage> = Vec::new();
    let mut i: usize = 0;
    while i < v.len()
        invariant
            i <= v@.len(),
            r@.len() == i,
            forall|k: int| 0 <= k < i ==> messages_view(r@).index(k) == #[trigger] messages_view(v@).index(k),
        decreases v@.len() - i,
    {
        r.push(ChatMessage { from: clone_string(&v[i].from), text: clone_string(&v[i].text) });
        i = i + 1;
    }
    assert(messages_view(r@) =~= messages_view(v@));
    r
}

impl SessionSnapshot {
    /// The session's name, buddy list, received messages, own away message
    /// and received invites, copied out.
    pub fn from(session: &OscarSession) -> (r: SessionSnapshot)
        ensures
            r.screen_name@ == session.screen_name@,
            buddies_view(r.buddies@) == buddies_view(session.buddies@),
            ims_view(r.incoming_messages@) == ims_view(session.incoming_messages@),
            opt_text(r.away_message) == opt_text(session.away_message),
            invites_view(r.incoming_chat_invites@) == invites_view(session.incoming_chat_invites@),
    {
        SessionSnapshot {
            screen_name: clone_string(&session.screen_name),
            buddies: copy_buddies(&session.buddies),
            incoming_messages: copy_ims(&session.incoming_messages),
            away_message: copy_text(&session.away_message),
            incoming_chat_invites: copy_invites(&session.incoming_chat_invites),
        }
    }
}

impl ChatRoomSnapshot {
    /// The room's name, occupants, received messages and own screen name,
    /// copied out, with `closed` as given.
    pub fn from_room(room: &ChatRoomSession, closed: bool) -> (r: ChatRoomSnapshot)
        ensures
            r.room_name@ == room.handle.room_name@,
            occupants_view(r.occupants@) == occupants_view(room.occupants@),
            messages_view(r.messages@) == messages_view(room.messages@),
            r.my_screen_name@ == room.my_screen_name@,
            r.closed == closed,
    {
        ChatRoomSnapshot {
            room_name: clone_string(&room.handle.room_name),
            occupants: copy_occupants(&room.occupants),
            messages: copy_messages(&room.messages),
            my_screen_name: clone_string(&room.my_screen_name),
            closed,
        }
    }
}

/// Whether `c` is kept in a room label: an ASCII letter or digit, `-`
/// or `_`.
pub open spec fn label_keeps(c: char) -> bool {
    ||| 'a' <= c <= 'z'
    ||| 'A' <= c <= 'Z'
    ||| '0' <= c <= '9'
    ||| c == '-'
    ||| c == '_'
}

/// What `c` becomes in a room label: kept characters with ASCII letters
/// lowercased, anything else `_`.
pub open spec fn label_char(c: char) -> char {
    if 'A' <= c <= 'Z' {
        ((c as u32) + 32) as char
    } else if label_keeps(c) {
        c
    } else {
        '_'
    }
}

/// The window label of a room: `chat-` and the room cookie, character by
/// character through `label_char`.
pub open spec fn room_label(cookie: Seq<char>) -> Seq<char> {
    seq!['c', 'h', 'a', 't', '-'] + cookie.map_values(|c: char| label_char(c))
}

fn sanitize_char(c: char) -> (r: char)
    ensures
        r == label_char(c),
{
    if 'A' <= c && c <= 'Z' {
        ((c as u8) + 32) as char
    } else if ('a' <= c && c <= 'z') || ('0' <= c && c <= '9') || c == '-' || c == '_' {
        c
    } else {
        '_'
    }
}

/// A label for a room, made from its cookie (`"4-0-MyRoom"` gives
/// `"chat-4-0-myroom"`), safe as a window name and the same for the same
/// cookie on every call.
pub fn room_label_for(room_cookie: &str) -> (r: String)
    ensures
        r@ == room_label(room_cookie@),
{
    let cs = str_chars(room_cookie);
    let mut out: Vec<char> = vec!['c', 'h', 'a', 't', '-'];
    let mut i: usize = 0;
    while i < cs.len()
        invariant
            cs@ == room_cookie@,
            i <= cs@.len(),
            out@ == seq!['c', 'h', 'a', 't', '-'] + cs@.take(i as int).map_values(|c: char| label_char(c)),
        decreases cs@.len() - i,
    {
        out.push(sanitize_char(cs[i]));
        i = i + 1;
        assert(cs@.take(i as int) =~= cs@.take(i - 1).push(cs@[i - 1]));
        assert(cs@.take(i as int).map_values(|c: char| label_char(c)) =~= cs@.take(i - 1).map_values(
            |c: char| label_char(c),
        ).push(label_char(cs@[i - 1])));
    }
    assert(cs@.take(cs@.len() as int) =~= cs@);
    string_from_chars(out.as_slice())
}

} // verus!
