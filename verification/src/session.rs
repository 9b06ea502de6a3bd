//! The state of an authenticated session on the BOS connection: the synced
//! buddy list, your away message, received messages and invites, and the
//! bookkeeping that matches replies to requests. Every user action returns
//! the SNACs to send; every frame the server pushes updates the state.

use std::collections::HashMap;

use vstd::prelude::*;
use vstd::utf8::encode_utf8;

use crate::bytes::{be16_at, be16_bytes, be32_at, copy_range, push_all, push_be16, read_be16, read_be32};
use crate::chat_nav::ChatRoomHandle;
use crate::client::RequestIdCounter;
use crate::feedbag::{encoded_item, tlv_pairs, Buddy, FeedbagItem};
use crate::flap::FlapFrame;
use crate::messaging::{ChatInvite, IncomingIm};
use crate::server_address::ServerAddress;
use crate::snac::{family_code, tlv_bytes, Snac, SnacFamily, SnacHeader, Tlv};
use crate::text::{clone_string, same_screen_name, screen_names_match};

verus! {

broadcast use vstd::std_specs::hash::group_hash_axioms;

// Feedbag subtypes.
pub const FEEDBAG_QUERY: u16 = 0x04;

pub const FEEDBAG_REPLY: u16 = 0x06;

pub const FEEDBAG_USE: u16 = 0x07;

pub const FEEDBAG_INSERT_ITEM: u16 = 0x08;

pub const FEEDBAG_DELETE_ITEM: u16 = 0x0A;

pub const FEEDBAG_STATUS: u16 = 0x0E;

// Locate subtypes and TLVs.
pub const LOCATE_SET_INFO: u16 = 0x04;

pub const LOCATE_USER_INFO_QUERY: u16 = 0x05;

pub const LOCATE_USER_INFO_REPLY: u16 = 0x06;

pub const AWAY_ENCODING: u16 = 0x03;

pub const AWAY_TEXT: u16 = 0x04;

/// "Give me their away message" in a user-info query.
pub const REQUEST_TYPE_UNAVAILABLE: u16 = 0x0002;

/// An authenticated session's state.
pub struct OscarSession {
    pub screen_name: String,
    /// The synced buddy list, kept current by feedbag and presence frames.
    pub buddies: Vec<Buddy>,
    /// The raw feedbag items as last synced, plus local inserts.
    pub feedbag_items: Vec<FeedbagItem>,
    /// Your own away message; `None` means available.
    pub away_message: Option<String>,
    /// Instant messages received so far, in arrival order.
    pub incoming_messages: Vec<IncomingIm>,
    /// Chat-room invites received so far, in arrival order.
    pub incoming_chat_invites: Vec<ChatInvite>,
    pub ids: RequestIdCounter,
    pub feedbag_item_id_counter: u16,
    /// Targets of warnings sent, by the request id of the warning SNAC.
    pub pending_warnings: HashMap<u32, String>,
    /// Service redirect replies received, by request id, until claimed.
    pub pending_service_redirect_replies: HashMap<u32, (ServerAddress, Vec<u8>)>,
}

// Views.

/// A buddy as (screen name, group name, online, away, away message,
/// warning level, blocked).
pub type BuddyView = (Seq<char>, Seq<char>, bool, bool, Option<Seq<char>>, u16, bool);

pub open spec fn opt_text(o: Option<String>) -> Option<Seq<char>> {
    match o {
        Some(s) => Some(s@),
        None => None,
    }
}

pub open spec fn buddy_view(b: Buddy) -> BuddyView {
    (b.screen_name@, b.group_name@, b.is_online, b.is_away, opt_text(b.away_message), b.warning_level, b.is_blocked)
}

pub open spec fn buddies_view(v: Seq<Buddy>) -> Seq<BuddyView> {
    v.map_values(|b: Buddy| buddy_view(b))
}

/// A buddy just added locally: offline, available, unwarned, unblocked.
pub open spec fn new_buddy_view(screen_name: Seq<char>, group_name: Seq<char>) -> BuddyView {
    (screen_name, group_name, false, false, None, 0, false)
}

// What each operation leaves alone.

pub open spec fn keeps_buddies(a: OscarSession, b: OscarSession) -> bool {
    b.buddies@ == a.buddies@
}

pub open spec fn keeps_items(a: OscarSession, b: OscarSession) -> bool {
    b.feedbag_items@ == a.feedbag_items@
}

pub open spec fn keeps_ids(a: OscarSession, b: OscarSession) -> bool {
    b.ids.0 == a.ids.0
}

pub open spec fn keeps_counter(a: OscarSession, b: OscarSession) -> bool {
    b.feedbag_item_id_counter == a.feedbag_item_id_counter
}

pub open spec fn keeps_away(a: OscarSession, b: OscarSession) -> bool {
    b.away_message == a.away_message
}

pub open spec fn keeps_inbox(a: OscarSession, b: OscarSession) -> bool {
    &&& b.incoming_messages@ == a.incoming_messages@
    &&& b.incoming_chat_invites@ == a.incoming_chat_invites@
}

pub open spec fn keeps_pending(a: OscarSession, b: OscarSession) -> bool {
    &&& b.pending_warnings@ == a.pending_warnings@
    &&& b.pending_service_redirect_replies@ == a.pending_service_redirect_replies@
}

pub open spec fn keeps_identity(a: OscarSession, b: OscarSession) -> bool {
    b.screen_name == a.screen_name
}

/// The next request id after `id`.
pub open spec fn next_id(id: u32) -> u32 {
    ((id + 1) % 0x1_0000_0000) as u32
}

/// A SNAC header with no flags.
pub open spec fn header_for(family: SnacFamily, subtype: u16, request_id: u32) -> SnacHeader {
    SnacHeader { family: family_code(family), subtype, flags: 0, request_id }
}

// Updating the first buddy with a given screen name.

/// A change to one buddy.
pub enum BuddyUpdate {
    Online(bool),
    Away(bool),
    Warning(u16),
    Blocked(bool),
    AwayMessage(Option<String>),
}

/// `b` after the change `u`. Going offline also clears the away flag.
pub open spec fn updated_view(b: BuddyView, u: BuddyUpdate) -> BuddyView {
    match u {
        BuddyUpdate::Online(on) => (b.0, b.1, on, if on { b.3 } else { false }, b.4, b.5, b.6),
        BuddyUpdate::Away(away) => (b.0, b.1, b.2, away, b.4, b.5, b.6),
        BuddyUpdate::Warning(w) => (b.0, b.1, b.2, b.3, b.4, w, b.6),
        BuddyUpdate::Blocked(bl) => (b.0, b.1, b.2, b.3, b.4, b.5, bl),
        BuddyUpdate::AwayMessage(m) => (b.0, b.1, b.2, b.3, opt_text(m), b.5, b.6),
    }
}

/// The index of the first buddy whose screen name matches `name`.
pub open spec fn first_buddy(bs: Seq<BuddyView>, name: Seq<char>) -> Option<int>
    decreases bs.len(),
{
    if bs.len() == 0 {
        None
    } else if same_screen_name(bs[0].0, name) {
        Some(0)
    } else {
        match first_buddy(bs.drop_first(), name) {
            Some(i) => Some(i + 1),
            None => None,
        }
    }
}

/// The buddy list after applying `u` to the first buddy matching `name`
/// (unchanged when none does).
pub open spec fn buddies_after(bs: Seq<BuddyView>, name: Seq<char>, u: BuddyUpdate) -> Seq<BuddyView> {
    match first_buddy(bs, name) {
        Some(i) => bs.update(i, updated_view(bs[i], u)),
        None => bs,
    }
}

proof fn lemma_first_buddy_bounds(bs: Seq<BuddyView>, name: Seq<char>)
    ensures
        first_buddy(bs, name) matches Some(i) ==> 0 <= i < bs.len() && same_screen_name(bs[i].0, name),
    decreases bs.len(),
{
    if bs.len() > 0 && !same_screen_name(bs[0].0, name) {
        lemma_first_buddy_bounds(bs.drop_first(), name);
    }
}

/// The maximum item id among `items`, 0 when there are none.
pub open spec fn max_item_id(items: Seq<FeedbagItem>) -> u16
    decreases items.len(),
{
    if items.len() == 0 {
        0
    } else {
        let m = max_item_id(items.drop_last());
        if items.last().item_id > m {
            items.last().item_id
        } else {
            m
        }
    }
}

proof fn lemma_max_item_id_bound(items: Seq<FeedbagItem>)
    ensures
        forall|i: int| 0 <= i < items.len() ==> #[trigger] items[i].item_id <= max_item_id(items),
    decreases items.len(),
{
    if items.len() > 0 {
        lemma_max_item_id_bound(items.drop_last());
        assert forall|i: int| 0 <= i < items.len() implies #[trigger] items[i].item_id <= max_item_id(items) by {
            if i < items.len() - 1 {
                assert(items[i] == items.drop_last()[i]);
            }
        }
    }
}

/// The feedbag item id handed out next: one past the larger of the counter
/// and every item id in use, wrapping after 65535.
pub open spec fn next_item_id(counter: u16, items: Seq<FeedbagItem>) -> u16 {
    let m = if counter > max_item_id(items) {
        counter
    } else {
        max_item_id(items)
    };
    ((m + 1) % 65536) as u16
}

/// A freshly handed-out feedbag item id collides with no item in use and
/// is past the counter, as long as neither the counter nor any item id in
/// use is already 65535 (then the id wraps to 0).
pub proof fn lemma_next_item_id_is_fresh(counter: u16, items: Seq<FeedbagItem>)
    requires
        counter < 65535,
        forall|i: int| 0 <= i < items.len() ==> #[trigger] items[i].item_id < 65535,
    ensures
        forall|i: int| 0 <= i < items.len() ==> #[trigger] items[i].item_id != next_item_id(counter, items),
        next_item_id(counter, items) > counter,
        next_item_id(counter, items) > 0,
{
    lemma_max_item_id_bound(items);
    lemma_max_item_id_is_some_id(items);
}

proof fn lemma_max_item_id_is_some_id(items: Seq<FeedbagItem>)
    ensures
        max_item_id(items) == 0 || exists|i: int| 0 <= i < items.len() && #[trigger] items[i].item_id == max_item_id(items),
    decreases items.len(),
{
    if items.len() > 0 {
        lemma_max_item_id_is_some_id(items.drop_last());
        if items.last().item_id <= max_item_id(items.drop_last()) && max_item_id(items.drop_last()) != 0 {
            let i = choose|i: int| 0 <= i < items.drop_last().len() && #[trigger] items.drop_last()[i].item_id == max_item_id(items.drop_last());
            assert(items[i] == items.drop_last()[i]);
        } else {
            assert(items[items.len() - 1] == items.last());
        }
    }
}

/// The UTF-8 bytes of `s`.
fn text_bytes(s: &str) -> (r: Vec<u8>)
    ensures
        r@ == encode_utf8(s@),
{
    let b = s.as_bytes();
    copy_range(b, 0, b.len())
}

impl OscarSession {
    /// A just-authenticated session with nothing synced yet.
    pub fn new(screen_name: String) -> (r: OscarSession)
        ensures
            r.screen_name == screen_name,
            r.buddies@.len() == 0,
            r.feedbag_items@.len() == 0,
            r.away_message is None,
            r.incoming_messages@.len() == 0,
            r.incoming_chat_invites@.len() == 0,
            r.ids.0 == 0,
            r.feedbag_item_id_counter == 1,
            r.pending_warnings@ == Map::<u32, String>::empty(),
            r.pending_service_redirect_replies@ == Map::<u32, (ServerAddress, Vec<u8>)>::empty(),
    {
        OscarSession {
            screen_name,
            buddies: Vec::new(),
            feedbag_items: Vec::new(),
            away_message: None,
            incoming_messages: Vec::new(),
            incoming_chat_invites: Vec::new(),
            ids: RequestIdCounter::new(),
            feedbag_item_id_counter: 1,
            pending_warnings: HashMap::new(),
            pending_service_redirect_replies: HashMap::new(),
        }
    }

    pub fn next_request_id(&mut self) -> (r: u32)
        ensures
            r == next_id(old(self).ids.0),
            final(self).ids.0 == r,
            keeps_buddies(*old(self), *final(self)),
            keeps_items(*old(self), *final(self)),
            keeps_counter(*old(self), *final(self)),
            keeps_away(*old(self), *final(self)),
            keeps_inbox(*old(self), *final(self)),
            keeps_pending(*old(self), *final(self)),
            keeps_identity(*old(self), *final(self)),
    {
        self.ids.next()
    }

    /// A feedbag item id that no current item uses: one past the larger of
    /// the counter and every existing item id.
    pub fn next_feedbag_item_id(&mut self) -> (r: u16)
        ensures
            r == next_item_id(old(self).feedbag_item_id_counter, old(self).feedbag_items@),
            final(self).feedbag_item_id_counter == r,
            keeps_buddies(*old(self), *final(self)),
            keeps_items(*old(self), *final(self)),
            keeps_ids(*old(self), *final(self)),
            keeps_away(*old(self), *final(self)),
            keeps_inbox(*old(self), *final(self)),
            keeps_pending(*old(self), *final(self)),
            keeps_identity(*old(self), *final(self)),
    {
        let mut existing_max: u16 = 0;
        let mut i: usize = 0;
        while i < self.feedbag_items.len()
            invariant
                i <= self.feedbag_items@.len(),
                existing_max == max_item_id(self.feedbag_items@.take(i as int)),
            decreases self.feedbag_items@.len() - i,
        {
            assert(self.feedbag_items@.take(i + 1).drop_last() =~= self.feedbag_items@.take(i as int));
            if self.feedbag_items[i].item_id > existing_max {
                existing_max = self.feedbag_items[i].item_id;
            }
            i = i + 1;
        }
        assert(self.feedbag_items@.take(self.feedbag_items@.len() as int) =~= self.feedbag_items@);
        let m = if self.feedbag_item_id_counter > existing_max {
            self.feedbag_item_id_counter
        } else {
            existing_max
        };
        self.feedbag_item_id_counter = if m == u16::MAX {
            0
        } else {
            m + 1
        };
        self.feedbag_item_id_counter
    }

    /// Applies `u` to the first buddy whose screen name matches `name`;
    /// does nothing when none does.
    pub fn update_first_buddy(&mut self, name: &str, u: BuddyUpdate)
        ensures
            buddies_view(final(self).buddies@) == buddies_after(buddies_view(old(self).buddies@), name@, u),
            final(self).buddies@.len() == old(self).buddies@.len(),
            first_buddy(buddies_view(old(self).buddies@), name@) is None ==> final(self).buddies@ == old(self).buddies@,
            keeps_items(*old(self), *final(self)),
            keeps_ids(*old(self), *final(self)),
            keeps_counter(*old(self), *final(self)),
            keeps_away(*old(self), *final(self)),
            keeps_inbox(*old(self), *final(self)),
            keeps_pending(*old(self), *final(self)),
            keeps_identity(*old(self), *final(self)),
    {
        let ghost bv = buddies_view(self.buddies@);
        let mut i: usize = 0;
        assert(bv.skip(0) =~= bv);
        while i < self.buddies.len()
            invariant
                i <= self.buddies@.len(),
                bv == buddies_view(self.buddies@),
                first_buddy(bv, name@) == (match first_buddy(bv.skip(i as int), name@) {
                    Some(j) => Some(j + i),
                    None => None::<int>,
                }),
            ensures
                i < self.buddies@.len() ==> same_screen_name(bv[i as int].0, name@),
                bv == buddies_view(self.buddies@),
                first_buddy(bv, name@) == (match first_buddy(bv.skip(i as int), name@) {
                    Some(j) => Some(j + i),
                    None => None::<int>,
                }),
            decreases self.buddies@.len() - i,
        {
            assert(bv.skip(i as int)[0] == bv[i as int]);
            assert(bv.skip(i as int).drop_first() =~= bv.skip(i + 1));
            if screen_names_match(self.buddies[i].screen_name.as_str(), name) {
                break;
            }
            i = i + 1;
        }
        if i == self.buddies.len() {
            assert(bv.skip(i as int) =~= seq![]);
            return;
        }
        assert(bv.skip(i as int)[0] == bv[i as int]);
        assert(first_buddy(bv, name@) == Some(i as int));
        let mut b = self.buddies.remove(i);
        match u {
            BuddyUpdate::Online(on) => {
                b.is_online = on;
                if !on {
                    b.is_away = false;
                }
            },
            BuddyUpdate::Away(away) => {
                b.is_away = away;
            },
            BuddyUpdate::Warning(w) => {
                b.warning_level = w;
            },
            BuddyUpdate::Blocked(bl) => {
                b.is_blocked = bl;
            },
            BuddyUpdate::AwayMessage(m) => {
                b.away_message = m;
            },
        }
        self.buddies.insert(i, b);
        assert(buddies_view(self.buddies@) =~= bv.update(i as int, updated_view(bv[i as int], u)));
    }
}


// Feedbag item lookups.

/// The index of the first item of class `class` whose name matches `name`.
pub open spec fn first_item(items: Seq<FeedbagItem>, class: u16, name: Seq<char>) -> Option<int>
    decreases items.len(),
{
    if items.len() == 0 {
        None
    } else if items[0].class_id == class && same_screen_name(items[0].name@, name) {
        Some(0)
    } else {
        match first_item(items.drop_first(), class, name) {
            Some(i) => Some(i + 1),
            None => None,
        }
    }
}

proof fn lemma_first_item_bounds(items: Seq<FeedbagItem>, class: u16, name: Seq<char>)
    ensures
        first_item(items, class, name) matches Some(i) ==> 0 <= i < items.len() && items[i].class_id == class
            && same_screen_name(items[i].name@, name),
        first_item(items, class, name) is None ==> forall|i: int|
            0 <= i < items.len() ==> !(#[trigger] items[i].class_id == class && same_screen_name(items[i].name@, name)),
    decreases items.len(),
{
    if items.len() > 0 {
        lemma_first_item_bounds(items.drop_first(), class, name);
        if first_item(items, class, name) is None {
            assert forall|i: int| 0 <= i < items.len() implies !(#[trigger] items[i].class_id == class
                && same_screen_name(items[i].name@, name)) by {
                if i > 0 {
                    assert(items[i] == items.drop_first()[i - 1]);
                }
            }
        }
    }
}

/// `items` without every item of class `class` whose name matches `name`.
pub open spec fn without_items(items: Seq<FeedbagItem>, class: u16, name: Seq<char>) -> Seq<FeedbagItem>
    decreases items.len(),
{
    if items.len() == 0 {
        seq![]
    } else {
        let rest = without_items(items.drop_last(), class, name);
        if items.last().class_id == class && same_screen_name(items.last().name@, name) {
            rest
        } else {
            rest.push(items.last())
        }
    }
}

proof fn lemma_first_item_finds(items: Seq<FeedbagItem>, class: u16, name: Seq<char>, k: int)
    requires
        0 <= k < items.len(),
        items[k].class_id == class,
        same_screen_name(items[k].name@, name),
    ensures
        first_item(items, class, name) is Some,
    decreases k,
{
    if k > 0 && !(items[0].class_id == class && same_screen_name(items[0].name@, name)) {
        assert(items.drop_first()[k - 1] == items[k]);
        lemma_first_item_finds(items.drop_first(), class, name, k - 1);
    }
}

proof fn lemma_without_items_keeps_all(items: Seq<FeedbagItem>, class: u16, name: Seq<char>)
    requires
        forall|i: int|
            0 <= i < items.len() ==> !(#[trigger] items[i].class_id == class && same_screen_name(items[i].name@, name)),
    ensures
        without_items(items, class, name) == items,
    decreases items.len(),
{
    if items.len() > 0 {
        let p = items.drop_last();
        assert forall|i: int| 0 <= i < p.len() implies !(#[trigger] p[i].class_id == class && same_screen_name(
            p[i].name@,
            name,
        )) by {
            assert(p[i] == items[i]);
        }
        lemma_without_items_keeps_all(p, class, name);
        assert(items[items.len() - 1] == items.last());
        assert(p.push(items.last()) =~= items);
    }
}

/// After every item of a class matching a name is taken out, none is
/// left to find.
pub proof fn lemma_without_items_leaves_none(items: Seq<FeedbagItem>, class: u16, name: Seq<char>)
    ensures
        first_item(without_items(items, class, name), class, name) is None,
    decreases items.len(),
{
    let r = without_items(items, class, name);
    if items.len() > 0 {
        let p = items.drop_last();
        lemma_without_items_leaves_none(p, class, name);
        let rp = without_items(p, class, name);
        lemma_first_item_bounds(rp, class, name);
        if !(items.last().class_id == class && same_screen_name(items.last().name@, name)) {
            assert(r == rp.push(items.last()));
            if first_item(r, class, name) is Some {
                lemma_first_item_bounds(r, class, name);
                let k = first_item(r, class, name).unwrap();
                if k < rp.len() {
                    assert(r[k] == rp[k]);
                }
            }
        }
    }
}

proof fn lemma_first_buddy_same_names(bs: Seq<BuddyView>, i: int, v: BuddyView, name: Seq<char>)
    requires
        0 <= i < bs.len(),
        v.0 == bs[i].0,
    ensures
        first_buddy(bs.update(i, v), name) == first_buddy(bs, name),
    decreases bs.len(),
{
    let u = bs.update(i, v);
    assert(u[0].0 == bs[0].0);
    if bs.len() > 1 && i > 0 {
        assert(u.drop_first() =~= bs.drop_first().update(i - 1, v));
        lemma_first_buddy_same_names(bs.drop_first(), i - 1, v, name);
    } else if i == 0 {
        assert(u.drop_first() =~= bs.drop_first());
    }
}

/// Blocking a screen name that is not on the block list and then
/// unblocking it: blocking puts a deny item for it on the list, unblocking
/// takes the feedbag items back to what they were, and the buddy list too
/// when the first buddy of that name was not marked blocked.
pub proof fn lemma_block_then_unblock(
    items: Seq<FeedbagItem>,
    bs: Seq<BuddyView>,
    name: Seq<char>,
    deny: FeedbagItem,
    id: u16,
)
    requires
        first_item(items, FeedbagItem::CLASS_DENY, name) is None,
        fresh_item(deny, name, 0, id, FeedbagItem::CLASS_DENY),
        first_buddy(bs, name) matches Some(i) ==> !bs[i].6,
    ensures
        first_item(items.push(deny), FeedbagItem::CLASS_DENY, name) is Some,
        without_items(items.push(deny), FeedbagItem::CLASS_DENY, name) == items,
        buddies_after(
            buddies_after(bs, name, BuddyUpdate::Blocked(true)),
            name,
            BuddyUpdate::Blocked(false),
        ) == bs,
{
    let all = items.push(deny);
    lemma_first_item_finds(all, FeedbagItem::CLASS_DENY, name, items.len() as int);
    lemma_first_item_bounds(items, FeedbagItem::CLASS_DENY, name);
    assert(all.drop_last() =~= items);
    lemma_without_items_keeps_all(items, FeedbagItem::CLASS_DENY, name);
    lemma_first_buddy_bounds(bs, name);
    match first_buddy(bs, name) {
        Some(i) => {
            let b1 = bs.update(i, updated_view(bs[i], BuddyUpdate::Blocked(true)));
            lemma_first_buddy_same_names(bs, i, updated_view(bs[i], BuddyUpdate::Blocked(true)), name);
            assert(b1.update(i, updated_view(b1[i], BuddyUpdate::Blocked(false))) =~= bs);
        },
        None => {},
    }
}

/// Once a deny item for a screen name is recorded, the name is on the
/// block list, so blocking it again sends nothing and changes nothing
/// (`add_to_block_list` returns `None` whenever a deny item matches).
pub proof fn lemma_block_is_idempotent(items: Seq<FeedbagItem>, name: Seq<char>, deny: FeedbagItem, id: u16)
    requires
        fresh_item(deny, name, 0, id, FeedbagItem::CLASS_DENY),
    ensures
        first_item(items.push(deny), FeedbagItem::CLASS_DENY, name) is Some,
{
    lemma_first_item_finds(items.push(deny), FeedbagItem::CLASS_DENY, name, items.len() as int);
}

/// `bs` without every buddy whose screen name matches `name`.
pub open spec fn without_buddy(bs: Seq<BuddyView>, name: Seq<char>) -> Seq<BuddyView>
    decreases bs.len(),
{
    if bs.len() == 0 {
        seq![]
    } else {
        let rest = without_buddy(bs.drop_last(), name);
        if same_screen_name(bs.last().0, name) {
            rest
        } else {
            rest.push(bs.last())
        }
    }
}

/// After a buddy is removed, no buddy of that screen name is left.
pub proof fn lemma_without_buddy_leaves_none(bs: Seq<BuddyView>, name: Seq<char>)
    ensures
        first_buddy(without_buddy(bs, name), name) is None,
    decreases bs.len(),
{
    let r = without_buddy(bs, name);
    if bs.len() > 0 {
        let p = bs.drop_last();
        lemma_without_buddy_leaves_none(p, name);
        let rp = without_buddy(p, name);
        lemma_first_buddy_none(rp, name);
        if !same_screen_name(bs.last().0, name) {
            assert(r == rp.push(bs.last()));
            if first_buddy(r, name) is Some {
                lemma_first_buddy_bounds(r, name);
                let k = first_buddy(r, name).unwrap();
                if k < rp.len() {
                    assert(r[k] == rp[k]);
                }
            }
        }
    }
}

proof fn lemma_first_buddy_none(bs: Seq<BuddyView>, name: Seq<char>)
    ensures
        first_buddy(bs, name) is None ==> forall|i: int| 0 <= i < bs.len() ==> !same_screen_name(#[trigger] bs[i].0, name),
    decreases bs.len(),
{
    if bs.len() > 0 {
        lemma_first_buddy_none(bs.drop_first(), name);
        if first_buddy(bs, name) is None {
            assert forall|i: int| 0 <= i < bs.len() implies !same_screen_name(#[trigger] bs[i].0, name) by {
                if i > 0 {
                    assert(bs[i] == bs.drop_first()[i - 1]);
                }
            }
        }
    }
}

/// Removing a buddy keeps every other buddy, in order: the list after
/// removing `name` is the list filtered down to the buddies whose screen
/// name does not match; so each buddy of another name is still there, and
/// every buddy left was in the list and has another name.
pub proof fn lemma_without_buddy_keeps_the_others(bs: Seq<BuddyView>, name: Seq<char>)
    ensures
        without_buddy(bs, name) == bs.filter(|b: BuddyView| !same_screen_name(b.0, name)),
        forall|i: int| 0 <= i < bs.len() && !same_screen_name(bs[i].0, name) ==> #[trigger] without_buddy(bs, name).contains(bs[i]),
        forall|i: int| 0 <= i < without_buddy(bs, name).len() ==> !same_screen_name(#[trigger] without_buddy(bs, name)[i].0, name)
            && bs.contains(without_buddy(bs, name)[i]),
    decreases bs.len(),
{
    let pred = |b: BuddyView| !same_screen_name(b.0, name);
    reveal(Seq::filter);
    if bs.len() > 0 {
        lemma_without_buddy_keeps_the_others(bs.drop_last(), name);
    }
    assert(without_buddy(bs, name) == bs.filter(pred));
    assert forall|i: int| 0 <= i < bs.len() && !same_screen_name(bs[i].0, name) implies #[trigger] without_buddy(bs, name).contains(bs[i]) by {
        bs.lemma_filter_contains(pred, i);
    }
    assert forall|i: int| 0 <= i < without_buddy(bs, name).len() implies !same_screen_name(#[trigger] without_buddy(bs, name)[i].0, name)
        && bs.contains(without_buddy(bs, name)[i]) by {
        #[allow(deprecated)]
        bs.filter_lemma(pred);
        bs.lemma_filter_pred(pred, i);
        assert(bs.filter(pred).contains(bs.filter(pred)[i]));
    }
}

/// `it` is a new attribute-less item with these fields.
pub open spec fn fresh_item(it: FeedbagItem, name: Seq<char>, group_id: u16, item_id: u16, class_id: u16) -> bool {
    &&& it.name@ == name
    &&& it.group_id == group_id
    &&& it.item_id == item_id
    &&& it.class_id == class_id
    &&& it.attributes@.len() == 0
}

/// The insert/delete body for an attribute-less item.
pub open spec fn plain_item_bytes(name: Seq<char>, group_id: u16, item_id: u16, class_id: u16) -> Seq<u8> {
    crate::feedbag::feedbag_item_bytes(encode_utf8(name), group_id, item_id, class_id, seq![])
}

/// The away-message SET_INFO body: TLV 0x03 "us-ascii", TLV 0x04 the text
/// (empty to come back).
pub open spec fn set_info_body(text: Seq<char>) -> Seq<u8> {
    tlv_bytes(AWAY_ENCODING, seq![0x75u8, 0x73, 0x2D, 0x61, 0x73, 0x63, 0x69, 0x69]) + tlv_bytes(
        AWAY_TEXT,
        encode_utf8(text),
    )
}

/// The user-info query body: request type "away message", then the BUF.
pub open spec fn user_info_query_body(name: Seq<char>) -> Seq<u8> {
    be16_bytes(REQUEST_TYPE_UNAVAILABLE) + crate::messaging::buf_bytes(name)
}

fn find_item(items: &Vec<FeedbagItem>, class: u16, name: &str) -> (r: Option<usize>)
    ensures
        r matches Some(k) ==> first_item(items@, class, name@) == Some(k as int),
        r is None ==> first_item(items@, class, name@) is None,
{
    let mut i: usize = 0;
    assert(items@.skip(0) =~= items@);
    while i < items.len()
        invariant
            i <= items@.len(),
            first_item(items@, class, name@) == (match first_item(items@.skip(i as int), class, name@) {
                Some(j) => Some(j + i),
                None => None::<int>,
            }),
        decreases items@.len() - i,
    {
        assert(items@.skip(i as int)[0] == items@[i as int]);
        assert(items@.skip(i as int).drop_first() =~= items@.skip(i + 1));
        if items[i].class_id == class && screen_names_match(items[i].name.as_str(), name) {
            return Some(i);
        }
        i = i + 1;
    }
    assert(items@.skip(i as int) =~= seq![]);
    None
}

impl OscarSession {
    fn make_snac(&mut self, family: SnacFamily, subtype: u16, body: Vec<u8>) -> (s: Snac)
        ensures
            s.header == header_for(family, subtype, final(self).ids.0),
            s.body@ == body@,
            final(self).ids.0 == next_id(old(self).ids.0),
            keeps_buddies(*old(self), *final(self)),
            keeps_items(*old(self), *final(self)),
            keeps_counter(*old(self), *final(self)),
            keeps_away(*old(self), *final(self)),
            keeps_inbox(*old(self), *final(self)),
            keeps_pending(*old(self), *final(self)),
            keeps_identity(*old(self), *final(self)),
    {
        let request_id = self.next_request_id();
        Snac { header: SnacHeader { family: family.as_u16(), subtype, flags: 0, request_id }, body }
    }

    /// Asks the server for the whole buddy list.
    pub fn request_buddy_list(&mut self) -> (s: Snac)
        ensures
            s.header == header_for(SnacFamily::Feedbag, FEEDBAG_QUERY, final(self).ids.0),
            s.body@.len() == 0,
            final(self).ids.0 == next_id(old(self).ids.0),
            keeps_buddies(*old(self), *final(self)),
            keeps_items(*old(self), *final(self)),
            keeps_counter(*old(self), *final(self)),
            keeps_away(*old(self), *final(self)),
            keeps_inbox(*old(self), *final(self)),
            keeps_pending(*old(self), *final(self)),
            keeps_identity(*old(self), *final(self)),
    {
        self.make_snac(SnacFamily::Feedbag, FEEDBAG_QUERY, Vec::new())
    }

    /// The item id of the group named `name` (matched as screen names are).
    /// When there is no such group: a fresh item id, and the insert request
    /// to send with the new group item, which `commit_item` records once the
    /// request is sent.
    pub fn group_id(&mut self, name: &str) -> (r: (u16, Option<(Snac, FeedbagItem)>))
        ensures
            match first_item(old(self).feedbag_items@, FeedbagItem::CLASS_GROUP, name@) {
                Some(i) => {
                    &&& r.0 == old(self).feedbag_items@[i].item_id
                    &&& r.1 is None
                    &&& keeps_ids(*old(self), *final(self))
                    &&& keeps_counter(*old(self), *final(self))
                },
                None => {
                    &&& r.0 == next_item_id(old(self).feedbag_item_id_counter, old(self).feedbag_items@)
                    &&& final(self).feedbag_item_id_counter == r.0
                    &&& final(self).ids.0 == next_id(old(self).ids.0)
                    &&& r.1 matches Some((s, item)) && s.header == header_for(
                        SnacFamily::Feedbag,
                        FEEDBAG_INSERT_ITEM,
                        final(self).ids.0,
                    ) && s.body@ == plain_item_bytes(name@, 0, r.0, FeedbagItem::CLASS_GROUP) && fresh_item(
                        item,
                        name@,
                        0,
                        r.0,
                        FeedbagItem::CLASS_GROUP,
                    )
                },
            },
            keeps_items(*old(self), *final(self)),
            keeps_buddies(*old(self), *final(self)),
            keeps_away(*old(self), *final(self)),
            keeps_inbox(*old(self), *final(self)),
            keeps_pending(*old(self), *final(self)),
            keeps_identity(*old(self), *final(self)),
    {
        proof {
            lemma_first_item_bounds(self.feedbag_items@, FeedbagItem::CLASS_GROUP, name@);
        }
        if let Some(i) = find_item(&self.feedbag_items, FeedbagItem::CLASS_GROUP, name) {
            let ghost fi = first_item(self.feedbag_items@, FeedbagItem::CLASS_GROUP, name@);
            assert(fi is Some);
            assert(fi.unwrap() == i as int);
            return (self.feedbag_items[i].item_id, None);
        }
        let new_group_id = self.next_feedbag_item_id();
        let group_item = FeedbagItem {
            name: name.to_string(),
            group_id: 0,
            item_id: new_group_id,
            class_id: FeedbagItem::CLASS_GROUP,
            attributes: Vec::new(),
        };
        let body = group_item.encode();
        proof {
            assert(tlv_pairs(group_item.attributes@) =~= seq![]);
        }
        let s = self.make_snac(SnacFamily::Feedbag, FEEDBAG_INSERT_ITEM, body);
        (new_group_id, Some((s, group_item)))
    }

    /// Records a feedbag item whose insert request has been sent.
    pub fn commit_item(&mut self, item: FeedbagItem)
        ensures
            final(self).feedbag_items@ == old(self).feedbag_items@.push(item),
            keeps_buddies(*old(self), *final(self)),
            keeps_ids(*old(self), *final(self)),
            keeps_counter(*old(self), *final(self)),
            keeps_away(*old(self), *final(self)),
            keeps_inbox(*old(self), *final(self)),
            keeps_pending(*old(self), *final(self)),
            keeps_identity(*old(self), *final(self)),
    {
        self.feedbag_items.push(item);
    }
}


impl OscarSession {
    fn remove_matching_items(&mut self, class: u16, name: &str)
        ensures
            final(self).feedbag_items@ == without_items(old(self).feedbag_items@, class, name@),
            keeps_buddies(*old(self), *final(self)),
            keeps_ids(*old(self), *final(self)),
            keeps_counter(*old(self), *final(self)),
            keeps_away(*old(self), *final(self)),
            keeps_inbox(*old(self), *final(self)),
            keeps_pending(*old(self), *final(self)),
            keeps_identity(*old(self), *final(self)),
    {
        let ghost orig = self.feedbag_items@;
        let mut i: usize = 0;
        let ghost mut j: int = 0;
        assert(orig.take(0) =~= seq![]);
        assert(self.feedbag_items@.skip(0) =~= orig.skip(0));
        while i < self.feedbag_items.len()
            invariant
                0 <= j <= orig.len(),
                i <= self.feedbag_items@.len(),
                self.feedbag_items@.take(i as int) == without_items(orig.take(j), class, name@),
                self.feedbag_items@.skip(i as int) == orig.skip(j),
                keeps_buddies(*old(self), *self),
                keeps_ids(*old(self), *self),
                keeps_counter(*old(self), *self),
                keeps_away(*old(self), *self),
                keeps_inbox(*old(self), *self),
                keeps_pending(*old(self), *self),
                keeps_identity(*old(self), *self),
            decreases self.feedbag_items@.len() - i,
        {
            let ghost cur = self.feedbag_items@;
            assert(cur.skip(i as int).len() == orig.skip(j).len());
            assert(j < orig.len());
            assert(cur[i as int] == orig[j]) by {
                assert(cur.skip(i as int)[0] == orig.skip(j)[0]);
            }
            assert(orig.take(j + 1).drop_last() =~= orig.take(j));
            assert(orig.take(j + 1).last() == orig[j]);
            if self.feedbag_items[i].class_id == class && screen_names_match(self.feedbag_items[i].name.as_str(), name) {
                let _removed = self.feedbag_items.remove(i);
                assert(self.feedbag_items@.take(i as int) =~= cur.take(i as int));
                assert(self.feedbag_items@.skip(i as int) =~= cur.skip(i as int).drop_first());
                assert(orig.skip(j).drop_first() =~= orig.skip(j + 1));
            } else {
                assert(cur.take(i + 1) =~= cur.take(i as int).push(cur[i as int]));
                assert(cur.skip(i + 1) =~= cur.skip(i as int).drop_first());
                assert(orig.skip(j).drop_first() =~= orig.skip(j + 1));
                i = i + 1;
            }
            proof {
                j = j + 1;
            }
        }
        proof {
            assert(self.feedbag_items@.skip(i as int) =~= seq![]);
            assert(orig.skip(j).len() == 0);
            assert(orig.take(j) =~= orig);
            assert(self.feedbag_items@.take(i as int) =~= self.feedbag_items@);
        }
    }

    fn remove_matching_buddies(&mut self, name: &str)
        ensures
            buddies_view(final(self).buddies@) == without_buddy(buddies_view(old(self).buddies@), name@),
            keeps_items(*old(self), *final(self)),
            keeps_ids(*old(self), *final(self)),
            keeps_counter(*old(self), *final(self)),
            keeps_away(*old(self), *final(self)),
            keeps_inbox(*old(self), *final(self)),
            keeps_pending(*old(self), *final(self)),
            keeps_identity(*old(self), *final(self)),
    {
        let ghost orig = buddies_view(self.buddies@);
        let mut i: usize = 0;
        let ghost mut j: int = 0;
        assert(orig.take(0) =~= seq![]);
        assert(buddies_view(self.buddies@).skip(0) =~= orig.skip(0));
        assert(buddies_view(self.buddies@).take(0) =~= seq![]);
        while i < self.buddies.len()
            invariant
                0 <= j <= orig.len(),
                i <= self.buddies@.len(),
                buddies_view(self.buddies@).take(i as int) == without_buddy(orig.take(j), name@),
                buddies_view(self.buddies@).skip(i as int) == orig.skip(j),
                keeps_items(*old(self), *self),
                keeps_ids(*old(self), *self),
                keeps_counter(*old(self), *self),
                keeps_away(*old(self), *self),
                keeps_inbox(*old(self), *self),
                keeps_pending(*old(self), *self),
                keeps_identity(*old(self), *self),
            decreases self.buddies@.len() - i,
        {
            let ghost cur = buddies_view(self.buddies@);
            assert(cur.skip(i as int).len() == orig.skip(j).len());
            assert(j < orig.len());
            assert(cur[i as int] == orig[j]) by {
                assert(cur.skip(i as int)[0] == orig.skip(j)[0]);
            }
            assert(orig.take(j + 1).drop_last() =~= orig.take(j));
            assert(orig.take(j + 1).last() == orig[j]);
            if screen_names_match(self.buddies[i].screen_name.as_str(), name) {
                let _removed = self.buddies.remove(i);
                assert(buddies_view(self.buddies@).take(i as int) =~= cur.take(i as int));
                assert(buddies_view(self.buddies@).skip(i as int) =~= cur.skip(i as int).drop_first());
                assert(orig.skip(j).drop_first() =~= orig.skip(j + 1));
            } else {
                assert(cur.take(i + 1) =~= cur.take(i as int).push(cur[i as int]));
                assert(cur.skip(i + 1) =~= cur.skip(i as int).drop_first());
                assert(orig.skip(j).drop_first() =~= orig.skip(j + 1));
                i = i + 1;
            }
            proof {
                j = j + 1;
            }
        }
        proof {
            assert(buddies_view(self.buddies@).skip(i as int) =~= seq![]);
            assert(orig.skip(j).len() == 0);
            assert(orig.take(j) =~= orig);
            assert(buddies_view(self.buddies@).take(i as int) =~= buddies_view(self.buddies@));
        }
    }

    /// The insert request for a buddy item under group `group_id`, with a
    /// fresh item id. Nothing else changes: `commit_buddy` adds the buddy to
    /// the local list once the request is sent.
    pub fn buddy_insert(&mut self, screen_name: &str, group_id: u16) -> (s: Snac)
        ensures
            final(self).feedbag_item_id_counter == next_item_id(
                old(self).feedbag_item_id_counter,
                old(self).feedbag_items@,
            ),
            final(self).ids.0 == next_id(old(self).ids.0),
            s.header == header_for(SnacFamily::Feedbag, FEEDBAG_INSERT_ITEM, final(self).ids.0),
            s.body@ == plain_item_bytes(
                screen_name@,
                group_id,
                final(self).feedbag_item_id_counter,
                FeedbagItem::CLASS_BUDDY,
            ),
            keeps_buddies(*old(self), *final(self)),
            keeps_items(*old(self), *final(self)),
            keeps_away(*old(self), *final(self)),
            keeps_inbox(*old(self), *final(self)),
            keeps_pending(*old(self), *final(self)),
            keeps_identity(*old(self), *final(self)),
    {
        let item_id = self.next_feedbag_item_id();
        let item = FeedbagItem {
            name: screen_name.to_string(),
            group_id,
            item_id,
            class_id: FeedbagItem::CLASS_BUDDY,
            attributes: Vec::new(),
        };
        let body = item.encode();
        proof {
            assert(tlv_pairs(item.attributes@) =~= seq![]);
        }
        self.make_snac(SnacFamily::Feedbag, FEEDBAG_INSERT_ITEM, body)
    }

    /// Adds a buddy whose insert request has been sent to the local list:
    /// offline, available, unwarned, unblocked.
    pub fn commit_buddy(&mut self, screen_name: &str, group_name: &str)
        ensures
            buddies_view(final(self).buddies@) == buddies_view(old(self).buddies@).push(
                new_buddy_view(screen_name@, group_name@),
            ),
            keeps_items(*old(self), *final(self)),
            keeps_ids(*old(self), *final(self)),
            keeps_counter(*old(self), *final(self)),
            keeps_away(*old(self), *final(self)),
            keeps_inbox(*old(self), *final(self)),
            keeps_pending(*old(self), *final(self)),
            keeps_identity(*old(self), *final(self)),
    {
        self.buddies.push(Buddy {
            screen_name: screen_name.to_string(),
            group_name: group_name.to_string(),
            is_online: false,
            is_away: false,
            away_message: None,
            warning_level: 0,
            is_blocked: false,
        });
        assert(buddies_view(self.buddies@) =~= buddies_view(old(self).buddies@).push(
            new_buddy_view(screen_name@, group_name@),
        ));
    }

    /// The delete request for the first buddy item matching `screen_name`,
    /// or `None` when there is none. Nothing else changes:
    /// `commit_buddy_removal` drops the buddy once the request is sent.
    pub fn remove_buddy(&mut self, screen_name: &str) -> (r: Option<Snac>)
        ensures
            match first_item(old(self).feedbag_items@, FeedbagItem::CLASS_BUDDY, screen_name@) {
                None => r is None && keeps_ids(*old(self), *final(self)),
                Some(i) => {
                    &&& r matches Some(s) && s.header == header_for(
                        SnacFamily::Feedbag,
                        FEEDBAG_DELETE_ITEM,
                        final(self).ids.0,
                    ) && s.body@ == encoded_item(old(self).feedbag_items@[i])
                    &&& final(self).ids.0 == next_id(old(self).ids.0)
                },
            },
            keeps_buddies(*old(self), *final(self)),
            keeps_items(*old(self), *final(self)),
            keeps_counter(*old(self), *final(self)),
            keeps_away(*old(self), *final(self)),
            keeps_inbox(*old(self), *final(self)),
            keeps_pending(*old(self), *final(self)),
            keeps_identity(*old(self), *final(self)),
    {
        proof {
            lemma_first_item_bounds(self.feedbag_items@, FeedbagItem::CLASS_BUDDY, screen_name@);
        }
        let i = match find_item(&self.feedbag_items, FeedbagItem::CLASS_BUDDY, screen_name) {
            Some(i) => i,
            None => return None,
        };
        let body = self.feedbag_items[i].encode();
        let s = self.make_snac(SnacFamily::Feedbag, FEEDBAG_DELETE_ITEM, body);
        Some(s)
    }

    /// Drops every buddy matching `screen_name` from the local list, once
    /// the delete request is sent.
    pub fn commit_buddy_removal(&mut self, screen_name: &str)
        ensures
            buddies_view(final(self).buddies@) == without_buddy(buddies_view(old(self).buddies@), screen_name@),
            keeps_items(*old(self), *final(self)),
            keeps_ids(*old(self), *final(self)),
            keeps_counter(*old(self), *final(self)),
            keeps_away(*old(self), *final(self)),
            keeps_inbox(*old(self), *final(self)),
            keeps_pending(*old(self), *final(self)),
            keeps_identity(*old(self), *final(self)),
    {
        self.remove_matching_buddies(screen_name);
    }

    /// The insert request for a deny item blocking `screen_name`, with a
    /// fresh item id, and that item; `None` when a deny item already
    /// matches. Nothing else changes: `commit_block` records the item and
    /// marks the buddy once the request is sent.
    pub fn add_to_block_list(&mut self, screen_name: &str) -> (r: Option<(Snac, FeedbagItem)>)
        ensures
            match first_item(old(self).feedbag_items@, FeedbagItem::CLASS_DENY, screen_name@) {
                Some(_) => {
                    &&& r is None
                    &&& keeps_ids(*old(self), *final(self))
                    &&& keeps_counter(*old(self), *final(self))
                },
                None => {
                    let id = next_item_id(old(self).feedbag_item_id_counter, old(self).feedbag_items@);
                    &&& final(self).feedbag_item_id_counter == id
                    &&& final(self).ids.0 == next_id(old(self).ids.0)
                    &&& r matches Some((s, item)) && s.header == header_for(
                        SnacFamily::Feedbag,
                        FEEDBAG_INSERT_ITEM,
                        final(self).ids.0,
                    ) && s.body@ == plain_item_bytes(screen_name@, 0, id, FeedbagItem::CLASS_DENY) && fresh_item(
                        item,
                        screen_name@,
                        0,
                        id,
                        FeedbagItem::CLASS_DENY,
                    )
                },
            },
            keeps_buddies(*old(self), *final(self)),
            keeps_items(*old(self), *final(self)),
            keeps_away(*old(self), *final(self)),
            keeps_inbox(*old(self), *final(self)),
            keeps_pending(*old(self), *final(self)),
            keeps_identity(*old(self), *final(self)),
    {
        if let Some(_) = find_item(&self.feedbag_items, FeedbagItem::CLASS_DENY, screen_name) {
            return None;
        }
        let item_id = self.next_feedbag_item_id();
        let item = FeedbagItem {
            name: screen_name.to_string(),
            group_id: 0,
            item_id,
            class_id: FeedbagItem::CLASS_DENY,
            attributes: Vec::new(),
        };
        let body = item.encode();
        proof {
            assert(tlv_pairs(item.attributes@) =~= seq![]);
        }
        let s = self.make_snac(SnacFamily::Feedbag, FEEDBAG_INSERT_ITEM, body);
        Some((s, item))
    }

    /// Records a deny item whose insert request has been sent, and marks
    /// the first buddy matching its name blocked.
    pub fn commit_block(&mut self, item: FeedbagItem)
        ensures
            final(self).feedbag_items@ == old(self).feedbag_items@.push(item),
            buddies_view(final(self).buddies@) == buddies_after(
                buddies_view(old(self).buddies@),
                item.name@,
                BuddyUpdate::Blocked(true),
            ),
            keeps_ids(*old(self), *final(self)),
            keeps_counter(*old(self), *final(self)),
            keeps_away(*old(self), *final(self)),
            keeps_inbox(*old(self), *final(self)),
            keeps_pending(*old(self), *final(self)),
            keeps_identity(*old(self), *final(self)),
    {
        let name = crate::text::clone_string(&item.name);
        self.feedbag_items.push(item);
        self.update_first_buddy(name.as_str(), BuddyUpdate::Blocked(true));
    }

    /// The delete request for the first deny item matching `screen_name`,
    /// or `None` when there is none. Nothing else changes: `commit_unblock`
    /// drops the deny items and unmarks the buddy once the request is sent.
    pub fn remove_from_block_list(&mut self, screen_name: &str) -> (r: Option<Snac>)
        ensures
            match first_item(old(self).feedbag_items@, FeedbagItem::CLASS_DENY, screen_name@) {
                None => r is None && keeps_ids(*old(self), *final(self)),
                Some(i) => {
                    &&& r matches Some(s) && s.header == header_for(
                        SnacFamily::Feedbag,
                        FEEDBAG_DELETE_ITEM,
                        final(self).ids.0,
                    ) && s.body@ == encoded_item(old(self).feedbag_items@[i])
                    &&& final(self).ids.0 == next_id(old(self).ids.0)
                },
            },
            keeps_buddies(*old(self), *final(self)),
            keeps_items(*old(self), *final(self)),
            keeps_counter(*old(self), *final(self)),
            keeps_away(*old(self), *final(self)),
            keeps_inbox(*old(self), *final(self)),
            keeps_pending(*old(self), *final(self)),
            keeps_identity(*old(self), *final(self)),
    {
        proof {
            lemma_first_item_bounds(self.feedbag_items@, FeedbagItem::CLASS_DENY, screen_name@);
        }
        let i = match find_item(&self.feedbag_items, FeedbagItem::CLASS_DENY, screen_name) {
            Some(i) => i,
            None => return None,
        };
        let body = self.feedbag_items[i].encode();
        let s = self.make_snac(SnacFamily::Feedbag, FEEDBAG_DELETE_ITEM, body);
        Some(s)
    }

    /// Once the delete request is sent: drops every deny item matching
    /// `screen_name` and marks the first matching buddy unblocked.
    pub fn commit_unblock(&mut self, screen_name: &str)
        ensures
            final(self).feedbag_items@ == without_items(
                old(self).feedbag_items@,
                FeedbagItem::CLASS_DENY,
                screen_name@,
            ),
            buddies_view(final(self).buddies@) == buddies_after(
                buddies_view(old(self).buddies@),
                screen_name@,
                BuddyUpdate::Blocked(false),
            ),
            keeps_ids(*old(self), *final(self)),
            keeps_counter(*old(self), *final(self)),
            keeps_away(*old(self), *final(self)),
            keeps_inbox(*old(self), *final(self)),
            keeps_pending(*old(self), *final(self)),
            keeps_identity(*old(self), *final(self)),
    {
        self.remove_matching_items(FeedbagItem::CLASS_DENY, screen_name);
        self.update_first_buddy(screen_name, BuddyUpdate::Blocked(false));
    }
}


/// `m` is the text `t`, or `None` with `t` absent.
pub open spec fn opt_str_text(t: Option<&str>) -> Option<Seq<char>> {
    match t {
        Some(s) => Some(s@),
        None => None,
    }
}

impl OscarSession {
    /// The request that sets your away message, or clears it with `None`:
    /// setting a non-empty message is what makes you appear away, and an
    /// empty one is how you come back. The local away message is left as it
    /// is; `commit_away_message` records it once the request is sent.
    pub fn set_away_message(&mut self, text: Option<&str>) -> (s: Snac)
        ensures
            s.header == header_for(SnacFamily::Locate, LOCATE_SET_INFO, final(self).ids.0),
            s.body@ == set_info_body(
                match text {
                    Some(t) => t@,
                    None => Seq::<char>::empty(),
                },
            ),
            final(self).ids.0 == next_id(old(self).ids.0),
            keeps_away(*old(self), *final(self)),
            keeps_buddies(*old(self), *final(self)),
            keeps_items(*old(self), *final(self)),
            keeps_counter(*old(self), *final(self)),
            keeps_inbox(*old(self), *final(self)),
            keeps_pending(*old(self), *final(self)),
            keeps_identity(*old(self), *final(self)),
    {
        let mut body: Vec<u8> = Vec::new();
        let us_ascii: Vec<u8> = vec![0x75, 0x73, 0x2D, 0x61, 0x73, 0x63, 0x69, 0x69];
        let e1 = Tlv::new(AWAY_ENCODING, us_ascii).encode();
        push_all(&mut body, e1.as_slice());
        let away_bytes = match text {
            Some(t) => text_bytes(t),
            None => Vec::new(),
        };
        let e2 = Tlv::new(AWAY_TEXT, away_bytes).encode();
        push_all(&mut body, e2.as_slice());
        proof {
            let t = match text {
                Some(t) => t@,
                None => Seq::<char>::empty(),
            };
            if text is None {
                assert(encode_utf8(Seq::<char>::empty()) =~= seq![]);
            }
            assert(body@ =~= set_info_body(t));
        }
        self.make_snac(SnacFamily::Locate, LOCATE_SET_INFO, body)
    }

    /// Takes the received invite at `index` out of the list, to accept it;
    /// `None`, with nothing changed, when there is no invite at `index`.
    pub fn take_invite(&mut self, index: usize) -> (r: Option<ChatInvite>)
        ensures
            index < old(self).incoming_chat_invites@.len() ==> r == Some(old(self).incoming_chat_invites@[index as int])
                && final(self).incoming_chat_invites@ == old(self).incoming_chat_invites@.remove(index as int),
            index >= old(self).incoming_chat_invites@.len() ==> r is None && final(self).incoming_chat_invites@
                == old(self).incoming_chat_invites@,
            final(self).incoming_messages@ == old(self).incoming_messages@,
            keeps_buddies(*old(self), *final(self)),
            keeps_items(*old(self), *final(self)),
            keeps_ids(*old(self), *final(self)),
            keeps_counter(*old(self), *final(self)),
            keeps_away(*old(self), *final(self)),
            keeps_pending(*old(self), *final(self)),
            keeps_identity(*old(self), *final(self)),
    {
        if index < self.incoming_chat_invites.len() {
            Some(self.incoming_chat_invites.remove(index))
        } else {
            None
        }
    }

    /// Records your away message once the request setting it is sent.
    pub fn commit_away_message(&mut self, text: Option<&str>)
        ensures
            opt_text(final(self).away_message) == opt_str_text(text),
            keeps_buddies(*old(self), *final(self)),
            keeps_items(*old(self), *final(self)),
            keeps_ids(*old(self), *final(self)),
            keeps_counter(*old(self), *final(self)),
            keeps_inbox(*old(self), *final(self)),
            keeps_pending(*old(self), *final(self)),
            keeps_identity(*old(self), *final(self)),
    {
        self.away_message = match text {
            Some(t) => Some(t.to_string()),
            None => None,
        };
    }

    /// Asks for a buddy's away message; the reply arrives as a Locate
    /// user-info frame.
    pub fn request_user_info(&mut self, screen_name: &str) -> (s: Snac)
        ensures
            s.header == header_for(SnacFamily::Locate, LOCATE_USER_INFO_QUERY, final(self).ids.0),
            s.body@ == user_info_query_body(screen_name@),
            final(self).ids.0 == next_id(old(self).ids.0),
            keeps_buddies(*old(self), *final(self)),
            keeps_items(*old(self), *final(self)),
            keeps_counter(*old(self), *final(self)),
            keeps_away(*old(self), *final(self)),
            keeps_inbox(*old(self), *final(self)),
            keeps_pending(*old(self), *final(self)),
            keeps_identity(*old(self), *final(self)),
    {
        let mut body: Vec<u8> = Vec::new();
        push_be16(&mut body, REQUEST_TYPE_UNAVAILABLE);
        let nb = screen_name.as_bytes();
        body.push((nb.len() % 256) as u8);
        push_all(&mut body, nb);
        assert(body@ =~= user_info_query_body(screen_name@));
        self.make_snac(SnacFamily::Locate, LOCATE_USER_INFO_QUERY, body)
    }

    /// A plain-text instant message to `recipient`, with a fresh random
    /// message cookie.
    pub fn send_message(&mut self, recipient: &str, text: &str) -> (s: Snac)
        ensures
            s.header == header_for(SnacFamily::Messaging, crate::messaging::SEND_IM, final(self).ids.0),
            exists|c: Seq<u8>| c.len() == 8 && s.body@ == crate::messaging::im_body(c, recipient@, text@),
            final(self).ids.0 == next_id(old(self).ids.0),
            keeps_buddies(*old(self), *final(self)),
            keeps_items(*old(self), *final(self)),
            keeps_counter(*old(self), *final(self)),
            keeps_away(*old(self), *final(self)),
            keeps_inbox(*old(self), *final(self)),
            keeps_pending(*old(self), *final(self)),
            keeps_identity(*old(self), *final(self)),
    {
        let body = crate::messaging::im_body_random(recipient, text);
        self.make_snac(SnacFamily::Messaging, crate::messaging::SEND_IM, body)
    }

    /// Invites `recipient` to a chat room: a channel-2 rendezvous proposal
    /// with fresh random message and rendezvous cookies.
    pub fn send_chat_invite(&mut self, recipient: &str, room: &ChatRoomHandle, invitation_text: &str) -> (s: Snac)
        ensures
            s.header == header_for(SnacFamily::Messaging, crate::messaging::SEND_IM, final(self).ids.0),
            exists|c: Seq<u8>, d: Seq<u8>|
                c.len() == 8 && d.len() == 8 && s.body@ == crate::messaging::invite_body(
                    c,
                    d,
                    recipient@,
                    *room,
                    invitation_text@,
                ),
            final(self).ids.0 == next_id(old(self).ids.0),
            keeps_buddies(*old(self), *final(self)),
            keeps_items(*old(self), *final(self)),
            keeps_counter(*old(self), *final(self)),
            keeps_away(*old(self), *final(self)),
            keeps_inbox(*old(self), *final(self)),
            keeps_pending(*old(self), *final(self)),
            keeps_identity(*old(self), *final(self)),
    {
        let body = crate::messaging::invite_body_random(recipient, room, invitation_text);
        self.make_snac(SnacFamily::Messaging, crate::messaging::SEND_IM, body)
    }

    /// The request warning a user. Nothing else changes: `commit_warning`
    /// files the target under the request id once the request is sent.
    pub fn send_warning(&mut self, screen_name: &str, anonymous: bool) -> (s: Snac)
        ensures
            s.header == header_for(SnacFamily::Messaging, crate::messaging::SEND_WARNING, final(self).ids.0),
            s.body@ == crate::messaging::warning_body(screen_name@, anonymous),
            final(self).ids.0 == next_id(old(self).ids.0),
            keeps_pending(*old(self), *final(self)),
            keeps_buddies(*old(self), *final(self)),
            keeps_items(*old(self), *final(self)),
            keeps_counter(*old(self), *final(self)),
            keeps_away(*old(self), *final(self)),
            keeps_inbox(*old(self), *final(self)),
            keeps_identity(*old(self), *final(self)),
    {
        let body = crate::messaging::warning_request_body(screen_name, anonymous);
        self.make_snac(SnacFamily::Messaging, crate::messaging::SEND_WARNING, body)
    }

    /// Files a sent warning under its request id, so the reply, which
    /// carries no screen name, can be credited to `screen_name`.
    pub fn commit_warning(&mut self, request_id: u32, screen_name: &str)
        ensures
            final(self).pending_warnings@.dom() == old(self).pending_warnings@.dom().insert(request_id),
            final(self).pending_warnings@[request_id]@ == screen_name@,
            forall|k: u32|
                k != request_id && #[trigger] old(self).pending_warnings@.contains_key(k)
                    ==> final(self).pending_warnings@[k] == old(self).pending_warnings@[k],
            final(self).pending_service_redirect_replies@ == old(self).pending_service_redirect_replies@,
            keeps_buddies(*old(self), *final(self)),
            keeps_items(*old(self), *final(self)),
            keeps_ids(*old(self), *final(self)),
            keeps_counter(*old(self), *final(self)),
            keeps_away(*old(self), *final(self)),
            keeps_inbox(*old(self), *final(self)),
            keeps_identity(*old(self), *final(self)),
    {
        self.pending_warnings.insert(request_id, screen_name.to_string());
    }

    /// A service redirect request (family 0x01, subtype 0x04) for
    /// `food_group`, carrying `extra_tlvs`; returns it with its request id,
    /// under which the reply will be filed.
    pub fn request_service_redirect(&mut self, food_group: u16, extra_tlvs: Vec<Tlv>) -> (r: (u32, Snac))
        ensures
            r.0 == final(self).ids.0,
            r.1.header == header_for(SnacFamily::Generic, 0x04, final(self).ids.0),
            r.1.body@ == be16_bytes(food_group) + crate::snac::tlvs_bytes(tlv_pairs(extra_tlvs@)),
            final(self).ids.0 == next_id(old(self).ids.0),
            keeps_buddies(*old(self), *final(self)),
            keeps_items(*old(self), *final(self)),
            keeps_counter(*old(self), *final(self)),
            keeps_away(*old(self), *final(self)),
            keeps_inbox(*old(self), *final(self)),
            keeps_pending(*old(self), *final(self)),
            keeps_identity(*old(self), *final(self)),
    {
        let mut body: Vec<u8> = Vec::new();
        push_be16(&mut body, food_group);
        let ghost head = body@;
        let ghost pairs = tlv_pairs(extra_tlvs@);
        let mut i: usize = 0;
        while i < extra_tlvs.len()
            invariant
                i <= extra_tlvs@.len(),
                pairs == tlv_pairs(extra_tlvs@),
                body@ == head + crate::snac::tlvs_bytes(pairs.take(i as int)),
            decreases extra_tlvs@.len() - i,
        {
            let enc = extra_tlvs[i].encode();
            push_all(&mut body, enc.as_slice());
            proof {
                crate::feedbag::lemma_tlvs_bytes_push(pairs.take(i as int), pairs[i as int]);
                assert(pairs.take(i + 1) =~= pairs.take(i as int).push(pairs[i as int]));
            }
            i = i + 1;
        }
        assert(pairs.take(pairs.len() as int) =~= pairs);
        let s = self.make_snac(SnacFamily::Generic, 0x04, body);
        (s.header.request_id, s)
    }

    /// Claims the redirect reply filed under `request_id`, if it has come.
    pub fn take_service_redirect_reply(&mut self, request_id: u32) -> (r: Option<(ServerAddress, Vec<u8>)>)
        ensures
            match r {
                Some(v) => old(self).pending_service_redirect_replies@.contains_key(request_id)
                    && old(self).pending_service_redirect_replies@[request_id] == v,
                None => !old(self).pending_service_redirect_replies@.contains_key(request_id),
            },
            final(self).pending_service_redirect_replies@ == old(self).pending_service_redirect_replies@.remove(
                request_id,
            ),
            final(self).pending_warnings@ == old(self).pending_warnings@,
            keeps_buddies(*old(self), *final(self)),
            keeps_items(*old(self), *final(self)),
            keeps_ids(*old(self), *final(self)),
            keeps_counter(*old(self), *final(self)),
            keeps_away(*old(self), *final(self)),
            keeps_inbox(*old(self), *final(self)),
            keeps_identity(*old(self), *final(self)),
    {
        self.pending_service_redirect_replies.remove(&request_id)
    }
}


// The buddy list a feedbag reply makes.

/// An item's name, group id, item id and class id.
pub type ItemKey = (Seq<char>, u16, u16, u16);

pub open spec fn item_keys(items: Seq<FeedbagItem>) -> Seq<ItemKey> {
    items.map_values(|it: FeedbagItem| (it.name@, it.group_id, it.item_id, it.class_id))
}

pub open spec fn entry_keys(es: Seq<crate::feedbag::FeedbagEntry>) -> Seq<ItemKey> {
    es.map_values(|e: crate::feedbag::FeedbagEntry| (e.0, e.1, e.2, e.3))
}

/// The fallback group name.
pub open spec fn buddies_label() -> Seq<char> {
    seq!['B', 'u', 'd', 'd', 'i', 'e', 's']
}

/// The name of group `gid`: the last group item with that item id, else
/// "Buddies".
pub open spec fn group_name_in(ks: Seq<ItemKey>, gid: u16) -> Seq<char>
    decreases ks.len(),
{
    if ks.len() == 0 {
        buddies_label()
    } else if ks.last().3 == FeedbagItem::CLASS_GROUP && ks.last().2 == gid {
        ks.last().0
    } else {
        group_name_in(ks.drop_last(), gid)
    }
}

/// Whether a deny item carries exactly `name`.
pub open spec fn denied_in(ks: Seq<ItemKey>, name: Seq<char>) -> bool {
    exists|i: int| 0 <= i < ks.len() && #[trigger] ks[i].3 == FeedbagItem::CLASS_DENY && ks[i].0 == name
}

/// The first `count` buddy items, in order.
pub open spec fn take_buddies(ks: Seq<ItemKey>, count: nat) -> Seq<ItemKey>
    decreases ks.len(),
{
    if ks.len() == 0 || count == 0 {
        seq![]
    } else if ks[0].3 == FeedbagItem::CLASS_BUDDY {
        seq![ks[0]] + take_buddies(ks.drop_first(), (count - 1) as nat)
    } else {
        take_buddies(ks.drop_first(), count)
    }
}

/// The buddy for item key `k`, within the items `all`.
pub open spec fn roster_buddy(all: Seq<ItemKey>, k: ItemKey) -> BuddyView {
    (k.0, group_name_in(all, k.1), false, false, None, 0, denied_in(all, k.0))
}

/// The buddy list built from the items `all`, keeping at most `count`
/// buddies: each offline, available, unwarned, in its group (or
/// "Buddies"), blocked when a deny item carries its exact name.
pub open spec fn roster_of(all: Seq<ItemKey>, count: nat) -> Seq<BuddyView> {
    take_buddies(all, count).map_values(|k: ItemKey| roster_buddy(all, k))
}

/// A buddy item's group is the group item whose item id is the buddy
/// item's group id: when the last group key with item id `gid` is the one
/// at `j`, the group named for `gid` is that key's name.
pub proof fn lemma_group_name_is_the_group_with_that_item_id(ks: Seq<ItemKey>, gid: u16, j: int)
    requires
        0 <= j < ks.len(),
        ks[j].3 == FeedbagItem::CLASS_GROUP,
        ks[j].2 == gid,
        forall|k: int| j < k < ks.len() ==> !(#[trigger] ks[k].3 == FeedbagItem::CLASS_GROUP && ks[k].2 == gid),
    ensures
        group_name_in(ks, gid) == ks[j].0,
    decreases ks.len(),
{
    if j < ks.len() - 1 {
        let p = ks.drop_last();
        assert(!(ks[ks.len() - 1].3 == FeedbagItem::CLASS_GROUP && ks[ks.len() - 1].2 == gid));
        assert forall|k: int| j < k < p.len() implies !(#[trigger] p[k].3 == FeedbagItem::CLASS_GROUP && p[k].2 == gid) by {
            assert(p[k] == ks[k]);
        }
        lemma_group_name_is_the_group_with_that_item_id(p, gid, j);
    }
}

/// With no group key whose item id is `gid`, the group named for `gid` is
/// the fallback "Buddies".
pub proof fn lemma_group_name_falls_back(ks: Seq<ItemKey>, gid: u16)
    requires
        forall|k: int| 0 <= k < ks.len() ==> !(#[trigger] ks[k].3 == FeedbagItem::CLASS_GROUP && ks[k].2 == gid),
    ensures
        group_name_in(ks, gid) == buddies_label(),
    decreases ks.len(),
{
    if ks.len() > 0 {
        let p = ks.drop_last();
        assert(!(ks[ks.len() - 1].3 == FeedbagItem::CLASS_GROUP && ks[ks.len() - 1].2 == gid));
        assert forall|k: int| 0 <= k < p.len() implies !(#[trigger] p[k].3 == FeedbagItem::CLASS_GROUP && p[k].2 == gid) by {
            assert(p[k] == ks[k]);
        }
        lemma_group_name_falls_back(p, gid);
    }
}

/// In a roster built from a feedbag reply, each buddy carries the name of
/// the (last) group item whose item id is its buddy item's group id.
pub proof fn lemma_roster_buddy_group(all: Seq<ItemKey>, count: nat, i: int, j: int)
    requires
        0 <= i < take_buddies(all, count).len(),
        0 <= j < all.len(),
        all[j].3 == FeedbagItem::CLASS_GROUP,
        all[j].2 == take_buddies(all, count)[i].1,
        forall|k: int| j < k < all.len() ==> !(#[trigger] all[k].3 == FeedbagItem::CLASS_GROUP && all[k].2 == all[j].2),
    ensures
        roster_of(all, count)[i].0 == take_buddies(all, count)[i].0,
        roster_of(all, count)[i].1 == all[j].0,
{
    lemma_group_name_is_the_group_with_that_item_id(all, all[j].2, j);
}

fn group_name_for(items: &Vec<FeedbagItem>, gid: u16) -> (r: String)
    ensures
        r@ == group_name_in(item_keys(items@), gid),
{
    let ghost ks = item_keys(items@);
    let mut j: usize = items.len();
    assert(ks.take(j as int) =~= ks);
    while j > 0
        invariant
            j <= items@.len(),
            ks == item_keys(items@),
            group_name_in(ks, gid) == group_name_in(ks.take(j as int), gid),
        decreases j,
    {
        let it = &items[j - 1];
        assert(ks.take(j as int).drop_last() =~= ks.take(j - 1));
        assert(ks.take(j as int).last() == ks[j - 1]);
        if it.class_id == FeedbagItem::CLASS_GROUP && it.item_id == gid {
            return clone_string(&it.name);
        }
        j = j - 1;
    }
    let label = ['B', 'u', 'd', 'd', 'i', 'e', 's'];
    assert(label@ =~= buddies_label());
    crate::text::string_from_chars(&label)
}

fn is_denied(items: &Vec<FeedbagItem>, name: &String) -> (r: bool)
    ensures
        r == denied_in(item_keys(items@), name@),
{
    let ghost ks = item_keys(items@);
    let mut i: usize = 0;
    while i < items.len()
        invariant
            i <= items@.len(),
            ks == item_keys(items@),
            forall|k: int| 0 <= k < i ==> !(#[trigger] ks[k].3 == FeedbagItem::CLASS_DENY && ks[k].0 == name@),
        decreases items@.len() - i,
    {
        assert(ks[i as int] == (items@[i as int].name@, items@[i as int].group_id, items@[i as int].item_id, items@[i as int].class_id));
        if items[i].class_id == FeedbagItem::CLASS_DENY && items[i].name == *name {
            assert(ks[i as int].3 == FeedbagItem::CLASS_DENY && ks[i as int].0 == name@);
            return true;
        }
        i = i + 1;
    }
    false
}

fn build_roster(items: &Vec<FeedbagItem>, count: usize) -> (r: Vec<Buddy>)
    ensures
        buddies_view(r@) == roster_of(item_keys(items@), count as nat),
{
    let ghost ks = item_keys(items@);
    let mut r: Vec<Buddy> = Vec::new();
    let mut taken: usize = 0;
    let mut i: usize = 0;
    assert(ks.skip(0) =~= ks);
    assert(seq![] + take_buddies(ks, count as nat) =~= take_buddies(ks, count as nat));
    while i < items.len()
        invariant
            i <= items@.len(),
            taken <= count,
            ks == item_keys(items@),
            take_buddies(ks, count as nat) == take_buddies(ks, count as nat).take(taken as int) + take_buddies(
                ks.skip(i as int),
                (count - taken) as nat,
            ),
            taken <= take_buddies(ks, count as nat).len(),
            buddies_view(r@) == take_buddies(ks, count as nat).take(taken as int).map_values(
                |k: ItemKey| roster_buddy(ks, k),
            ),
        decreases items@.len() - i,
    {
        let ghost rest = ks.skip(i as int);
        assert(rest[0] == ks[i as int]);
        assert(rest.drop_first() =~= ks.skip(i + 1));
        let ghost tb = take_buddies(ks, count as nat);
        if taken < count && items[i].class_id == FeedbagItem::CLASS_BUDDY {
            let it = &items[i];
            assert(ks[i as int] == (it.name@, it.group_id, it.item_id, it.class_id));
            let b = Buddy {
                screen_name: clone_string(&it.name),
                group_name: group_name_for(items, it.group_id),
                is_online: false,
                is_away: false,
                away_message: None,
                warning_level: 0,
                is_blocked: is_denied(items, &it.name),
            };
            proof {
                assert(take_buddies(rest, (count - taken) as nat) == seq![rest[0]] + take_buddies(
                    ks.skip(i + 1),
                    (count - taken - 1) as nat,
                ));
                assert(tb[taken as int] == ks[i as int]);
                assert(tb.take(taken + 1) =~= tb.take(taken as int).push(ks[i as int]));
                assert(tb =~= tb.take(taken + 1) + take_buddies(ks.skip(i + 1), (count - taken - 1) as nat));
            }
            assert(buddy_view(b) == roster_buddy(ks, ks[i as int]));
            let ghost old_r = buddies_view(r@);
            let ghost bv = buddy_view(b);
            r.push(b);
            assert(buddies_view(r@) =~= old_r.push(bv));
            assert(tb.take(taken + 1).map_values(|k: ItemKey| roster_buddy(ks, k)) =~= tb.take(
                taken as int,
            ).map_values(|k: ItemKey| roster_buddy(ks, k)).push(roster_buddy(ks, ks[i as int])));
            taken = taken + 1;
        } else {
            proof {
                if taken == count {
                    assert(take_buddies(ks.skip(i + 1), 0) =~= seq![]);
                }
            }
        }
        i = i + 1;
    }
    proof {
        let tb = take_buddies(ks, count as nat);
        assert(ks.skip(i as int) =~= seq![]);
        assert(tb.take(taken as int) + seq![] =~= tb.take(taken as int));
        assert(tb.take(taken as int) =~= tb);
    }
    r
}

/// What a feedbag reply body does to the session, and the
/// acknowledgement it answers with.
pub open spec fn feedbag_reply_post(a: OscarSession, b: OscarSession, body: Seq<u8>, r: Option<Snac>) -> bool {
    &&& (body.len() <= 3 ==> r is None && keeps_buddies(a, b) && keeps_items(a, b) && keeps_ids(a, b))
    &&& (body.len() > 3 ==> {
        let es = crate::feedbag::feedbag_items_of(body.skip(3));
        &&& b.feedbag_items@.len() == es.len()
        &&& forall|i: int| 0 <= i < es.len() ==> #[trigger] crate::feedbag::item_is(b.feedbag_items@[i], es[i])
        &&& buddies_view(b.buddies@) == roster_of(entry_keys(es), be16_at(body, 1) as nat)
        &&& b.ids.0 == next_id(a.ids.0)
        &&& r matches Some(s) && s.header == header_for(SnacFamily::Feedbag, FEEDBAG_USE, b.ids.0) && s.body@.len()
            == 0
    })
    &&& keeps_counter(a, b)
    &&& keeps_away(a, b)
    &&& keeps_inbox(a, b)
    &&& keeps_pending(a, b)
    &&& keeps_identity(a, b)
}

impl OscarSession {
    /// Applies a feedbag reply (version byte, item count, the items, a
    /// timestamp): the parsed items replace `feedbag_items`, the buddy list
    /// is rebuilt from them (at most the announced count of buddies), and
    /// the acknowledgement to send back is returned. A body of 3 bytes or
    /// fewer changes nothing.
    pub fn handle_feedbag_reply(&mut self, body: &[u8]) -> (r: Option<Snac>)
        ensures
            feedbag_reply_post(*old(self), *final(self), body@, r),
    {
        if body.len() <= 3 {
            return None;
        }
        let item_count = read_be16(body, 1) as usize;
        let rest = &body[3..body.len()];
        assert(rest@ =~= body@.skip(3));
        let items = FeedbagItem::parse_all(rest);
        proof {
            let es = crate::feedbag::feedbag_items_of(body@.skip(3));
            assert forall|k: int| 0 <= k < es.len() implies #[trigger] item_keys(items@)[k] == entry_keys(es)[k] by {
                assert(crate::feedbag::item_is(items@[k], es[k]));
            }
            assert(item_keys(items@) =~= entry_keys(es));
        }
        let buddies = build_roster(&items, item_count);
        self.buddies = buddies;
        self.feedbag_items = items;
        let s = self.make_snac(SnacFamily::Feedbag, FEEDBAG_USE, Vec::new());
        Some(s)
    }
}


// Presence, Locate, warning replies, redirects, incoming messages.

pub const PRESENCE_ARRIVED: u16 = 0x0B;

pub const PRESENCE_DEPARTED: u16 = 0x0C;

/// Everything but the buddy list stays as it was.
pub open spec fn only_buddies_change(a: OscarSession, b: OscarSession) -> bool {
    &&& keeps_items(a, b)
    &&& keeps_ids(a, b)
    &&& keeps_counter(a, b)
    &&& keeps_away(a, b)
    &&& keeps_inbox(a, b)
    &&& keeps_pending(a, b)
    &&& keeps_identity(a, b)
}

/// Nothing changes.
pub open spec fn unchanged(a: OscarSession, b: OscarSession) -> bool {
    keeps_buddies(a, b) && only_buddies_change(a, b)
}

/// Whether an arrival's user TLVs say away: bit 0x0020 of the user flags
/// (TLV 0x01, u16) or bit 0x00000001 of the status (TLV 0x06, u32).
pub open spec fn presence_away(m: Map<u16, Seq<u8>>) -> bool {
    ||| (m.contains_key(0x01) && m[0x01].len() >= 2 && be16_at(m[0x01], 0) & 0x0020 != 0)
    ||| (m.contains_key(0x06) && m[0x06].len() >= 4 && be32_at(m[0x06], 0) & 0x0000_0001 != 0)
}

/// What a presence frame does: an arrival marks the named buddy online,
/// away or not, with the carried warning level; a departure marks them
/// offline (and not away). Other subtypes, and bodies that are not a whole
/// user block, change nothing.
pub open spec fn presence_post(a: OscarSession, b: OscarSession, subtype: u16, body: Seq<u8>) -> bool {
    &&& only_buddies_change(a, b)
    &&& if (subtype == PRESENCE_ARRIVED || subtype == PRESENCE_DEPARTED) && crate::snac::user_info_fits(body) {
        let name = crate::text::bytes_to_text(crate::snac::user_info_name_bytes(body));
        let bv = buddies_view(a.buddies@);
        if subtype == PRESENCE_ARRIVED {
            let away = presence_away(crate::snac::user_info_tlvs(body));
            buddies_view(b.buddies@) == buddies_after(
                buddies_after(buddies_after(bv, name, BuddyUpdate::Online(true)), name, BuddyUpdate::Away(away)),
                name,
                BuddyUpdate::Warning(crate::snac::user_info_warning(body)),
            )
        } else {
            buddies_view(b.buddies@) == buddies_after(bv, name, BuddyUpdate::Online(false))
        }
    } else {
        keeps_buddies(a, b)
    }
}

/// The presence tiers hold: every buddy marked away is online (a buddy is
/// online, away, or offline).
pub open spec fn tiers_hold(bs: Seq<BuddyView>) -> bool {
    forall|i: int| 0 <= i < bs.len() ==> #[trigger] bs[i].3 ==> bs[i].2
}

proof fn lemma_update_keeps_tiers(bs: Seq<BuddyView>, name: Seq<char>, u: BuddyUpdate)
    requires
        tiers_hold(bs),
        u is Away ==> (first_buddy(bs, name) matches Some(i) ==> bs[i].2),
    ensures
        tiers_hold(buddies_after(bs, name, u)),
        first_buddy(buddies_after(bs, name, u), name) == first_buddy(bs, name),
        u matches BuddyUpdate::Online(on) ==> (first_buddy(bs, name) matches Some(i) ==> buddies_after(bs, name, u)[i].2
            == on),
{
    lemma_first_buddy_bounds(bs, name);
    if let Some(i) = first_buddy(bs, name) {
        let v = updated_view(bs[i], u);
        lemma_first_buddy_same_names(bs, i, v, name);
        let r = bs.update(i, v);
        assert forall|k: int| 0 <= k < r.len() implies #[trigger] r[k].3 ==> r[k].2 by {
            if k != i {
                assert(r[k] == bs[k]);
            }
        }
    }
}

/// Presence frames keep the tiers: when every buddy marked away is online
/// before a presence frame, the same holds after it.
pub proof fn lemma_presence_keeps_tiers(a: OscarSession, b: OscarSession, subtype: u16, body: Seq<u8>)
    requires
        presence_post(a, b, subtype, body),
        tiers_hold(buddies_view(a.buddies@)),
    ensures
        tiers_hold(buddies_view(b.buddies@)),
{
    let bv = buddies_view(a.buddies@);
    if (subtype == PRESENCE_ARRIVED || subtype == PRESENCE_DEPARTED) && crate::snac::user_info_fits(body) {
        let name = crate::text::bytes_to_text(crate::snac::user_info_name_bytes(body));
        if subtype == PRESENCE_ARRIVED {
            let away = presence_away(crate::snac::user_info_tlvs(body));
            let b1 = buddies_after(bv, name, BuddyUpdate::Online(true));
            lemma_update_keeps_tiers(bv, name, BuddyUpdate::Online(true));
            lemma_update_keeps_tiers(b1, name, BuddyUpdate::Away(away));
            let b2 = buddies_after(b1, name, BuddyUpdate::Away(away));
            lemma_update_keeps_tiers(b2, name, BuddyUpdate::Warning(crate::snac::user_info_warning(body)));
        } else {
            lemma_update_keeps_tiers(bv, name, BuddyUpdate::Online(false));
        }
    }
}

proof fn lemma_update_at_first(bs: Seq<BuddyView>, name: Seq<char>, u: BuddyUpdate, i: int)
    requires
        first_buddy(bs, name) == Some(i),
    ensures
        0 <= i < bs.len(),
        buddies_after(bs, name, u).len() == bs.len(),
        buddies_after(bs, name, u)[i] == updated_view(bs[i], u),
        first_buddy(buddies_after(bs, name, u), name) == Some(i),
{
    lemma_first_buddy_bounds(bs, name);
    lemma_first_buddy_same_names(bs, i, updated_view(bs[i], u), name);
}

/// An arrival marks the buddy online with the carried warning level, and
/// away exactly when bit 0x0020 of its user flags (TLV 0x01) is set,
/// whatever other flag bits are set.
pub proof fn lemma_arrival_flags(a: OscarSession, b: OscarSession, name: Seq<u8>, warning: u16, flags: u16)
    requires
        name.len() <= 255,
        presence_post(
            a,
            b,
            PRESENCE_ARRIVED,
            crate::snac::user_info_bytes(name, warning, seq![(0x01u16, be16_bytes(flags))]),
        ),
    ensures
        first_buddy(buddies_view(a.buddies@), crate::text::bytes_to_text(name)) matches Some(i) ==> {
            &&& buddies_view(b.buddies@)[i].2
            &&& buddies_view(b.buddies@)[i].3 == (flags & 0x0020 != 0)
            &&& buddies_view(b.buddies@)[i].5 == warning
        },
{
    let l = seq![(0x01u16, be16_bytes(flags))];
    let body = crate::snac::user_info_bytes(name, warning, l);
    assert(crate::snac::tlv_values_fit(l));
    crate::snac::lemma_user_info_roundtrip(name, warning, l, seq![]);
    assert(body + seq![] =~= body);
    let m = crate::snac::user_info_tlvs(body);
    assert(l.drop_last() =~= Seq::<(u16, Seq<u8>)>::empty());
    assert(crate::snac::tlv_map(l.drop_last()) == Map::<u16, Seq<u8>>::empty());
    assert(l.last() == (0x01u16, be16_bytes(flags)));
    assert(crate::snac::tlv_map(l) == Map::<u16, Seq<u8>>::empty().insert(0x01u16, be16_bytes(flags)));
    assert(m == crate::snac::tlv_map(l));
    crate::bytes::lemma_be16_roundtrip(flags);
    assert(!m.contains_key(0x06));
    assert(presence_away(m) == (flags & 0x0020 != 0));
    let n = crate::text::bytes_to_text(name);
    let bv = buddies_view(a.buddies@);
    if let Some(i) = first_buddy(bv, n) {
        let away = presence_away(m);
        lemma_update_at_first(bv, n, BuddyUpdate::Online(true), i);
        let b1 = buddies_after(bv, n, BuddyUpdate::Online(true));
        lemma_update_at_first(b1, n, BuddyUpdate::Away(away), i);
        let b2 = buddies_after(b1, n, BuddyUpdate::Away(away));
        lemma_update_at_first(b2, n, BuddyUpdate::Warning(warning), i);
    }
}

/// The away message a user-info reply carries for its user: TLV 0x04 of
/// the TLVs after the user block, when present and non-empty.
pub open spec fn locate_away_text(body: Seq<u8>) -> Option<Seq<char>> {
    let m = crate::snac::tlv_block_map(body.skip(crate::snac::user_info_len(body)));
    if m.contains_key(AWAY_TEXT) && crate::text::bytes_to_text(m[AWAY_TEXT]).len() > 0 {
        Some(crate::text::bytes_to_text(m[AWAY_TEXT]))
    } else {
        None
    }
}

/// What a Locate frame does: a user-info reply sets the named buddy's away
/// message (cleared when there is none); anything else changes nothing.
pub open spec fn locate_post(a: OscarSession, b: OscarSession, subtype: u16, body: Seq<u8>) -> bool {
    &&& only_buddies_change(a, b)
    &&& if subtype == LOCATE_USER_INFO_REPLY && crate::snac::user_info_fits(body) {
        let name = crate::text::bytes_to_text(crate::snac::user_info_name_bytes(body));
        let bv = buddies_view(a.buddies@);
        match first_buddy(bv, name) {
            Some(i) => buddies_view(b.buddies@) == bv.update(
                i,
                (bv[i].0, bv[i].1, bv[i].2, bv[i].3, locate_away_text(body), bv[i].5, bv[i].6),
            ),
            None => keeps_buddies(a, b),
        }
    } else {
        keeps_buddies(a, b)
    }
}

/// What a warning reply does: with at least 4 bytes, the pending warning
/// under its request id is claimed and the warned buddy gets the new
/// level (bytes 2-3); a shorter body changes nothing.
pub open spec fn warning_reply_post(a: OscarSession, b: OscarSession, request_id: u32, body: Seq<u8>) -> bool {
    &&& keeps_items(a, b)
    &&& keeps_ids(a, b)
    &&& keeps_counter(a, b)
    &&& keeps_away(a, b)
    &&& keeps_inbox(a, b)
    &&& keeps_identity(a, b)
    &&& b.pending_service_redirect_replies@ == a.pending_service_redirect_replies@
    &&& if body.len() < 4 {
        keeps_buddies(a, b) && b.pending_warnings@ == a.pending_warnings@
    } else {
        &&& b.pending_warnings@ == a.pending_warnings@.remove(request_id)
        &&& if a.pending_warnings@.contains_key(request_id) {
            buddies_view(b.buddies@) == buddies_after(
                buddies_view(a.buddies@),
                a.pending_warnings@[request_id]@,
                BuddyUpdate::Warning(be16_at(body, 2)),
            )
        } else {
            keeps_buddies(a, b)
        }
    }
}

/// What a redirect reply does: when its TLVs hold a usable address and
/// cookie, they are filed under the request id.
pub open spec fn redirect_reply_post(a: OscarSession, b: OscarSession, request_id: u32, body: Seq<u8>) -> bool {
    &&& keeps_buddies(a, b)
    &&& keeps_items(a, b)
    &&& keeps_ids(a, b)
    &&& keeps_counter(a, b)
    &&& keeps_away(a, b)
    &&& keeps_inbox(a, b)
    &&& keeps_identity(a, b)
    &&& b.pending_warnings@ == a.pending_warnings@
    &&& match crate::client::redirect_of(crate::snac::tlv_block_map(body)) {
        Some((host, port, cookie)) => {
            let m = b.pending_service_redirect_replies@;
            &&& m.dom() == a.pending_service_redirect_replies@.dom().insert(request_id)
            &&& m[request_id].0.host@ == host
            &&& m[request_id].0.port == port
            &&& m[request_id].1@ == cookie
            &&& forall|k: u32|
                k != request_id && #[trigger] a.pending_service_redirect_replies@.contains_key(k) ==> m[k]
                    == a.pending_service_redirect_replies@[k]
        },
        None => b.pending_service_redirect_replies@ == a.pending_service_redirect_replies@,
    }
}

/// Received messages as (sender, text).
pub open spec fn ims_view(v: Seq<IncomingIm>) -> Seq<(Seq<char>, Seq<char>)> {
    v.map_values(|m: IncomingIm| (m.from@, m.text@))
}

/// What an incoming ICBM does: on channel 2 a readable invite is
/// appended to the invites; on any other channel (or none) a readable
/// message is appended to the messages.
pub open spec fn incoming_icbm_post(a: OscarSession, b: OscarSession, body: Seq<u8>) -> bool {
    &&& keeps_buddies(a, b)
    &&& keeps_items(a, b)
    &&& keeps_ids(a, b)
    &&& keeps_counter(a, b)
    &&& keeps_away(a, b)
    &&& keeps_pending(a, b)
    &&& keeps_identity(a, b)
    &&& if crate::messaging::icbm_channel_of(body) == Some(2u16) {
        &&& b.incoming_messages@ == a.incoming_messages@
        &&& match crate::messaging::chat_invite_of(body) {
            Some((from, text, exchange, cookie, instance)) => {
                let inv = b.incoming_chat_invites@.last();
                &&& b.incoming_chat_invites@.len() == a.incoming_chat_invites@.len() + 1
                &&& b.incoming_chat_invites@.drop_last() == a.incoming_chat_invites@
                &&& inv.from@ == from
                &&& inv.invitation_text@ == text
                &&& inv.room.exchange == exchange
                &&& inv.room.room_cookie@ == cookie
                &&& inv.room.instance == instance
                &&& inv.room.room_name@ == crate::messaging::room_name_of_cookie(cookie)
            },
            None => b.incoming_chat_invites@ == a.incoming_chat_invites@,
        }
    } else {
        &&& b.incoming_chat_invites@ == a.incoming_chat_invites@
        &&& match crate::messaging::incoming_im_of(body) {
            Some(m) => ims_view(b.incoming_messages@) == ims_view(a.incoming_messages@).push(m),
            None => b.incoming_messages@ == a.incoming_messages@,
        }
    }
}

impl OscarSession {
    /// Applies a presence (family 0x03) frame.
    pub fn handle_presence_frame(&mut self, snac: &Snac)
        ensures
            presence_post(*old(self), *final(self), snac.header.subtype, snac.body@),
    {
        let subtype = snac.header.subtype;
        if subtype != PRESENCE_ARRIVED && subtype != PRESENCE_DEPARTED {
            return;
        }
        let (info, _) = match crate::snac::UserInfo::parse(snac.body.as_slice()) {
            Some(p) => p,
            None => return,
        };
        if subtype == PRESENCE_ARRIVED {
            let away_via_flags = match info.tlvs.get(&0x01) {
                Some(data) => data.len() >= 2 && read_be16(data.as_slice(), 0) & 0x0020 != 0,
                None => false,
            };
            let away_via_status = match info.tlvs.get(&0x06) {
                Some(data) => data.len() >= 4 && read_be32(data.as_slice(), 0) & 0x0000_0001 != 0,
                None => false,
            };
            let name = info.screen_name.as_str();
            self.update_first_buddy(name, BuddyUpdate::Online(true));
            self.update_first_buddy(name, BuddyUpdate::Away(away_via_flags || away_via_status));
            self.update_first_buddy(name, BuddyUpdate::Warning(info.warning_level));
        } else {
            self.update_first_buddy(info.screen_name.as_str(), BuddyUpdate::Online(false));
        }
    }

    /// Applies a Locate (family 0x02) frame.
    pub fn handle_locate_frame(&mut self, snac: &Snac)
        ensures
            locate_post(*old(self), *final(self), snac.header.subtype, snac.body@),
    {
        if snac.header.subtype != LOCATE_USER_INFO_REPLY {
            return;
        }
        let (info, consumed) = match crate::snac::UserInfo::parse(snac.body.as_slice()) {
            Some(p) => p,
            None => return,
        };
        let rest = &snac.body.as_slice()[consumed..snac.body.len()];
        assert(rest@ =~= snac.body@.skip(consumed as int));
        let tlvs = Tlv::parse_all(rest);
        let away_text = match tlvs.get(&AWAY_TEXT) {
            Some(v) => {
                let t = crate::text::string_from_utf8_lossy(v.as_slice());
                if t.as_str().is_empty() {
                    None
                } else {
                    Some(t)
                }
            },
            None => None,
        };
        assert(opt_text(away_text) == locate_away_text(snac.body@));
        let ghost bv = buddies_view(self.buddies@);
        let ghost name = info.screen_name@;
        let ghost u = BuddyUpdate::AwayMessage(away_text);
        proof {
            lemma_first_buddy_bounds(bv, name);
        }
        self.update_first_buddy(info.screen_name.as_str(), BuddyUpdate::AwayMessage(away_text));
        proof {
            assert(buddies_view(self.buddies@) == buddies_after(bv, name, u));
            if let Some(i) = first_buddy(bv, name) {
                assert(updated_view(bv[i], u) == (bv[i].0, bv[i].1, bv[i].2, bv[i].3, locate_away_text(snac.body@), bv[i].5, bv[i].6));
            }
        }
    }

    /// Applies a warning reply (family 0x04, subtype 0x09).
    pub fn handle_warning_reply(&mut self, snac: &Snac)
        ensures
            warning_reply_post(*old(self), *final(self), snac.header.request_id, snac.body@),
    {
        if snac.body.len() < 4 {
            return;
        }
        let new_level = read_be16(snac.body.as_slice(), 2);
        if let Some(screen_name) = self.pending_warnings.remove(&snac.header.request_id) {
            self.update_first_buddy(screen_name.as_str(), BuddyUpdate::Warning(new_level));
        }
    }

    /// Applies a redirect reply (family 0x01, subtype 0x05).
    pub fn handle_redirect_reply(&mut self, snac: &Snac)
        ensures
            redirect_reply_post(*old(self), *final(self), snac.header.request_id, snac.body@),
    {
        let tlvs = Tlv::parse_all(snac.body.as_slice());
        proof {
            assert(tlvs@.map_values(|v: Vec<u8>| v@) =~= crate::snac::tlv_block_map(snac.body@));
        }
        if let Ok(result) = crate::client::parse_redirect_address_and_cookie(&tlvs) {
            self.pending_service_redirect_replies.insert(snac.header.request_id, result);
        }
    }

    /// Applies an incoming ICBM (family 0x04, subtype 0x07).
    pub fn handle_incoming_icbm(&mut self, body: &[u8])
        ensures
            incoming_icbm_post(*old(self), *final(self), body@),
    {
        match crate::messaging::icbm_channel(body) {
            Some(2) => {
                if let Some(invite) = crate::messaging::parse_chat_invite(body) {
                    self.incoming_chat_invites.push(invite);
                    assert(self.incoming_chat_invites@.drop_last() =~= old(self).incoming_chat_invites@);
                }
            },
            _ => {
                if let Some(im) = crate::messaging::parse_incoming_im(body) {
                    self.incoming_messages.push(im);
                    assert(ims_view(self.incoming_messages@) =~= ims_view(old(self).incoming_messages@).push(
                        crate::messaging::incoming_im_of(body@).unwrap(),
                    ));
                }
            },
        }
    }
}


/// What a frame on the BOS connection is, for the session.
pub enum BosEvent {
    /// Not a data SNAC this session handles.
    Ignored,
    /// A service redirect reply (family 0x01, subtype 0x05).
    RedirectReply,
    /// An incoming ICBM (family 0x04, subtype 0x07).
    IncomingIcbm,
    /// A warning reply (family 0x04, subtype 0x09).
    WarningReply,
    /// A feedbag reply (family 0x13, subtype 0x06).
    FeedbagReply,
    /// A presence frame (family 0x03).
    Presence,
    /// A Locate frame (family 0x02).
    Locate,
}

/// How `dispatch_frame` classifies a frame.
pub open spec fn bos_event_of(channel: crate::flap::FlapChannel, payload: Seq<u8>) -> BosEvent {
    match crate::snac::snac_header_of(payload) {
        None => BosEvent::Ignored,
        Some(h) => if channel != crate::flap::FlapChannel::Data {
            BosEvent::Ignored
        } else {
            match crate::snac::family_of_code(h.family) {
                Some(SnacFamily::Generic) => if h.subtype == 0x05 {
                    BosEvent::RedirectReply
                } else {
                    BosEvent::Ignored
                },
                Some(SnacFamily::Messaging) => if h.subtype == crate::messaging::INCOMING_IM {
                    BosEvent::IncomingIcbm
                } else if h.subtype == crate::messaging::WARNING_REPLY {
                    BosEvent::WarningReply
                } else {
                    BosEvent::Ignored
                },
                Some(SnacFamily::Feedbag) => if h.subtype == FEEDBAG_REPLY {
                    BosEvent::FeedbagReply
                } else {
                    BosEvent::Ignored
                },
                Some(SnacFamily::BuddyPresence) => BosEvent::Presence,
                Some(SnacFamily::Locate) => BosEvent::Locate,
                _ => BosEvent::Ignored,
            }
        },
    }
}

impl OscarSession {
    /// Applies one frame read from the BOS connection and returns the SNAC
    /// to send in answer, if any (the acknowledgement of a feedbag reply).
    pub fn dispatch_frame(&mut self, frame: FlapFrame) -> (r: Option<Snac>)
        ensures
            ({
                let p = frame.payload@;
                let body = p.skip(10);
                match bos_event_of(frame.channel, p) {
                    BosEvent::Ignored => unchanged(*old(self), *final(self)) && r is None,
                    BosEvent::RedirectReply => redirect_reply_post(
                        *old(self),
                        *final(self),
                        crate::snac::snac_header_of(p).unwrap().request_id,
                        body,
                    ) && r is None,
                    BosEvent::IncomingIcbm => incoming_icbm_post(*old(self), *final(self), body) && r is None,
                    BosEvent::WarningReply => warning_reply_post(
                        *old(self),
                        *final(self),
                        crate::snac::snac_header_of(p).unwrap().request_id,
                        body,
                    ) && r is None,
                    BosEvent::FeedbagReply => feedbag_reply_post(*old(self), *final(self), body, r),
                    BosEvent::Presence => presence_post(
                        *old(self),
                        *final(self),
                        crate::snac::snac_header_of(p).unwrap().subtype,
                        body,
                    ) && r is None,
                    BosEvent::Locate => locate_post(
                        *old(self),
                        *final(self),
                        crate::snac::snac_header_of(p).unwrap().subtype,
                        body,
                    ) && r is None,
                }
            }),
    {
        if frame.channel != crate::flap::FlapChannel::Data {
            return None;
        }
        let snac = match Snac::parse(frame.payload.as_slice()) {
            Some(s) => s,
            None => return None,
        };
        assert(snac.body@ =~= frame.payload@.skip(10));
        match SnacFamily::from_u16(snac.header.family) {
            Some(SnacFamily::Generic) => {
                if snac.header.subtype == 0x05 {
                    self.handle_redirect_reply(&snac);
                }
                None
            },
            Some(SnacFamily::Messaging) => {
                if snac.header.subtype == crate::messaging::INCOMING_IM {
                    self.handle_incoming_icbm(snac.body.as_slice());
                } else if snac.header.subtype == crate::messaging::WARNING_REPLY {
                    self.handle_warning_reply(&snac);
                }
                None
            },
            Some(SnacFamily::Feedbag) => {
                if snac.header.subtype == FEEDBAG_REPLY {
                    self.handle_feedbag_reply(snac.body.as_slice())
                } else {
                    None
                }
            },
            Some(SnacFamily::BuddyPresence) => {
                self.handle_presence_frame(&snac);
                None
            },
            Some(SnacFamily::Locate) => {
                self.handle_locate_frame(&snac);
                None
            },
            _ => None,
        }
    }
}

} // verus!
