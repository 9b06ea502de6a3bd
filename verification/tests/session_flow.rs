use oscar_rs::feedbag::{Buddy, FeedbagItem};
use oscar_rs::flap::{FlapChannel, FlapFrame};
use oscar_rs::session::OscarSession;
use oscar_rs::snac::{Snac, SnacFamily, SnacHeader, Tlv};
use oscar_rs::snapshot::SessionSnapshot;

fn bos_frame(family: SnacFamily, subtype: u16, request_id: u32, body: Vec<u8>) -> FlapFrame {
    let snac = Snac { header: SnacHeader { family: family.as_u16(), subtype, flags: 0, request_id }, body };
    FlapFrame { channel: FlapChannel::Data, sequence: 0, payload: snac.encode() }
}

fn user_block(name: &str, warning: u16, tlvs: &[Tlv]) -> Vec<u8> {
    let mut data = vec![name.len() as u8];
    data.extend_from_slice(name.as_bytes());
    data.extend_from_slice(&warning.to_be_bytes());
    data.extend_from_slice(&(tlvs.len() as u16).to_be_bytes());
    for t in tlvs {
        data.extend(t.encode());
    }
    data
}

fn roster_reply() -> FlapFrame {
    let group = FeedbagItem { name: "Buddies".to_string(), group_id: 0, item_id: 1, class_id: FeedbagItem::CLASS_GROUP, attributes: Vec::new() };
    let buddy = FeedbagItem { name: "Buddy1".to_string(), group_id: 1, item_id: 2, class_id: FeedbagItem::CLASS_BUDDY, attributes: Vec::new() };
    let mut body = vec![0x00, 0x00, 0x02];
    body.extend(group.encode());
    body.extend(buddy.encode());
    body.extend_from_slice(&[0, 0, 0, 0]);
    bos_frame(SnacFamily::Feedbag, 0x06, 2, body)
}

fn synced_session() -> OscarSession {
    let mut session = OscarSession::new("TestScreenName".to_string());
    let ack = session.dispatch_frame(roster_reply()).unwrap();
    assert_eq!(ack.header.family, SnacFamily::Feedbag.as_u16());
    assert_eq!(ack.header.subtype, 0x07);
    session
}

#[test]
fn requesting_the_buddy_list_sends_a_feedbag_query() {
    let mut session = OscarSession::new("Me".to_string());
    let snac = session.request_buddy_list();
    assert_eq!(snac.header.family, 0x13);
    assert_eq!(snac.header.subtype, 0x04);
    assert_eq!(snac.header.request_id, 1);
    assert!(snac.body.is_empty());
}

#[test]
fn a_feedbag_reply_builds_the_roster() {
    let session = synced_session();
    assert_eq!(
        session.buddies,
        vec![Buddy {
            screen_name: "Buddy1".to_string(),
            group_name: "Buddies".to_string(),
            is_online: false,
            is_away: false,
            away_message: None,
            warning_level: 0,
            is_blocked: false,
        }]
    );
    assert_eq!(session.feedbag_items.len(), 2);
}

#[test]
fn presence_arrival_and_departure_update_the_buddy() {
    let mut session = synced_session();
    let arrival = user_block("Buddy1", 250, &[Tlv::new(0x01, 0x0020u16.to_be_bytes().to_vec())]);
    assert!(session.dispatch_frame(bos_frame(SnacFamily::BuddyPresence, 0x0B, 3, arrival)).is_none());
    assert!(session.buddies[0].is_online);
    assert!(session.buddies[0].is_away);
    assert_eq!(session.buddies[0].warning_level, 250);

    session.dispatch_frame(bos_frame(SnacFamily::BuddyPresence, 0x0C, 4, user_block("buddy 1", 0, &[])));
    assert!(!session.buddies[0].is_online);
    assert!(!session.buddies[0].is_away);
}

#[test]
fn presence_away_via_the_status_tlv() {
    let mut session = synced_session();
    let arrival = user_block("Buddy1", 0, &[Tlv::new(0x06, vec![0, 0, 0, 1])]);
    session.dispatch_frame(bos_frame(SnacFamily::BuddyPresence, 0x0B, 3, arrival));
    assert!(session.buddies[0].is_online);
    assert!(session.buddies[0].is_away);
}

#[test]
fn an_incoming_im_is_recorded() {
    let mut session = synced_session();
    let mut body = vec![0u8; 8];
    body.extend_from_slice(&1u16.to_be_bytes());
    body.extend(user_block("Buddy1", 0, &[]));
    let inner = Tlv::new(0x0101, [&[0u8, 0][..], b"hey there"].concat()).encode();
    body.extend(Tlv::new(0x02, inner).encode());
    session.dispatch_frame(bos_frame(SnacFamily::Messaging, 0x07, 4, body));
    assert_eq!(session.incoming_messages.len(), 1);
    assert_eq!(session.incoming_messages[0].from, "Buddy1");
    assert_eq!(session.incoming_messages[0].text, "hey there");
}

#[test]
fn away_message_and_user_info_reply() {
    let mut session = synced_session();
    let set = session.set_away_message(Some("brb"));
    assert_eq!(set.header.family, SnacFamily::Locate.as_u16());
    assert_eq!(set.header.subtype, 0x04);
    assert_eq!(String::from_utf8_lossy(Tlv::parse_all(&set.body).get(&0x04).unwrap()), "brb");
    assert_eq!(session.away_message, None);
    session.commit_away_message(Some("brb"));
    assert_eq!(session.away_message.as_deref(), Some("brb"));

    let query = session.request_user_info("Buddy1");
    assert_eq!(query.header.subtype, 0x05);
    assert_eq!(query.body, vec![0, 2, 6, b'B', b'u', b'd', b'd', b'y', b'1']);

    let mut reply = user_block("Buddy1", 0, &[]);
    reply.extend(Tlv::new(0x04, b"On a call".to_vec()).encode());
    session.dispatch_frame(bos_frame(SnacFamily::Locate, 0x06, 5, reply));
    assert_eq!(session.buddies[0].away_message.as_deref(), Some("On a call"));

    session.set_away_message(None);
    assert_eq!(session.away_message.as_deref(), Some("brb"));
    session.commit_away_message(None);
    assert_eq!(session.away_message, None);
}

#[test]
fn a_warning_reply_updates_the_warned_buddy() {
    let mut session = synced_session();
    let request = session.send_warning("Buddy1", false);
    assert!(session.pending_warnings.is_empty());
    session.commit_warning(request.header.request_id, "Buddy1");
    assert_eq!(request.header.subtype, 0x08);
    assert_eq!(request.body, vec![0, 0, 6, b'B', b'u', b'd', b'd', b'y', b'1']);
    let mut body = 0u16.to_be_bytes().to_vec();
    body.extend_from_slice(&500u16.to_be_bytes());
    session.dispatch_frame(bos_frame(SnacFamily::Messaging, 0x09, request.header.request_id, body.clone()));
    assert_eq!(session.buddies[0].warning_level, 500);
    assert!(session.pending_warnings.is_empty());
    let mut other = body.clone();
    other[3] = 0x10;
    session.dispatch_frame(bos_frame(SnacFamily::Messaging, 0x09, request.header.request_id, other));
    assert_eq!(session.buddies[0].warning_level, 500);
}

#[test]
fn block_then_unblock_restores_the_feedbag() {
    let mut session = synced_session();
    let before = session.feedbag_items.clone();
    let (insert, deny) = session.add_to_block_list("Buddy1").unwrap();
    assert_eq!(insert.header.subtype, 0x08);
    let (item, _) = FeedbagItem::parse(&insert.body).unwrap();
    assert_eq!(item.name, "Buddy1");
    assert_eq!(item.class_id, FeedbagItem::CLASS_DENY);
    assert_eq!(item, deny);
    assert_eq!(session.feedbag_items, before);
    assert!(!session.buddies[0].is_blocked);
    session.commit_block(deny);
    assert!(session.buddies[0].is_blocked);
    assert!(session.add_to_block_list("buddy1").is_none());

    let delete = session.remove_from_block_list("Buddy1").unwrap();
    assert_eq!(delete.header.subtype, 0x0A);
    let (item, _) = FeedbagItem::parse(&delete.body).unwrap();
    assert_eq!(item.class_id, FeedbagItem::CLASS_DENY);
    assert!(session.buddies[0].is_blocked);
    session.commit_unblock("Buddy1");
    assert!(!session.buddies[0].is_blocked);
    assert_eq!(session.feedbag_items, before);
    assert!(session.remove_from_block_list("Buddy1").is_none());
}

#[test]
fn adding_a_buddy_to_a_new_group_inserts_the_group_first() {
    let mut session = synced_session();
    let (gid, new_group) = session.group_id("Work");
    let (group_snac, group_item) = new_group.unwrap();
    assert_eq!(session.feedbag_items.len(), 2);
    session.commit_item(group_item);
    let buddy_snac = session.buddy_insert("Pal", gid);
    assert_eq!(session.buddies.len(), 1);
    session.commit_buddy("Pal", "Work");
    let (group, _) = FeedbagItem::parse(&group_snac.body).unwrap();
    let (buddy, _) = FeedbagItem::parse(&buddy_snac.body).unwrap();
    assert_eq!(group.item_id, gid);
    assert_eq!(session.feedbag_items.len(), 3);
    assert_eq!(group.name, "Work");
    assert_eq!(group.class_id, FeedbagItem::CLASS_GROUP);
    assert_eq!(buddy.name, "Pal");
    assert_eq!(buddy.group_id, group.item_id);
    assert_ne!(buddy.item_id, group.item_id);
    assert!(buddy.item_id > 2 && group.item_id > 2);
    assert_eq!(session.buddies.len(), 2);
    assert_eq!(session.buddies[1].group_name, "Work");

    let (gid, new_group) = session.group_id("buddies");
    assert!(new_group.is_none());
    assert_eq!(gid, 1);
    let snac = session.buddy_insert("Pal2", gid);
    let (buddy, _) = FeedbagItem::parse(&snac.body).unwrap();
    assert_eq!(buddy.group_id, 1);
}

#[test]
fn removing_a_buddy_drops_every_match() {
    let mut session = synced_session();
    let delete = session.remove_buddy("BUDDY1").unwrap();
    assert_eq!(delete.header.subtype, 0x0A);
    assert_eq!(session.buddies.len(), 1);
    session.commit_buddy_removal("BUDDY1");
    assert!(session.buddies.is_empty());
    assert!(session.remove_buddy("Nobody").is_none());
}

#[test]
fn feedbag_item_ids_are_fresh() {
    let mut session = synced_session();
    let a = session.next_feedbag_item_id();
    let b = session.next_feedbag_item_id();
    assert_eq!(a, 3);
    assert_eq!(b, 4);
}

#[test]
fn outgoing_ims_and_invites_use_the_icbm_layout() {
    let mut session = synced_session();
    let im = session.send_message("Buddy1", "hi back");
    assert_eq!(im.header.family, SnacFamily::Messaging.as_u16());
    assert_eq!(im.header.subtype, 0x06);
    assert_eq!(&im.body[8..11], &[0, 1, 6]);
    let tlvs = Tlv::parse_all(&im.body[17..]);
    let fragments = Tlv::parse_all(tlvs.get(&0x02).unwrap());
    assert_eq!(&fragments.get(&0x0101).unwrap()[2..], b"hi back");
}

#[test]
fn a_session_snapshot_copies_the_session() {
    let mut session = synced_session();
    session.commit_away_message(Some("out"));
    let snap = SessionSnapshot::from(&session);
    assert_eq!(snap.screen_name, "TestScreenName");
    assert_eq!(snap.buddies, session.buddies);
    assert_eq!(snap.away_message.as_deref(), Some("out"));
    assert!(snap.incoming_messages.is_empty());
    assert!(snap.incoming_chat_invites.is_empty());
}

#[test]
fn frames_on_other_channels_change_nothing() {
    let mut session = synced_session();
    let mut frame = roster_reply();
    frame.channel = FlapChannel::KeepAlive;
    session.buddies.clear();
    assert!(session.dispatch_frame(frame).is_none());
    assert!(session.buddies.is_empty());
}

#[test]
fn service_redirect_replies_wait_to_be_claimed() {
    let mut session = synced_session();
    let (id, request) = session.request_service_redirect(0x0D, Vec::new());
    assert_eq!(request.header.subtype, 0x04);
    assert_eq!(request.header.request_id, id);
    let mut body = Tlv::new(0x05, b"chat.example.com:5190".to_vec()).encode();
    body.extend(Tlv::new(0x06, b"cookie".to_vec()).encode());
    session.dispatch_frame(bos_frame(SnacFamily::Generic, 0x05, id, body));
    let (addr, cookie) = session.take_service_redirect_reply(id).unwrap();
    assert_eq!(addr.host, "chat.example.com");
    assert_eq!(addr.port, 5190);
    assert_eq!(cookie, b"cookie".to_vec());
    assert!(session.take_service_redirect_reply(id).is_none());
}

#[test]
fn taking_an_invite_removes_it_from_the_list() {
    let mut session = synced_session();
    let mut body = vec![0u8; 8];
    body.extend_from_slice(&2u16.to_be_bytes());
    body.extend(user_block("Alice", 0, &[]));
    let mut svc = 4u16.to_be_bytes().to_vec();
    svc.push(5);
    svc.extend_from_slice(b"4-0-R");
    svc.extend_from_slice(&0u16.to_be_bytes());
    let mut fragment = vec![0u8, 0];
    fragment.extend_from_slice(&[0u8; 8]);
    fragment.extend_from_slice(&[0x74, 0x8F, 0x24, 0x20, 0x62, 0x87, 0x11, 0xD1, 0x82, 0x22, 0x44, 0x45, 0x53, 0x54, 0x00, 0x00]);
    fragment.extend(Tlv::new(0x2711, svc).encode());
    body.extend(Tlv::new(0x05, fragment).encode());
    session.dispatch_frame(bos_frame(SnacFamily::Messaging, 0x07, 4, body));
    assert_eq!(session.incoming_chat_invites.len(), 1);
    assert!(session.take_invite(1).is_none());
    assert_eq!(session.incoming_chat_invites.len(), 1);
    let invite = session.take_invite(0).unwrap();
    assert_eq!(invite.room.room_name, "R");
    assert!(session.incoming_chat_invites.is_empty());
}
