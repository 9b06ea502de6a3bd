use oscar_rs::chat::{parse_chat_message, parse_user_info_list, ChatRoomSession, MSG_TLV_INFO, MSG_TLV_TEXT, USERS_JOINED, USERS_LEFT};
use oscar_rs::chat_nav::{parse_chat_room_info_update, ChatRoomHandle, ROOM_TLV_NAME};
use oscar_rs::flap::{FlapChannel, FlapFrame};
use oscar_rs::snac::{Snac, SnacHeader, Tlv};
use oscar_rs::snapshot::{room_label_for, ChatRoomSnapshot};

fn build_user_info(name: &str, warning: u16) -> Vec<u8> {
    let mut data = vec![name.len() as u8];
    data.extend_from_slice(name.as_bytes());
    data.extend_from_slice(&warning.to_be_bytes());
    data.extend_from_slice(&0u16.to_be_bytes());
    data
}

fn build_room_info_update(exchange: u16, cookie: &str, instance: u16, room_name: &str) -> Vec<u8> {
    let mut body = exchange.to_be_bytes().to_vec();
    body.push(cookie.len() as u8);
    body.extend_from_slice(cookie.as_bytes());
    body.extend_from_slice(&instance.to_be_bytes());
    body.push(0x02);
    let name_tlv = Tlv::new(ROOM_TLV_NAME, room_name.as_bytes().to_vec());
    body.extend_from_slice(&1u16.to_be_bytes());
    body.extend(name_tlv.encode());
    body
}

fn chat_frame(subtype: u16, body: Vec<u8>) -> FlapFrame {
    let snac = Snac { header: SnacHeader { family: 0x0E, subtype, flags: 0, request_id: 0 }, body };
    FlapFrame { channel: FlapChannel::Data, sequence: 0, payload: snac.encode() }
}

fn room() -> ChatRoomSession {
    let handle = ChatRoomHandle { exchange: 4, room_cookie: "4-0-MyRoom".into(), instance: 0, room_name: "MyRoom".into() };
    ChatRoomSession::new(handle, "Me".to_string())
}

#[test]
fn parses_a_users_joined_body_with_multiple_occupants() {
    let mut body = build_user_info("Alice", 0);
    body.extend(build_user_info("Bob", 50));
    let occupants = parse_user_info_list(&body);
    assert_eq!(occupants.len(), 2);
    assert_eq!(occupants[0].screen_name, "Alice");
    assert_eq!(occupants[1].screen_name, "Bob");
    assert_eq!(occupants[1].warning_level, 50);
}

#[test]
fn parses_a_chat_message() {
    let mut body = vec![0u8; 8];
    body.extend_from_slice(&1u16.to_be_bytes());
    let sender_info = build_user_info("Alice", 0);
    body.extend(Tlv::new(0x03, sender_info).encode());
    let text_tlv = Tlv::new(MSG_TLV_TEXT, b"hello room".to_vec());
    body.extend(Tlv::new(MSG_TLV_INFO, text_tlv.encode()).encode());

    let message = parse_chat_message(&body).unwrap();
    assert_eq!(message.from, "Alice");
    assert_eq!(message.text, "hello room");
}

#[test]
fn parse_chat_message_rejects_a_body_without_sender() {
    let mut body = vec![0u8; 8];
    body.extend_from_slice(&1u16.to_be_bytes());
    let text_tlv = Tlv::new(MSG_TLV_TEXT, b"hi".to_vec());
    body.extend(Tlv::new(MSG_TLV_INFO, text_tlv.encode()).encode());
    assert!(parse_chat_message(&body).is_none());
}

#[test]
fn parses_a_chat_room_info_update() {
    let body = build_room_info_update(4, "4-0-MyRoom", 0, "MyRoom");
    let handle = parse_chat_room_info_update(&body).unwrap();
    assert_eq!(handle.exchange, 4);
    assert_eq!(handle.room_cookie, "4-0-MyRoom");
    assert_eq!(handle.instance, 0);
    assert_eq!(handle.room_name, "MyRoom");
}

#[test]
fn parse_chat_room_info_update_rejects_a_truncated_body() {
    assert!(parse_chat_room_info_update(&[0, 4, 10, b'4']).is_none());
}

#[test]
fn joins_skip_names_already_in_the_room_and_leaves_remove_them() {
    let mut r = room();
    let mut joined = build_user_info("Alice", 0);
    joined.extend(build_user_info("Bob", 5));
    joined.extend(build_user_info("alice", 0));
    r.dispatch_frame(chat_frame(USERS_JOINED, joined));
    assert_eq!(r.occupants.len(), 2);
    r.dispatch_frame(chat_frame(USERS_JOINED, build_user_info("B O B", 0)));
    assert_eq!(r.occupants.len(), 2);
    assert_eq!(r.occupants[1].warning_level, 5);
    r.dispatch_frame(chat_frame(USERS_LEFT, build_user_info("ALICE", 0)));
    assert_eq!(r.occupants.len(), 1);
    assert_eq!(r.occupants[0].screen_name, "Bob");
}

#[test]
fn a_room_message_is_recorded_and_a_room_info_update_replaces_the_handle() {
    let mut r = room();
    let mut body = vec![0u8; 8];
    body.extend_from_slice(&1u16.to_be_bytes());
    body.extend(Tlv::new(0x03, build_user_info("Alice", 0)).encode());
    body.extend(Tlv::new(MSG_TLV_INFO, Tlv::new(MSG_TLV_TEXT, b"hey".to_vec()).encode()).encode());
    r.dispatch_frame(chat_frame(0x06, body));
    assert_eq!(r.messages.len(), 1);
    assert_eq!(r.messages[0].text, "hey");
    r.dispatch_frame(chat_frame(0x02, build_room_info_update(4, "4-1-Other", 1, "Other")));
    assert_eq!(r.handle.room_name, "Other");
    assert_eq!(r.handle.instance, 1);
}

#[test]
fn frames_of_other_families_or_channels_are_ignored() {
    let mut r = room();
    let snac = Snac { header: SnacHeader { family: 0x04, subtype: USERS_JOINED, flags: 0, request_id: 0 }, body: build_user_info("A", 0) };
    r.dispatch_frame(FlapFrame { channel: FlapChannel::Data, sequence: 0, payload: snac.encode() });
    r.dispatch_frame(FlapFrame { channel: FlapChannel::KeepAlive, sequence: 0, payload: chat_frame(USERS_JOINED, build_user_info("A", 0)).payload });
    assert!(r.occupants.is_empty());
}

#[test]
fn a_sent_room_message_has_the_chat_layout() {
    let mut r = room();
    let snac = r.message_snac_with_cookie("hi", &[7; 8]);
    assert_eq!(snac.header.family, 0x0E);
    assert_eq!(snac.header.subtype, 0x05);
    assert_eq!(snac.header.request_id, 1);
    assert_eq!(snac.body, vec![7, 7, 7, 7, 7, 7, 7, 7, 0, 1, 0, 5, 0, 6, 0, 1, 0, 2, b'h', b'i']);
}

#[test]
fn sent_room_messages_take_successive_request_ids() {
    let mut r = room();
    let a = r.send_message("hi");
    let b = r.send_message("hi");
    assert_eq!(a.header.request_id + 1, b.header.request_id);
    assert_eq!(a.body.len(), 20);
    assert_eq!(&a.body[8..], &b.body[8..]);
}

#[test]
fn room_label_sanitizes_the_cookie() {
    assert_eq!(room_label_for("4-0-MyRoom"), "chat-4-0-myroom");
    assert_eq!(room_label_for("4-0-My Room!"), "chat-4-0-my_room_");
    assert_eq!(room_label_for("a_b-Ü"), "chat-a_b-_");
}

#[test]
fn a_room_snapshot_copies_the_room() {
    let mut r = room();
    r.dispatch_frame(chat_frame(USERS_JOINED, build_user_info("Alice", 3)));
    let snap = ChatRoomSnapshot::from_room(&r, true);
    assert_eq!(snap.room_name, "MyRoom");
    assert_eq!(snap.my_screen_name, "Me");
    assert_eq!(snap.occupants, r.occupants);
    assert!(snap.messages.is_empty());
    assert!(snap.closed);
}
