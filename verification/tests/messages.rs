use oscar_rs::chat_nav::ChatRoomHandle;
use oscar_rs::messaging::{
    icbm_channel, im_body_with_cookie, invitation_text_for, invite_body_with_cookies, parse_chat_invite, parse_incoming_im,
    room_name_from_cookie, warning_request_body, RDV_TLV_INVITATION, RDV_TLV_SEQ_NUM, RDV_TLV_SVC_DATA,
    RDV_TYPE_PROPOSE,
};
use oscar_rs::snac::Tlv;

const CAP_CHAT: [u8; 16] = [0x74, 0x8F, 0x24, 0x20, 0x62, 0x87, 0x11, 0xD1, 0x82, 0x22, 0x44, 0x45, 0x53, 0x54, 0x00, 0x00];

fn build_incoming_im_body(sender: &str, text: &str) -> Vec<u8> {
    let mut body = vec![0u8; 8];
    body.extend_from_slice(&1u16.to_be_bytes());
    body.push(sender.len() as u8);
    body.extend_from_slice(sender.as_bytes());
    body.extend_from_slice(&0u16.to_be_bytes());
    body.extend_from_slice(&0u16.to_be_bytes());
    let mut message_inner = Vec::new();
    let mut text_fragment = vec![0x00, 0x00];
    text_fragment.extend_from_slice(text.as_bytes());
    message_inner.extend(Tlv::new(0x0101, text_fragment).encode());
    body.extend(Tlv::new(0x02, message_inner).encode());
    body
}

fn build_chat_invite_body(sender: &str, invitation_text: &str, room: &ChatRoomHandle) -> Vec<u8> {
    let mut body = vec![0u8; 8];
    body.extend_from_slice(&2u16.to_be_bytes());
    body.push(sender.len() as u8);
    body.extend_from_slice(sender.as_bytes());
    body.extend_from_slice(&0u16.to_be_bytes());
    body.extend_from_slice(&0u16.to_be_bytes());

    let mut svc_data = room.exchange.to_be_bytes().to_vec();
    svc_data.push(room.room_cookie.len() as u8);
    svc_data.extend_from_slice(room.room_cookie.as_bytes());
    svc_data.extend_from_slice(&room.instance.to_be_bytes());

    let mut fragment_tlvs = Vec::new();
    fragment_tlvs.extend(Tlv::new(RDV_TLV_SEQ_NUM, 1u16.to_be_bytes().to_vec()).encode());
    fragment_tlvs.extend(Tlv::new(RDV_TLV_INVITATION, invitation_text.as_bytes().to_vec()).encode());
    fragment_tlvs.extend(Tlv::new(RDV_TLV_SVC_DATA, svc_data).encode());

    let mut fragment = RDV_TYPE_PROPOSE.to_be_bytes().to_vec();
    fragment.extend_from_slice(&[0u8; 8]);
    fragment.extend_from_slice(&CAP_CHAT);
    fragment.extend(fragment_tlvs);

    body.extend(Tlv::new(0x05, fragment).encode());
    body
}

#[test]
fn parse_incoming_im_extracts_sender_and_text() {
    let body = build_incoming_im_body("Buddy1", "hello there");
    let im = parse_incoming_im(&body).unwrap();
    assert_eq!(im.from, "Buddy1");
    assert_eq!(im.text, "hello there");
}

#[test]
fn parse_incoming_im_rejects_too_short_body() {
    assert!(parse_incoming_im(&[0u8; 5]).is_none());
}

#[test]
fn parse_incoming_im_without_text_gives_an_empty_message() {
    let mut body = vec![0u8; 8];
    body.extend_from_slice(&1u16.to_be_bytes());
    body.extend_from_slice(&[3, b'B', b'o', b'b', 0, 0, 0, 0]);
    let im = parse_incoming_im(&body).unwrap();
    assert_eq!(im.from, "Bob");
    assert_eq!(im.text, "");
    assert!(parse_incoming_im(&[0u8; 10]).is_none());
}

#[test]
fn parse_incoming_im_replaces_invalid_utf8_in_the_text() {
    let mut body = vec![0u8; 8];
    body.extend_from_slice(&1u16.to_be_bytes());
    body.extend_from_slice(&[3, b'B', b'o', b'b', 0, 0, 0, 0]);
    let inner = Tlv::new(0x0101, vec![0, 0, b'h', 0xFF]).encode();
    body.extend(Tlv::new(0x02, inner).encode());
    let im = parse_incoming_im(&body).unwrap();
    assert_eq!(im.text, "h\u{FFFD}");
}

#[test]
fn icbm_channel_reads_the_channel_field() {
    let channel1 = build_incoming_im_body("Buddy1", "hi");
    assert_eq!(icbm_channel(&channel1), Some(1));
}

#[test]
fn icbm_channel_of_a_short_body_is_none() {
    assert_eq!(icbm_channel(&[0u8; 9]), None);
}

#[test]
fn parses_a_chat_invite_including_room_name_from_cookie() {
    let room = ChatRoomHandle { exchange: 4, room_cookie: "4-0-MyRoom".into(), instance: 0, room_name: String::new() };
    let body = build_chat_invite_body("Alice", "join us!", &room);

    assert_eq!(icbm_channel(&body), Some(2));
    let invite = parse_chat_invite(&body).unwrap();
    assert_eq!(invite.from, "Alice");
    assert_eq!(invite.invitation_text, "join us!");
    assert_eq!(invite.room.exchange, 4);
    assert_eq!(invite.room.room_cookie, "4-0-MyRoom");
    assert_eq!(invite.room.instance, 0);
    assert_eq!(invite.room.room_name, "MyRoom");
}

#[test]
fn parse_chat_invite_rejects_a_body_without_room_data() {
    let mut body = vec![0u8; 8];
    body.extend_from_slice(&2u16.to_be_bytes());
    body.extend_from_slice(&[3, b'B', b'o', b'b', 0, 0, 0, 0]);
    assert!(parse_chat_invite(&body).is_none());
}

#[test]
fn room_name_from_cookie_handles_a_room_name_containing_dashes() {
    assert_eq!(room_name_from_cookie("4-0-my-cool-room"), "my-cool-room");
}

#[test]
fn room_name_from_cookie_without_two_dashes_is_the_whole_cookie() {
    assert_eq!(room_name_from_cookie("lobby"), "lobby");
    assert_eq!(room_name_from_cookie("4-lobby"), "4-lobby");
    assert_eq!(room_name_from_cookie("4-0-"), "");
}

#[test]
fn a_sent_im_is_read_back_by_the_receiving_parser() {
    let body = im_body_with_cookie(&[1, 2, 3, 4, 5, 6, 7, 8], "Buddy1", "hello");
    assert_eq!(&body[..8], &[1, 2, 3, 4, 5, 6, 7, 8]);
    assert_eq!(icbm_channel(&body), Some(1));
    assert_eq!(&body[10..17], &[6, b'B', b'u', b'd', b'd', b'y', b'1']);
}

#[test]
fn a_sent_invite_carries_the_room_selector() {
    let room = ChatRoomHandle { exchange: 4, room_cookie: "4-0-R".into(), instance: 0, room_name: "R".into() };
    let body = invite_body_with_cookies(&[0; 8], &[9; 8], "Al", &room, "hi");
    assert_eq!(icbm_channel(&body), Some(2));
    let tail = [0x27, 0x11, 0, 10, 0, 4, 5, b'4', b'-', b'0', b'-', b'R', 0, 0];
    assert_eq!(&body[body.len() - tail.len()..], &tail);
}

#[test]
fn warning_request_body_sets_the_anonymous_flag() {
    assert_eq!(warning_request_body("Bob", true), vec![0, 1, 3, b'B', b'o', b'b']);
    assert_eq!(warning_request_body("Bob", false), vec![0, 0, 3, b'B', b'o', b'b']);
}

#[test]
fn invitation_text_names_the_room() {
    assert_eq!(invitation_text_for("MyRoom"), "Join MyRoom");
    assert_eq!(invitation_text_for(""), "Join ");
}
