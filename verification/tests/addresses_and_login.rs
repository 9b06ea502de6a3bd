use oscar_rs::chat_nav::{create_room_request, handle_nav_frame, ChatRoomHandle, NavReply, ROOM_TLV_NAME};
use oscar_rs::client::{parse_redirect_address_and_cookie, roast_password, OscarError};
use oscar_rs::flap::{FlapChannel, FlapFrame};
use oscar_rs::login::{
    challenge_request, handle_challenge_frame, handle_login_reply_frame, hello_payload, is_host_online, login_request,
    redirect_hello_payload, room_redirect_tlv, Awaited, ChatJoin,
};
use oscar_rs::server_address::{ServerAddress, ServerAddressError};
use oscar_rs::snac::{Snac, SnacFamily, SnacHeader, Tlv};
use std::collections::HashMap;

fn frame(family: SnacFamily, subtype: u16, body: Vec<u8>) -> FlapFrame {
    let snac = Snac { header: SnacHeader { family: family.as_u16(), subtype, flags: 0, request_id: 1 }, body };
    FlapFrame { channel: FlapChannel::Data, sequence: 0, payload: snac.encode() }
}

#[test]
fn parses_bare_host_with_default_port() {
    let addr = ServerAddress::parse("65.21.63.253").unwrap();
    assert_eq!(addr.host, "65.21.63.253");
    assert_eq!(addr.port, ServerAddress::DEFAULT_PORT);
}

#[test]
fn parses_host_with_explicit_port() {
    let addr = ServerAddress::parse("65.21.63.253:5190").unwrap();
    assert_eq!(addr.host, "65.21.63.253");
    assert_eq!(addr.port, 5190);
}

#[test]
fn parses_domain_with_port() {
    let addr = ServerAddress::parse("aim.example.com:5190").unwrap();
    assert_eq!(addr.host, "aim.example.com");
    assert_eq!(addr.port, 5190);
}

#[test]
fn strips_oscar_scheme() {
    let addr = ServerAddress::parse("oscar://aim.example.com:5190/").unwrap();
    assert_eq!(addr.host, "aim.example.com");
    assert_eq!(addr.port, 5190);
}

#[test]
fn rejects_empty_input() {
    assert_eq!(ServerAddress::parse("   "), Err(ServerAddressError::Empty));
}

#[test]
fn rejects_non_numeric_port() {
    assert!(matches!(ServerAddress::parse("host:notaport"), Err(ServerAddressError::InvalidPort(_))));
}

#[test]
fn display_formats_as_host_colon_port() {
    let addr = ServerAddress { host: "65.21.63.253".to_string(), port: 5190 };
    assert_eq!(addr.to_string(), "65.21.63.253:5190");
}

#[test]
fn server_address_edge_cases() {
    assert_eq!(ServerAddress::parse("host:70000"), Err(ServerAddressError::InvalidPort("70000".to_string())));
    assert_eq!(ServerAddress::parse("host:"), Err(ServerAddressError::InvalidPort(String::new())));
    assert_eq!(ServerAddress::parse("oscar://").unwrap().host, "");
    assert_eq!(ServerAddress::parse(":5190").unwrap().host, ":5190");
    let addr = ServerAddress::parse("  aim://host:0 ").unwrap();
    assert_eq!(addr.host, "host");
    assert_eq!(addr.port, 0);
    let addr = ServerAddress::parse("::1:5190").unwrap();
    assert_eq!(addr.host, "::1");
    assert_eq!(addr.port, 5190);
}

#[test]
fn a_displayed_address_parses_back() {
    let addr = ServerAddress { host: "aim.example.com".to_string(), port: 65535 };
    assert_eq!(ServerAddress::parse(&addr.to_string()), Ok(addr));
}

#[test]
fn hello_payloads_carry_version_one() {
    assert_eq!(hello_payload(), vec![0, 0, 0, 1]);
    assert_eq!(redirect_hello_payload(vec![0xC0]), vec![0, 0, 0, 1, 0, 6, 0, 1, 0xC0]);
}

#[test]
fn challenge_request_names_the_screen_name() {
    let s = challenge_request("Me", 7);
    assert_eq!(s.header.family, 0x17);
    assert_eq!(s.header.subtype, 0x06);
    assert_eq!(s.header.request_id, 7);
    assert_eq!(s.body, vec![0, 1, 0, 2, b'M', b'e']);
}

#[test]
fn the_challenge_reply_yields_the_auth_key() {
    let reply = frame(SnacFamily::Authorization, 0x07, vec![0, 3, b'k', b'e', b'y', 9]);
    assert!(matches!(handle_challenge_frame(&reply), Awaited::Done(Ok(k)) if k == b"key".to_vec()));
    let short = frame(SnacFamily::Authorization, 0x07, vec![0, 9, b'k']);
    assert!(matches!(handle_challenge_frame(&short), Awaited::Done(Err(OscarError::UnexpectedResponse(_)))));
    let other = frame(SnacFamily::Generic, 0x03, Vec::new());
    assert!(matches!(handle_challenge_frame(&other), Awaited::Ignore));
}

#[test]
fn the_login_request_carries_the_roasted_password() {
    let s = login_request("Me", "hunter2", b"key", 2);
    assert_eq!(s.header.subtype, 0x02);
    let tlvs = Tlv::parse_all(&s.body);
    assert_eq!(tlvs.get(&0x01).unwrap(), b"Me");
    assert_eq!(tlvs.get(&0x25).unwrap(), &roast_password(b"key", "hunter2").to_vec());
    assert_eq!(tlvs.get(&0x03).unwrap(), b"oscar-rs/0.1");
}

#[test]
fn a_login_reply_gives_the_bos_address_or_the_rejection() {
    let mut body = Tlv::new(0x05, b"127.0.0.1:5191".to_vec()).encode();
    body.extend(Tlv::new(0x06, b"fake-session-cookie".to_vec()).encode());
    match handle_login_reply_frame(&frame(SnacFamily::Authorization, 0x03, body)) {
        Awaited::Done(Ok((addr, cookie))) => {
            assert_eq!(addr.host, "127.0.0.1");
            assert_eq!(addr.port, 5191);
            assert_eq!(cookie, b"fake-session-cookie".to_vec());
        }
        _ => panic!("expected the BOS address"),
    }
    let rejected = Tlv::new(0x08, vec![0, 5]).encode();
    match handle_login_reply_frame(&frame(SnacFamily::Authorization, 0x03, rejected)) {
        Awaited::Done(Err(OscarError::LoginFailed(text))) => assert_eq!(text, "BUCP error code 5"),
        _ => panic!("expected a rejection"),
    }
    let missing = Tlv::new(0x05, b"127.0.0.1".to_vec()).encode();
    assert!(matches!(
        handle_login_reply_frame(&frame(SnacFamily::Authorization, 0x03, missing)),
        Awaited::Done(Err(OscarError::UnexpectedResponse(_)))
    ));
}

#[test]
fn redirect_parsing_needs_both_tlvs_and_a_valid_address() {
    let mut tlvs: HashMap<u16, Vec<u8>> = HashMap::new();
    tlvs.insert(0x05, b"bos.example.com".to_vec());
    assert!(matches!(parse_redirect_address_and_cookie(&tlvs), Err(OscarError::UnexpectedResponse(_))));
    tlvs.insert(0x06, vec![1, 2]);
    let (addr, cookie) = parse_redirect_address_and_cookie(&tlvs).unwrap();
    assert_eq!(addr.host, "bos.example.com");
    assert_eq!(addr.port, 5190);
    assert_eq!(cookie, vec![1, 2]);
    tlvs.insert(0x05, b"bos:port".to_vec());
    assert!(matches!(parse_redirect_address_and_cookie(&tlvs), Err(OscarError::UnexpectedResponse(_))));
}

#[test]
fn host_online_is_recognized() {
    assert!(is_host_online(&frame(SnacFamily::Generic, 0x03, Vec::new())));
    assert!(!is_host_online(&frame(SnacFamily::Generic, 0x02, Vec::new())));
}

#[test]
fn creating_a_room_and_reading_the_nav_reply() {
    let s = create_room_request("MyRoom", 3);
    assert_eq!(s.header.family, 0x0D);
    assert_eq!(s.header.subtype, 0x08);

    let mut info = 4u16.to_be_bytes().to_vec();
    info.push(10);
    info.extend_from_slice(b"4-0-MyRoom");
    info.extend_from_slice(&0u16.to_be_bytes());
    info.push(2);
    info.extend_from_slice(&1u16.to_be_bytes());
    info.extend(Tlv::new(ROOM_TLV_NAME, b"MyRoom".to_vec()).encode());
    let reply = frame(SnacFamily::ChatNav, 0x09, Tlv::new(0x04, info).encode());
    match handle_nav_frame(&reply) {
        NavReply::Done(Ok(handle)) => {
            assert_eq!(handle.room_cookie, "4-0-MyRoom");
            assert_eq!(handle.room_name, "MyRoom");
        }
        _ => panic!("expected the created room"),
    }
    assert!(matches!(handle_nav_frame(&frame(SnacFamily::ChatNav, 0x09, Vec::new())), NavReply::Done(Err(_))));
    assert!(matches!(handle_nav_frame(&frame(SnacFamily::Generic, 0x09, Vec::new())), NavReply::Ignore));
}

#[test]
fn joining_a_room_collects_occupants_until_the_room_info() {
    let handle = ChatRoomHandle { exchange: 4, room_cookie: "4-0-R".into(), instance: 0, room_name: String::new() };
    assert_eq!(room_redirect_tlv(&handle).encode(), vec![0, 1, 0, 10, 0, 4, 5, b'4', b'-', b'0', b'-', b'R', 0, 0]);
    let mut join = ChatJoin::new(handle);
    assert!(!join.step(&frame(SnacFamily::Chat, 0x03, vec![3, b'B', b'o', b'b', 0, 0, 0, 0])));
    assert_eq!(join.occupants.len(), 1);
    let mut info = 4u16.to_be_bytes().to_vec();
    info.push(5);
    info.extend_from_slice(b"4-0-R");
    info.extend_from_slice(&0u16.to_be_bytes());
    info.push(2);
    info.extend_from_slice(&1u16.to_be_bytes());
    info.extend(Tlv::new(ROOM_TLV_NAME, b"R".to_vec()).encode());
    assert!(join.step(&frame(SnacFamily::Chat, 0x02, info)));
    assert_eq!(join.handle.room_name, "R");
}
