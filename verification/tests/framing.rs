use oscar_rs::flap::{FlapChannel, FlapFrame, FLAP_HEADER_SIZE, FLAP_MAGIC_BYTE};
use oscar_rs::snac::{Snac, SnacFamily, SnacHeader, Tlv, UserInfo};

#[test]
fn encode_then_parse_header_round_trips() {
    let frame = FlapFrame { channel: FlapChannel::Data, sequence: 42, payload: vec![1, 2, 3, 4] };
    let encoded = frame.encode();
    assert_eq!(encoded[0], FLAP_MAGIC_BYTE);

    let (channel, sequence, length) = FlapFrame::parse_header(&encoded[0..FLAP_HEADER_SIZE]).unwrap();
    assert_eq!(channel, FlapChannel::Data);
    assert_eq!(sequence, 42);
    assert_eq!(length as usize, frame.payload.len());
    assert_eq!(&encoded[FLAP_HEADER_SIZE..], &frame.payload[..]);
}

#[test]
fn rejects_bad_magic_byte() {
    let bad_header = [0xff, 0x02, 0x00, 0x01, 0x00, 0x00];
    assert!(FlapFrame::parse_header(&bad_header).is_none());
}

#[test]
fn rejects_wrong_length_header() {
    assert!(FlapFrame::parse_header(&[FLAP_MAGIC_BYTE, 0x02]).is_none());
}

#[test]
fn flap_header_bytes_are_exact() {
    let frame = FlapFrame { channel: FlapChannel::NewConnection, sequence: 0x1234, payload: vec![0, 0, 0, 1] };
    assert_eq!(frame.encode(), vec![0x2a, 0x01, 0x12, 0x34, 0x00, 0x04, 0, 0, 0, 1]);
}

#[test]
fn flap_rejects_unknown_channel_byte() {
    assert!(FlapFrame::parse_header(&[FLAP_MAGIC_BYTE, 0x09, 0, 0, 0, 0]).is_none());
    assert_eq!(FlapChannel::from_u8(0x09), None);
}

#[test]
fn flap_channels_round_trip_through_their_byte() {
    for c in [FlapChannel::NewConnection, FlapChannel::Data, FlapChannel::Error, FlapChannel::CloseConnection, FlapChannel::KeepAlive] {
        assert_eq!(FlapChannel::from_u8(c.as_u8()), Some(c));
    }
    assert_eq!(FlapChannel::KeepAlive.as_u8(), 5);
}

#[test]
fn flap_header_must_be_exactly_six_bytes() {
    assert!(FlapFrame::parse_header(&[FLAP_MAGIC_BYTE, 0x02, 0, 7, 0, 3, 9]).is_none());
    assert_eq!(FlapFrame::parse_header(&[FLAP_MAGIC_BYTE, 0x02, 0, 7, 0, 3]), Some((FlapChannel::Data, 7, 3)));
}

#[test]
fn snac_header_round_trips() {
    let header = SnacHeader { family: 0x17, subtype: 0x06, flags: 0, request_id: 99 };
    let encoded = header.encode();
    let parsed = SnacHeader::parse(&encoded).unwrap();
    assert_eq!(parsed.family, 0x17);
    assert_eq!(parsed.subtype, 0x06);
    assert_eq!(parsed.request_id, 99);
}

#[test]
fn snac_header_bytes_are_exact() {
    let header = SnacHeader { family: 0x0004, subtype: 0x0006, flags: 0x8000, request_id: 0x01020304 };
    assert_eq!(header.encode(), vec![0, 4, 0, 6, 0x80, 0, 1, 2, 3, 4]);
    assert!(SnacHeader::parse(&[0, 4, 0, 6, 0x80, 0, 1, 2, 3]).is_none());
}

#[test]
fn snac_round_trips_with_body() {
    let snac = Snac {
        header: SnacHeader { family: 0x04, subtype: 0x06, flags: 0, request_id: 1 },
        body: vec![0xde, 0xad, 0xbe, 0xef],
    };
    let encoded = snac.encode();
    let parsed = Snac::parse(&encoded).unwrap();
    assert_eq!(parsed.body, vec![0xde, 0xad, 0xbe, 0xef]);
    assert_eq!(parsed.header.family, 0x04);
}

#[test]
fn tlv_round_trips_single() {
    let tlv = Tlv::new(0x01, b"MyScreenName".to_vec());
    let encoded = tlv.encode();
    let parsed = Tlv::parse_all(&encoded);
    assert_eq!(parsed.get(&0x01).unwrap(), b"MyScreenName");
}

#[test]
fn tlv_encoding_is_type_length_value() {
    assert_eq!(Tlv::new(0x0102, vec![9, 8, 7]).encode(), vec![0x01, 0x02, 0x00, 0x03, 9, 8, 7]);
}

#[test]
fn tlv_parse_all_handles_multiple_tlvs() {
    let mut body = Vec::new();
    body.extend(Tlv::new(0x01, b"screenname".to_vec()).encode());
    body.extend(Tlv::new(0x02, vec![0x00, 0x01]).encode());

    let parsed = Tlv::parse_all(&body);
    assert_eq!(parsed.len(), 2);
    assert_eq!(parsed.get(&0x01).unwrap(), b"screenname");
    assert_eq!(parsed.get(&0x02).unwrap(), &vec![0x00, 0x01]);
}

#[test]
fn tlv_parse_all_ignores_truncated_trailing_bytes() {
    let mut body = Tlv::new(0x01, b"ok".to_vec()).encode();
    body.extend_from_slice(&[0x00, 0x02]);
    let parsed = Tlv::parse_all(&body);
    assert_eq!(parsed.len(), 1);
}

#[test]
fn tlv_parse_all_drops_a_tlv_whose_length_runs_past_the_end() {
    let mut body = Tlv::new(0x01, b"ok".to_vec()).encode();
    body.extend_from_slice(&[0x00, 0x02, 0x00, 0x09, 1, 2]);
    let parsed = Tlv::parse_all(&body);
    assert_eq!(parsed.len(), 1);
    assert_eq!(parsed.get(&0x01).unwrap(), b"ok");
}

#[test]
fn tlv_parse_all_keeps_the_last_of_repeated_types() {
    let mut body = Tlv::new(0x07, vec![1]).encode();
    body.extend(Tlv::new(0x07, vec![2]).encode());
    let parsed = Tlv::parse_all(&body);
    assert_eq!(parsed.len(), 1);
    assert_eq!(parsed.get(&0x07).unwrap(), &vec![2]);
}

#[test]
fn tlv_parse_n_stops_after_count_and_reports_bytes_consumed() {
    let mut body = Tlv::new(0x01, vec![1, 2]).encode();
    body.extend(Tlv::new(0x02, vec![3]).encode());
    let (map, consumed) = Tlv::parse_n(&body, 1);
    assert_eq!(map.len(), 1);
    assert_eq!(consumed, 6);
    let (map, consumed) = Tlv::parse_n(&body, 5);
    assert_eq!(map.len(), 2);
    assert_eq!(consumed, body.len());
}

#[test]
fn user_info_parses_name_warning_and_tlvs() {
    let mut data = vec![3u8];
    data.extend_from_slice(b"Bob");
    data.extend_from_slice(&250u16.to_be_bytes());
    data.extend_from_slice(&1u16.to_be_bytes());
    data.extend(Tlv::new(0x01, 0x0020u16.to_be_bytes().to_vec()).encode());
    data.extend_from_slice(&[0xAA, 0xBB]);

    let (info, consumed) = UserInfo::parse(&data).unwrap();
    assert_eq!(info.screen_name, "Bob");
    assert_eq!(info.warning_level, 250);
    assert_eq!(info.tlvs.get(&0x01).unwrap(), &0x0020u16.to_be_bytes().to_vec());
    assert_eq!(&data[consumed..], &[0xAA, 0xBB]);
}

#[test]
fn user_info_handles_zero_tlvs() {
    let mut data = vec![3u8];
    data.extend_from_slice(b"Bob");
    data.extend_from_slice(&0u16.to_be_bytes());
    data.extend_from_slice(&0u16.to_be_bytes());

    let (info, consumed) = UserInfo::parse(&data).unwrap();
    assert_eq!(info.screen_name, "Bob");
    assert!(info.tlvs.is_empty());
    assert_eq!(consumed, data.len());
}

#[test]
fn user_info_rejects_a_truncated_block() {
    assert!(UserInfo::parse(&[]).is_none());
    assert!(UserInfo::parse(&[3, b'B', b'o']).is_none());
    assert!(UserInfo::parse(&[3, b'B', b'o', b'b', 0, 0, 0]).is_none());
}

#[test]
fn snac_family_round_trips_through_u16() {
    for family in [
        SnacFamily::Generic,
        SnacFamily::Locate,
        SnacFamily::BuddyPresence,
        SnacFamily::Messaging,
        SnacFamily::Feedbag,
        SnacFamily::Authorization,
    ] {
        assert_eq!(SnacFamily::from_u16(family.as_u16()), Some(family));
    }
}

#[test]
fn snac_family_numbers_are_the_protocol_ones() {
    assert_eq!(SnacFamily::Feedbag.as_u16(), 0x13);
    assert_eq!(SnacFamily::Authorization.as_u16(), 0x17);
    assert_eq!(SnacFamily::ChatNav.as_u16(), 0x0D);
    assert_eq!(SnacFamily::Chat.as_u16(), 0x0E);
    assert_eq!(SnacFamily::from_u16(0x0E), Some(SnacFamily::Chat));
    assert_eq!(SnacFamily::from_u16(0x99), None);
}

#[test]
fn a_user_block_followed_by_other_bytes_spans_only_itself() {
    let mut data = vec![2u8, b'A', b'l', 0x01, 0x02, 0, 2];
    data.extend(Tlv::new(0x07, vec![1]).encode());
    data.extend(Tlv::new(0x07, vec![2]).encode());
    let block_len = data.len();
    data.extend_from_slice(&[9, 9, 9]);
    let (info, consumed) = UserInfo::parse(&data).unwrap();
    assert_eq!(consumed, block_len);
    assert_eq!(info.screen_name, "Al");
    assert_eq!(info.warning_level, 0x0102);
    assert_eq!(info.tlvs.len(), 1);
    assert_eq!(info.tlvs.get(&0x07).unwrap(), &vec![2]);
}
