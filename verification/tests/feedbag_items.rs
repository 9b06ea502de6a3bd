use oscar_rs::feedbag::FeedbagItem;
use oscar_rs::raw_feedbag;
use oscar_rs::raw_feedbag::{parse_screen_name_buf, parse_screen_name_buf_with_remainder};
use oscar_rs::snac::Tlv;

#[test]
fn feedbag_item_round_trips() {
    let item = FeedbagItem {
        name: "MyBuddy".to_string(),
        group_id: 1,
        item_id: 5,
        class_id: FeedbagItem::CLASS_BUDDY,
        attributes: vec![Tlv::new(0x01, vec![0xAA, 0xBB])],
    };
    let encoded = item.encode();
    let (parsed, consumed) = FeedbagItem::parse(&encoded).unwrap();
    assert_eq!(consumed, encoded.len());
    assert_eq!(parsed, item);
}

#[test]
fn feedbag_item_parse_all_decodes_a_real_server_reply() {
    let body: &[u8] = &[
        0x00, 0x00, 0x02, 0x00, 0x07, 0x42, 0x75, 0x64, 0x64, 0x69, 0x65, 0x73, 0x00, 0x00, 0x00, 0x02, 0x00, 0x01,
        0x00, 0x00, 0x00, 0x08, 0x63, 0x61, 0x74, 0x6d, 0x69, 0x6e, 0x74, 0x73, 0x00, 0x02, 0x00, 0x03, 0x00, 0x00,
        0x00, 0x00, 0x6a, 0x5d, 0x22, 0xd8,
    ];
    let items = FeedbagItem::parse_all(&body[3..]);
    assert_eq!(
        items,
        vec![
            FeedbagItem {
                name: "Buddies".to_string(),
                group_id: 0,
                item_id: 2,
                class_id: FeedbagItem::CLASS_GROUP,
                attributes: Vec::new()
            },
            FeedbagItem {
                name: "catmints".to_string(),
                group_id: 2,
                item_id: 3,
                class_id: FeedbagItem::CLASS_BUDDY,
                attributes: Vec::new()
            },
        ]
    );
}

#[test]
fn feedbag_item_parse_all_handles_a_run_of_items() {
    let a = FeedbagItem { name: "Alice".to_string(), group_id: 0, item_id: 1, class_id: FeedbagItem::CLASS_GROUP, attributes: Vec::new() };
    let b = FeedbagItem { name: "Bob".to_string(), group_id: 1, item_id: 2, class_id: FeedbagItem::CLASS_BUDDY, attributes: Vec::new() };
    let mut data = a.encode();
    data.extend(b.encode());

    let items = FeedbagItem::parse_all(&data);
    assert_eq!(items, vec![a, b]);
}

#[test]
fn feedbag_item_encoding_is_exact() {
    let item = FeedbagItem {
        name: "Al".to_string(),
        group_id: 1,
        item_id: 2,
        class_id: FeedbagItem::CLASS_DENY,
        attributes: vec![Tlv::new(0x0131, vec![7])],
    };
    assert_eq!(item.encode(), vec![0, 2, b'A', b'l', 0, 1, 0, 2, 0, 3, 0, 1, 0x01, 0x31, 0, 1, 7]);
}

#[test]
fn feedbag_item_parse_rejects_a_truncated_fixed_part() {
    assert!(FeedbagItem::parse(&[0, 2, b'A', b'l', 0, 1, 0, 2, 0, 3, 0]).is_none());
    assert!(FeedbagItem::parse(&[0]).is_none());
}

#[test]
fn feedbag_item_parse_all_stops_at_an_incomplete_item() {
    let a = FeedbagItem { name: "Alice".to_string(), group_id: 0, item_id: 1, class_id: FeedbagItem::CLASS_GROUP, attributes: Vec::new() };
    let mut data = a.encode();
    data.extend_from_slice(&[0, 9, b'x']);
    assert_eq!(FeedbagItem::parse_all(&data), vec![a]);
}

#[test]
fn raw_feedbag_item_encoding_ends_with_its_attribute_block() {
    let item = raw_feedbag::FeedbagItem {
        name: "MyBuddy".to_string(),
        group_id: 1,
        item_id: 5,
        class_id: raw_feedbag::FeedbagItem::CLASS_BUDDY,
        attributes: vec![0xAA, 0xBB],
    };
    let encoded = item.encode();
    assert_eq!(encoded[encoded.len() - 4..], [0, 2, 0xAA, 0xBB]);
    let (parsed, consumed) = raw_feedbag::FeedbagItem::parse(&encoded).unwrap();
    assert_eq!(consumed, encoded.len());
    assert_eq!(parsed, item);
}

#[test]
fn feedbag_feedbag_item_round_trips() {
    let item = raw_feedbag::FeedbagItem {
        name: "MyBuddy".to_string(),
        group_id: 1,
        item_id: 5,
        class_id: raw_feedbag::FeedbagItem::CLASS_BUDDY,
        attributes: vec![0xAA, 0xBB],
    };
    let encoded = item.encode();
    let (parsed, consumed) = raw_feedbag::FeedbagItem::parse(&encoded).unwrap();
    assert_eq!(consumed, encoded.len());
    assert_eq!(parsed, item);
}

#[test]
fn feedbag_feedbag_item_parse_all_handles_a_run_of_items() {
    let a = raw_feedbag::FeedbagItem {
        name: "Alice".to_string(),
        group_id: 0,
        item_id: 1,
        class_id: raw_feedbag::FeedbagItem::CLASS_GROUP,
        attributes: Vec::new(),
    };
    let b = raw_feedbag::FeedbagItem {
        name: "Bob".to_string(),
        group_id: 1,
        item_id: 2,
        class_id: raw_feedbag::FeedbagItem::CLASS_BUDDY,
        attributes: Vec::new(),
    };
    let mut data = a.encode();
    data.extend(b.encode());

    let items = raw_feedbag::FeedbagItem::parse_all(&data);
    assert_eq!(items, vec![a, b]);
}

#[test]
fn raw_feedbag_item_parse_rejects_an_attribute_block_running_past_the_end() {
    assert!(raw_feedbag::FeedbagItem::parse(&[0, 1, b'A', 0, 1, 0, 2, 0, 0, 0, 3, 1, 2]).is_none());
}

#[test]
fn parse_screen_name_buf_with_remainder_splits_correctly() {
    let mut body = vec![3u8];
    body.extend_from_slice(b"Bob");
    body.extend_from_slice(&[0xDE, 0xAD]);

    let (name, remainder) = parse_screen_name_buf_with_remainder(&body).unwrap();
    assert_eq!(name, "Bob");
    assert_eq!(remainder, &[0xDE, 0xAD]);
}

#[test]
fn parse_screen_name_buf_rejects_a_short_name() {
    assert_eq!(parse_screen_name_buf(&[4, b'B', b'o', b'b']), None);
    assert_eq!(parse_screen_name_buf(&[]), None);
    assert_eq!(parse_screen_name_buf(&[3, b'B', b'o', b'b']), Some("Bob".to_string()));
}

#[test]
fn parse_screen_name_buf_replaces_invalid_utf8() {
    assert_eq!(parse_screen_name_buf(&[2, b'A', 0xFF]), Some("A\u{FFFD}".to_string()));
}
