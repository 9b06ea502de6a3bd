//! The feedbag item layout with the attribute block kept as raw bytes: the
//! attribute field is a byte length followed by that many bytes, left for
//! the caller to decode (with `Tlv::parse_all` where needed). Also the
//! screen-name BUF (one length byte, then the name) that presence
//! notifications start with.

use vstd::prelude::*;
use vstd::utf8::encode_utf8;

use crate::bytes::{be16_at, be16_bytes, copy_range, lemma_be16_roundtrip, push_all, push_be16, read_be16};
use crate::text::{bytes_to_text, string_from_utf8_lossy};

verus! {

#[derive(Debug, Clone, PartialEq)]
pub struct FeedbagItem {
    pub name: String,
    pub group_id: u16,
    pub item_id: u16,
    pub class_id: u16,
    /// The raw attribute block.
    pub attributes: Vec<u8>,
}

/// A buddy resolved from the feedbag and live presence.
#[derive(Debug, Clone, PartialEq)]
pub struct Buddy {
    pub screen_name: String,
    pub group_name: String,
    pub is_online: bool,
    pub is_away: bool,
    pub away_message: Option<String>,
}

/// The wire bytes of an item; both length fields hold their value modulo
/// 2^16.
pub open spec fn raw_item_bytes(name: Seq<u8>, group_id: u16, item_id: u16, class_id: u16, attrs: Seq<u8>) -> Seq<u8> {
    be16_bytes((name.len() % 65536) as u16) + name + be16_bytes(group_id) + be16_bytes(item_id)
        + be16_bytes(class_id) + be16_bytes((attrs.len() % 65536) as u16) + attrs
}

/// The bytes `FeedbagItem::encode` writes for `item`.
pub open spec fn encoded_raw_item(item: FeedbagItem) -> Seq<u8> {
    raw_item_bytes(encode_utf8(item.name@), item.group_id, item.item_id, item.class_id, item.attributes@)
}

/// A decoded item: name, group id, item id, class id, attribute bytes.
pub type RawEntry = (Seq<char>, u16, u16, u16, Seq<u8>);

/// The item `FeedbagItem::parse` reads from the front of `d`, with the
/// number of bytes it spans: `None` unless the name, the four fields and
/// the whole attribute block are there.
pub open spec fn raw_item_of(d: Seq<u8>) -> Option<(RawEntry, int)> {
    if d.len() < 2 {
        None
    } else {
        let s = 2 + be16_at(d, 0) as int;
        if d.len() < s + 8 {
            None
        } else {
            let a = be16_at(d, s + 6) as int;
            if d.len() < s + 8 + a {
                None
            } else {
                Some(
                    (
                        (
                            bytes_to_text(d.subrange(2, s)),
                            be16_at(d, s),
                            be16_at(d, s + 2),
                            be16_at(d, s + 4),
                            d.subrange(s + 8, s + 8 + a),
                        ),
                        s + 8 + a,
                    ),
                )
            }
        }
    }
}

/// `item` is the decoded entry `e`.
pub open spec fn raw_item_is(item: FeedbagItem, e: RawEntry) -> bool {
    &&& item.name@ == e.0
    &&& item.group_id == e.1
    &&& item.item_id == e.2
    &&& item.class_id == e.3
    &&& item.attributes@ == e.4
}

/// The items `FeedbagItem::parse_all` reads from `d`, one after another
/// until the bytes run out or the next item is incomplete.
pub open spec fn raw_items_of(d: Seq<u8>) -> Seq<RawEntry>
    decreases d.len(),
{
    if d.len() == 0 {
        seq![]
    } else {
        match raw_item_of(d) {
            None => seq![],
            Some((e, n)) => if n <= 0 || n > d.len() {
                seq![]
            } else {
                seq![e] + raw_items_of(d.skip(n))
            },
        }
    }
}

impl FeedbagItem {
    pub const CLASS_BUDDY: u16 = 0x0000;

    pub const CLASS_GROUP: u16 = 0x0001;

    pub fn encode(&self) -> (out: Vec<u8>)
        ensures
            out@ == encoded_raw_item(*self),
    {
        let name_bytes = self.name.as_str().as_bytes();
        let mut out: Vec<u8> = Vec::new();
        push_be16(&mut out, (name_bytes.len() % 65536) as u16);
        push_all(&mut out, name_bytes);
        push_be16(&mut out, self.group_id);
        push_be16(&mut out, self.item_id);
        push_be16(&mut out, self.class_id);
        push_be16(&mut out, (self.attributes.len() % 65536) as u16);
        push_all(&mut out, self.attributes.as_slice());
        assert(out@ =~= encoded_raw_item(*self));
        out
    }

    /// Parses one item from the front of `data`, returning it with the
    /// number of bytes it spans.
    pub fn parse(data: &[u8]) -> (r: Option<(FeedbagItem, usize)>)
        ensures
            r is Some <==> raw_item_of(data@) is Some,
            r matches Some((item, n)) ==> raw_item_is(item, raw_item_of(data@).unwrap().0) && n
                == raw_item_of(data@).unwrap().1,
    {
        if data.len() < 2 {
            return None;
        }
        let name_len = read_be16(data, 0) as usize;
        if data.len() - 2 < name_len {
            return None;
        }
        let name_bytes = copy_range(data, 2, 2 + name_len);
        let name = string_from_utf8_lossy(name_bytes.as_slice());
        let index = 2 + name_len;
        if data.len() - index < 8 {
            return None;
        }
        let group_id = read_be16(data, index);
        let item_id = read_be16(data, index + 2);
        let class_id = read_be16(data, index + 4);
        let attr_len = read_be16(data, index + 6) as usize;
        let start = index + 8;
        if data.len() - start < attr_len {
            return None;
        }
        let attributes = copy_range(data, start, start + attr_len);
        Some((FeedbagItem { name, group_id, item_id, class_id, attributes }, start + attr_len))
    }

    /// Parses a run of consecutive items, as many as fit.
    pub fn parse_all(data: &[u8]) -> (items: Vec<FeedbagItem>)
        ensures
            items@.len() == raw_items_of(data@).len(),
            forall|i: int| 0 <= i < items@.len() ==> #[trigger] raw_item_is(items@[i], raw_items_of(data@)[i]),
    {
        let mut items: Vec<FeedbagItem> = Vec::new();
        let mut offset: usize = 0;
        let ghost d = data@;
        let ghost mut done: Seq<RawEntry> = seq![];
        assert(d.skip(0) =~= d);
        assert(done + raw_items_of(d) =~= raw_items_of(d));
        while offset < data.len()
            invariant
                d == data@,
                offset <= d.len(),
                raw_items_of(d) == done + raw_items_of(d.skip(offset as int)),
                items@.len() == done.len(),
                forall|i: int| 0 <= i < items@.len() ==> #[trigger] raw_item_is(items@[i], done[i]),
            ensures
                raw_items_of(d.skip(offset as int)) == Seq::<RawEntry>::empty(),
            decreases d.len() - offset,
        {
            let remaining = &data[offset..data.len()];
            let ghost rest = d.skip(offset as int);
            assert(remaining@ =~= rest);
            let (item, consumed) = match FeedbagItem::parse(remaining) {
                Some(p) => p,
                None => {
                    assert(raw_items_of(rest) =~= seq![]);
                    break;
                },
            };
            if consumed == 0 {
                assert(raw_items_of(rest) =~= seq![]);
                break;
            }
            proof {
                let e = raw_item_of(rest).unwrap().0;
                assert(raw_items_of(rest) == seq![e] + raw_items_of(rest.skip(consumed as int)));
                assert(rest.skip(consumed as int) =~= d.skip(offset + consumed));
                assert(done + raw_items_of(rest) =~= done.push(e) + raw_items_of(d.skip(offset + consumed)));
                done = done.push(e);
            }
            items.push(item);
            offset = offset + consumed;
        }
        if offset >= data.len() {
            assert(d.skip(offset as int) =~= seq![]);
        }
        assert(done + raw_items_of(d.skip(offset as int)) =~= done);
        items
    }
}

/// Encoding an item and parsing it back, with any bytes after it, gives
/// the same name, ids and attribute bytes, and spans exactly the encoding,
/// whenever the name and the attribute block each fit a 16-bit length.
pub proof fn lemma_raw_item_roundtrip(item: FeedbagItem, rest: Seq<u8>)
    requires
        encode_utf8(item.name@).len() <= 65535,
        item.attributes@.len() <= 65535,
    ensures
        raw_item_of(encoded_raw_item(item) + rest) == Some(
            (
                (item.name@, item.group_id, item.item_id, item.class_id, item.attributes@),
                encoded_raw_item(item).len() as int,
            ),
        ),
{
    let nb = encode_utf8(item.name@);
    let d = encoded_raw_item(item) + rest;
    let n = nb.len() as int;
    let a = item.attributes@.len() as int;
    lemma_be16_roundtrip(nb.len() as u16);
    lemma_be16_roundtrip(item.group_id);
    lemma_be16_roundtrip(item.item_id);
    lemma_be16_roundtrip(item.class_id);
    lemma_be16_roundtrip(item.attributes@.len() as u16);
    assert(d[0] == be16_bytes(nb.len() as u16)[0] && d[1] == be16_bytes(nb.len() as u16)[1]);
    assert(d.subrange(2, 2 + n) =~= nb);
    vstd::utf8::encode_utf8_valid_utf8(item.name@);
    vstd::utf8::encode_utf8_decode_utf8(item.name@);
    assert(d[2 + n] == be16_bytes(item.group_id)[0] && d[3 + n] == be16_bytes(item.group_id)[1]);
    assert(d[4 + n] == be16_bytes(item.item_id)[0] && d[5 + n] == be16_bytes(item.item_id)[1]);
    assert(d[6 + n] == be16_bytes(item.class_id)[0] && d[7 + n] == be16_bytes(item.class_id)[1]);
    assert(d[8 + n] == be16_bytes(a as u16)[0] && d[9 + n] == be16_bytes(a as u16)[1]);
    assert(d.subrange(10 + n, 10 + n + a) =~= item.attributes@);
}

/// The encodings of `items`, one after another.
pub open spec fn encoded_raw_items(items: Seq<FeedbagItem>) -> Seq<u8>
    decreases items.len(),
{
    if items.len() == 0 {
        seq![]
    } else {
        encoded_raw_item(items[0]) + encoded_raw_items(items.drop_first())
    }
}

/// The entry an item decodes to: its name, ids and attribute bytes.
pub open spec fn raw_entry(item: FeedbagItem) -> RawEntry {
    (item.name@, item.group_id, item.item_id, item.class_id, item.attributes@)
}

/// Parsing the encodings of a run of items, one after another, gives back
/// exactly those items, in order, whenever every name and attribute block
/// fits a 16-bit length.
pub proof fn lemma_raw_items_roundtrip(items: Seq<FeedbagItem>)
    requires
        forall|i: int|
            0 <= i < items.len() ==> encode_utf8(#[trigger] items[i].name@).len() <= 65535
                && items[i].attributes@.len() <= 65535,
    ensures
        raw_items_of(encoded_raw_items(items)) == items.map_values(|item: FeedbagItem| raw_entry(item)),
    decreases items.len(),
{
    if items.len() > 0 {
        let first = items[0];
        let tail = items.drop_first();
        assert forall|i: int| 0 <= i < tail.len() implies encode_utf8(#[trigger] tail[i].name@).len() <= 65535
            && tail[i].attributes@.len() <= 65535 by {
            assert(tail[i] == items[i + 1]);
        }
        lemma_raw_items_roundtrip(tail);
        let rest = encoded_raw_items(tail);
        let d = encoded_raw_items(items);
        assert(d == encoded_raw_item(first) + rest);
        lemma_raw_item_roundtrip(first, rest);
        let n = encoded_raw_item(first).len() as int;
        assert(n >= 10);
        assert(d.skip(n) =~= rest);
        assert(raw_items_of(d) == seq![raw_entry(first)] + raw_items_of(rest));
        assert(items.map_values(|item: FeedbagItem| raw_entry(item)) =~= seq![raw_entry(first)]
            + tail.map_values(|item: FeedbagItem| raw_entry(item)));
    } else {
        assert(encoded_raw_items(items) =~= seq![]);
        assert(items.map_values(|item: FeedbagItem| raw_entry(item)) =~= seq![]);
    }
}

/// The screen name a BUF at the front of `body` holds, and what follows
/// it, when the whole name is there.
pub open spec fn screen_name_buf_of(body: Seq<u8>) -> Option<(Seq<char>, Seq<u8>)> {
    if body.len() < 1 || body.len() < 1 + body[0] {
        None
    } else {
        Some((bytes_to_text(body.subrange(1, 1 + body[0] as int)), body.skip(1 + body[0] as int)))
    }
}

/// Reads the screen-name BUF (one length byte, then the name) at the front
/// of `body`.
pub fn parse_screen_name_buf(body: &[u8]) -> (r: Option<String>)
    ensures
        r is Some <==> screen_name_buf_of(body@) is Some,
        r matches Some(name) ==> name@ == screen_name_buf_of(body@).unwrap().0,
{
    match parse_screen_name_buf_with_remainder(body) {
        Some((name, _)) => Some(name),
        None => None,
    }
}

/// Reads the screen-name BUF at the front of `body`, also returning the
/// bytes that follow the name.
pub fn parse_screen_name_buf_with_remainder(body: &[u8]) -> (r: Option<(String, &[u8])>)
    ensures
        r is Some <==> screen_name_buf_of(body@) is Some,
        r matches Some((name, rest)) ==> name@ == screen_name_buf_of(body@).unwrap().0 && rest@
            == screen_name_buf_of(body@).unwrap().1,
{
    if body.len() < 1 {
        return None;
    }
    let length = body[0] as usize;
    if body.len() < 1 + length {
        return None;
    }
    let name_bytes = copy_range(body, 1, 1 + length);
    let name = string_from_utf8_lossy(name_bytes.as_slice());
    let rest = &body[1 + length..body.len()];
    assert(rest@ =~= body@.skip(1 + length));
    Some((name, rest))
}

} // verus!
