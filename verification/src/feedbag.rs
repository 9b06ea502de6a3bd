//! The feedbag is OSCAR's server-side buddy list (SNAC family 0x13). Every
//! entry (a buddy, a group, a block-list entry) shares one wire structure:
//!
//!   name length (u16), name bytes, group id (u16), item id (u16),
//!   class id (u16), attribute count (u16), that many TLVs.

use std::collections::HashMap;

use vstd::prelude::*;
use vstd::std_specs::hash::spec_hash_map_iter;
use vstd::std_specs::iter::IteratorSpec;
use vstd::utf8::{decode_utf8, encode_utf8};

use crate::bytes::{be16_at, be16_bytes, copy_range, lemma_be16_roundtrip, push_all, push_be16, read_be16};
use crate::snac::{
    lemma_tlvs_roundtrip, tlv_consumed, tlv_list, tlv_map, tlv_map_matches, tlv_values_fit, tlvs_bytes,
    Tlv,
};
use crate::text::{bytes_to_text, string_from_utf8_lossy};

verus! {

broadcast use vstd::std_specs::hash::group_hash_axioms;

#[derive(Debug, Clone, PartialEq)]
pub struct FeedbagItem {
    pub name: String,
    pub group_id: u16,
    pub item_id: u16,
    pub class_id: u16,
    pub attributes: Vec<Tlv>,
}

/// A buddy resolved from the feedbag and live presence, ready for display.
#[derive(Debug, Clone, PartialEq)]
pub struct Buddy {
    pub screen_name: String,
    pub group_name: String,
    pub is_online: bool,
    pub is_away: bool,
    pub away_message: Option<String>,
    pub warning_level: u16,
    pub is_blocked: bool,
}

/// A TLV list as (type, value) pairs.
pub open spec fn tlv_pairs(v: Seq<Tlv>) -> Seq<(u16, Seq<u8>)> {
    v.map_values(|t: Tlv| (t.tlv_type, t.value@))
}

/// The wire bytes of a feedbag item; both length fields hold their value
/// modulo 2^16.
pub open spec fn feedbag_item_bytes(
    name: Seq<u8>,
    group_id: u16,
    item_id: u16,
    class_id: u16,
    attrs: Seq<(u16, Seq<u8>)>,
) -> Seq<u8> {
    be16_bytes((name.len() % 65536) as u16) + name + be16_bytes(group_id) + be16_bytes(item_id)
        + be16_bytes(class_id) + be16_bytes((attrs.len() % 65536) as u16) + tlvs_bytes(attrs)
}

/// The bytes `FeedbagItem::encode` writes for `item`.
pub open spec fn encoded_item(item: FeedbagItem) -> Seq<u8> {
    feedbag_item_bytes(
        encode_utf8(item.name@),
        item.group_id,
        item.item_id,
        item.class_id,
        tlv_pairs(item.attributes@),
    )
}

/// A decoded feedbag item: name, group id, item id, class id, attributes.
pub type FeedbagEntry = (Seq<char>, u16, u16, u16, Map<u16, Seq<u8>>);

/// Where the fixed fields after the name start.
pub open spec fn item_fixed_start(d: Seq<u8>) -> int {
    2 + be16_at(d, 0) as int
}

/// Whether `d` begins with a whole fixed part of a feedbag item.
pub open spec fn item_fits(d: Seq<u8>) -> bool {
    d.len() >= 2 && d.len() >= item_fixed_start(d) + 8
}

/// The item `FeedbagItem::parse` reads from the front of `d`, with the
/// number of bytes it spans.
pub open spec fn feedbag_item_of(d: Seq<u8>) -> Option<(FeedbagEntry, int)> {
    if !item_fits(d) {
        None
    } else {
        let s = item_fixed_start(d);
        let count = be16_at(d, s + 6);
        let tail = d.skip(s + 8);
        Some(
            (
                (
                    bytes_to_text(d.subrange(2, s)),
                    be16_at(d, s),
                    be16_at(d, s + 2),
                    be16_at(d, s + 4),
                    tlv_map(tlv_list(tail, count as nat)),
                ),
                s + 8 + tlv_consumed(tail, count as nat),
            ),
        )
    }
}

/// `v` lists the entries of `m` once each, in some order.
pub open spec fn lists_map(v: Seq<(u16, Seq<u8>)>, m: Map<u16, Seq<u8>>) -> bool {
    &&& v.len() == m.dom().len()
    &&& forall|i: int| 0 <= i < v.len() ==> #[trigger] m.contains_key(v[i].0) && m[v[i].0] == v[i].1
    &&& forall|i: int, j: int| 0 <= i < j < v.len() ==> #[trigger] v[i].0 != #[trigger] v[j].0
    &&& forall|k: u16| #[trigger] m.contains_key(k) ==> exists|i: int| 0 <= i < v.len() && v[i].0 == k
}

/// `item` is the decoded entry `e`.
pub open spec fn item_is(item: FeedbagItem, e: FeedbagEntry) -> bool {
    &&& item.name@ == e.0
    &&& item.group_id == e.1
    &&& item.item_id == e.2
    &&& item.class_id == e.3
    &&& lists_map(tlv_pairs(item.attributes@), e.4)
}

fn read_u16(data: &[u8], index: &mut usize) -> (r: Option<u16>)
    ensures
        old(index) + 2 > data@.len() ==> r is None && *final(index) == *old(index),
        old(index) + 2 <= data@.len() ==> r == Some(be16_at(data@, *old(index) as int)) && *final(index)
            == *old(index) + 2,
{
    if data.len() < 2 || *index > data.len() - 2 {
        return None;
    }
    let value = read_be16(data, *index);
    *index = *index + 2;
    Some(value)
}

/// The attributes of a parsed item, as a list in the map's walk order.
fn attributes_from_map(m: &HashMap<u16, Vec<u8>>) -> (r: Vec<Tlv>)
    ensures
        lists_map(tlv_pairs(r@), m@.map_values(|v: Vec<u8>| v@)),
{
    let ghost mv = m@.map_values(|v: Vec<u8>| v@);
    let mut r: Vec<Tlv> = Vec::new();
    let ghost all = spec_hash_map_iter(m).remaining();
    for pair in it: m.iter()
        invariant
            it.seq() == all,
            all == spec_hash_map_iter(m).remaining(),
            mv == m@.map_values(|v: Vec<u8>| v@),
            r@.len() == it.index(),
            r@.len() <= all.len(),
            forall|i: int| 0 <= i < r@.len() ==> #[trigger] r@[i].tlv_type == *all[i].0 && r@[i].value@
                == (*all[i].1)@,
    {
        assert(pair == all[it.index()]);
        let (k, v) = pair;
        let value = copy_range(v.as_slice(), 0, v.len());
        r.push(Tlv { tlv_type: *k, value });
    }
    proof {
        let p = tlv_pairs(r@);
        assert(all.len() == m@.dom().len());
        assert(m@.dom() == mv.dom());
        assert forall|i: int| 0 <= i < p.len() implies #[trigger] mv.contains_key(p[i].0) && mv[p[i].0] == p[i].1 by {
            assert(m@.contains_key(*all[i].0) && m@[*all[i].0] == *all[i].1);
        }
        assert forall|i: int, j: int| 0 <= i < j < p.len() implies #[trigger] p[i].0 != #[trigger] p[j].0 by {
            if p[i].0 == p[j].0 {
                assert(m@.contains_key(*all[i].0) && m@[*all[i].0] == *all[i].1);
                assert(m@.contains_key(*all[j].0) && m@[*all[j].0] == *all[j].1);
                assert(all[i] == all[j]);
                assert(all.no_duplicates());
            }
        }
        assert forall|k: u16| #[trigger] mv.contains_key(k) implies exists|i: int| 0 <= i < p.len() && p[i].0 == k by {
            assert(m@.contains_key(k));
            assert(all.contains((&k, &m@[k])));
            let i = choose|i: int| 0 <= i < all.len() && all[i] == (&k, &m@[k]);
            assert(p[i].0 == k);
        }
    }
    r
}

impl FeedbagItem {
    pub const CLASS_BUDDY: u16 = 0x0000;

    pub const CLASS_GROUP: u16 = 0x0001;

    /// The block (deny) list class.
    pub const CLASS_DENY: u16 = 0x0003;

    pub fn encode(&self) -> (out: Vec<u8>)
        ensures
            out@ == encoded_item(*self),
    {
        let name_bytes = self.name.as_str().as_bytes();
        let mut out: Vec<u8> = Vec::new();
        push_be16(&mut out, (name_bytes.len() % 65536) as u16);
        push_all(&mut out, name_bytes);
        push_be16(&mut out, self.group_id);
        push_be16(&mut out, self.item_id);
        push_be16(&mut out, self.class_id);
        push_be16(&mut out, (self.attributes.len() % 65536) as u16);
        let ghost head = out@;
        let ghost pairs = tlv_pairs(self.attributes@);
        let mut i: usize = 0;
        while i < self.attributes.len()
            invariant
                i <= self.attributes@.len(),
                pairs == tlv_pairs(self.attributes@),
                out@ == head + tlvs_bytes(pairs.take(i as int)),
            decreases self.attributes@.len() - i,
        {
            let enc = self.attributes[i].encode();
            push_all(&mut out, enc.as_slice());
            proof {
                lemma_tlvs_bytes_push(pairs.take(i as int), pairs[i as int]);
                assert(pairs.take(i + 1) =~= pairs.take(i as int).push(pairs[i as int]));
            }
            i = i + 1;
        }
        assert(pairs.take(pairs.len() as int) =~= pairs);
        assert(out@ =~= encoded_item(*self));
        out
    }

    /// Parses one item from the front of `data`, returning it with the
    /// number of bytes it spans so a caller can walk a run of items. The
    /// attribute list comes out in the order the attribute map is walked.
    pub fn parse(data: &[u8]) -> (r: Option<(FeedbagItem, usize)>)
        ensures
            r is Some <==> feedbag_item_of(data@) is Some,
            r matches Some((item, n)) ==> {
                &&& item_is(item, feedbag_item_of(data@).unwrap().0)
                &&& n == feedbag_item_of(data@).unwrap().1
                &&& n <= data@.len()
            },
    {
        let mut index: usize = 0;
        let name_len = match read_u16(data, &mut index) {
            Some(v) => v as usize,
            None => return None,
        };
        if name_len > data.len() - index {
            return None;
        }
        let name_bytes = copy_range(data, index, index + name_len);
        let name = string_from_utf8_lossy(name_bytes.as_slice());
        index = index + name_len;
        if data.len() - index < 8 {
            return None;
        }
        let group_id = match read_u16(data, &mut index) {
            Some(v) => v,
            None => return None,
        };
        let item_id = match read_u16(data, &mut index) {
            Some(v) => v,
            None => return None,
        };
        let class_id = match read_u16(data, &mut index) {
            Some(v) => v,
            None => return None,
        };
        let attr_count = match read_u16(data, &mut index) {
            Some(v) => v as usize,
            None => return None,
        };
        let rest = &data[index..data.len()];
        let (attr_tlvs, consumed) = Tlv::parse_n(rest, attr_count);
        let attributes = attributes_from_map(&attr_tlvs);
        proof {
            let e = feedbag_item_of(data@).unwrap().0;
            assert(attr_tlvs@.map_values(|v: Vec<u8>| v@) =~= e.4);
        }
        index = index + consumed;
        Some((FeedbagItem { name, group_id, item_id, class_id, attributes }, index))
    }
}

/// The items `FeedbagItem::parse_all` reads from `d`: one after another
/// until the bytes run out or the next item is incomplete.
pub open spec fn feedbag_items_of(d: Seq<u8>) -> Seq<FeedbagEntry>
    decreases d.len(),
{
    if d.len() == 0 {
        seq![]
    } else {
        match feedbag_item_of(d) {
            None => seq![],
            Some((e, n)) => if n <= 0 || n > d.len() {
                seq![]
            } else {
                seq![e] + feedbag_items_of(d.skip(n))
            },
        }
    }
}

impl FeedbagItem {
    /// Parses a run of consecutive items, as many as fit.
    pub fn parse_all(data: &[u8]) -> (items: Vec<FeedbagItem>)
        ensures
            items@.len() == feedbag_items_of(data@).len(),
            forall|i: int| 0 <= i < items@.len() ==> #[trigger] item_is(items@[i], feedbag_items_of(data@)[i]),
    {
        let mut items: Vec<FeedbagItem> = Vec::new();
        let mut offset: usize = 0;
        let ghost d = data@;
        let ghost mut done: Seq<FeedbagEntry> = seq![];
        assert(d.skip(0) =~= d);
        assert(done + feedbag_items_of(d) =~= feedbag_items_of(d));
        while offset < data.len()
            invariant
                d == data@,
                offset <= d.len(),
                feedbag_items_of(d) == done + feedbag_items_of(d.skip(offset as int)),
                items@.len() == done.len(),
                forall|i: int| 0 <= i < items@.len() ==> #[trigger] item_is(items@[i], done[i]),
            ensures
                feedbag_items_of(d.skip(offset as int)) == Seq::<FeedbagEntry>::empty(),
            decreases d.len() - offset,
        {
            let remaining = &data[offset..data.len()];
            let ghost rest = d.skip(offset as int);
            assert(remaining@ =~= rest);
            let (item, consumed) = match FeedbagItem::parse(remaining) {
                Some(p) => p,
                None => {
                    assert(feedbag_items_of(rest) =~= seq![]);
                    break;
                },
            };
            if consumed == 0 {
                assert(feedbag_items_of(rest) =~= seq![]);
                break;
            }
            proof {
                let e = feedbag_item_of(rest).unwrap().0;
                assert(feedbag_items_of(rest) == seq![e] + feedbag_items_of(rest.skip(consumed as int)));
                assert(rest.skip(consumed as int) =~= d.skip(offset + consumed));
                assert(done + feedbag_items_of(rest) =~= done.push(e) + feedbag_items_of(
                    d.skip(offset + consumed),
                ));
                done = done.push(e);
            }
            items.push(item);
            offset = offset + consumed;
        }
        if offset >= data.len() {
            assert(d.skip(offset as int) =~= seq![]);
        }
        assert(done + feedbag_items_of(d.skip(offset as int)) =~= done);
        items
    }
}

/// Reading back an encoded feedbag item, followed by any bytes, gives its
/// name, ids and attribute map, and spans exactly its encoding.
pub proof fn lemma_feedbag_item_bytes_roundtrip(
    name: Seq<char>,
    group_id: u16,
    item_id: u16,
    class_id: u16,
    attrs: Seq<(u16, Seq<u8>)>,
    rest: Seq<u8>,
)
    requires
        encode_utf8(name).len() <= 65535,
        attrs.len() <= 65535,
        tlv_values_fit(attrs),
    ensures
        ({
            let b = feedbag_item_bytes(encode_utf8(name), group_id, item_id, class_id, attrs);
            feedbag_item_of(b + rest) == Some(
                ((name, group_id, item_id, class_id, tlv_map(attrs)), b.len() as int),
            )
        }),
{
    let nb = encode_utf8(name);
    let b = feedbag_item_bytes(nb, group_id, item_id, class_id, attrs);
    let d = b + rest;
    let n = nb.len() as int;
    lemma_be16_roundtrip(nb.len() as u16);
    lemma_be16_roundtrip(group_id);
    lemma_be16_roundtrip(item_id);
    lemma_be16_roundtrip(class_id);
    lemma_be16_roundtrip(attrs.len() as u16);
    assert(d[0] == be16_bytes(nb.len() as u16)[0] && d[1] == be16_bytes(nb.len() as u16)[1]);
    assert(item_fixed_start(d) == 2 + n);
    assert(d.subrange(2, 2 + n) =~= nb);
    vstd::utf8::encode_utf8_valid_utf8(name);
    vstd::utf8::encode_utf8_decode_utf8(name);
    assert(d[2 + n] == be16_bytes(group_id)[0] && d[3 + n] == be16_bytes(group_id)[1]);
    assert(d[4 + n] == be16_bytes(item_id)[0] && d[5 + n] == be16_bytes(item_id)[1]);
    assert(d[6 + n] == be16_bytes(class_id)[0] && d[7 + n] == be16_bytes(class_id)[1]);
    assert(d[8 + n] == be16_bytes(attrs.len() as u16)[0] && d[9 + n] == be16_bytes(attrs.len() as u16)[1]);
    let tail = d.skip(10 + n);
    assert(tail =~= tlvs_bytes(attrs) + rest);
    lemma_tlvs_roundtrip(attrs, rest, 0);
    assert(attrs + tlv_list(rest, 0) =~= attrs);
}

/// Encoding a feedbag item and parsing it back gives an item with the same
/// name, group id, item id and class id, and the same attributes up to
/// their order, whenever the name and every attribute value fit their 16-bit
/// length fields, there are at most 65535 attributes, and no two attributes
/// share a type. Any bytes after the item are left for the caller.
pub proof fn lemma_feedbag_item_roundtrip(item: FeedbagItem, rest: Seq<u8>)
    requires
        encode_utf8(item.name@).len() <= 65535,
        item.attributes@.len() <= 65535,
        tlv_values_fit(tlv_pairs(item.attributes@)),
        forall|i: int, j: int|
            0 <= i < j < item.attributes@.len() ==> #[trigger] item.attributes@[i].tlv_type
                != #[trigger] item.attributes@[j].tlv_type,
    ensures
        feedbag_item_of(encoded_item(item) + rest) matches Some((e, n)) && n == encoded_item(item).len()
            && forall|parsed: FeedbagItem| #[trigger] item_is(parsed, e) ==> {
            &&& parsed.name@ == item.name@
            &&& parsed.group_id == item.group_id
            &&& parsed.item_id == item.item_id
            &&& parsed.class_id == item.class_id
            &&& tlv_pairs(parsed.attributes@).to_set() == tlv_pairs(item.attributes@).to_set()
        },
{
    let pairs = tlv_pairs(item.attributes@);
    lemma_feedbag_item_bytes_roundtrip(item.name@, item.group_id, item.item_id, item.class_id, pairs, rest);
    assert forall|i: int, j: int| 0 <= i < j < pairs.len() implies #[trigger] pairs[i].0 != #[trigger] pairs[j].0 by {
        assert(pairs[i].0 == item.attributes@[i].tlv_type);
        assert(pairs[j].0 == item.attributes@[j].tlv_type);
    }
    crate::snac::lemma_tlv_map_distinct(pairs);
    let m = tlv_map(pairs);
    assert(lists_map(pairs, m));
    assert forall|parsed: FeedbagItem| #[trigger] item_is(parsed, (item.name@, item.group_id, item.item_id, item.class_id, m)) implies
        tlv_pairs(parsed.attributes@).to_set() == pairs.to_set() by {
        lemma_lists_same_map_same_set(tlv_pairs(parsed.attributes@), pairs, m);
    }
}

/// `item` can be encoded and read back: its name and every attribute
/// value fit their 16-bit length fields, it has at most 65535 attributes,
/// and no two attributes share a type.
pub open spec fn item_encodable(item: FeedbagItem) -> bool {
    &&& encode_utf8(item.name@).len() <= 65535
    &&& item.attributes@.len() <= 65535
    &&& tlv_values_fit(tlv_pairs(item.attributes@))
    &&& forall|i: int, j: int|
        0 <= i < j < item.attributes@.len() ==> #[trigger] item.attributes@[i].tlv_type
            != #[trigger] item.attributes@[j].tlv_type
}

/// `parsed` is `item` again: same name and ids, same attributes up to
/// their order.
pub open spec fn same_item(parsed: FeedbagItem, item: FeedbagItem) -> bool {
    &&& parsed.name@ == item.name@
    &&& parsed.group_id == item.group_id
    &&& parsed.item_id == item.item_id
    &&& parsed.class_id == item.class_id
    &&& tlv_pairs(parsed.attributes@).to_set() == tlv_pairs(item.attributes@).to_set()
}

/// The encodings of `items`, one after another.
pub open spec fn encoded_items(items: Seq<FeedbagItem>) -> Seq<u8>
    decreases items.len(),
{
    if items.len() == 0 {
        seq![]
    } else {
        encoded_item(items[0]) + encoded_items(items.drop_first())
    }
}

/// Parsing the encodings of a run of items, one after another, gives one
/// entry per item, in order, and each entry is that item again (up to the
/// order of its attributes), whenever every item can be encoded.
pub proof fn lemma_feedbag_items_roundtrip(items: Seq<FeedbagItem>)
    requires
        forall|i: int| 0 <= i < items.len() ==> #[trigger] item_encodable(items[i]),
    ensures
        feedbag_items_of(encoded_items(items)).len() == items.len(),
        forall|i: int, parsed: FeedbagItem|
            0 <= i < items.len() && #[trigger] item_is(parsed, feedbag_items_of(encoded_items(items))[i])
                ==> same_item(parsed, items[i]),
    decreases items.len(),
{
    if items.len() > 0 {
        let first = items[0];
        let tail = items.drop_first();
        assert(item_encodable(first));
        assert forall|i: int| 0 <= i < tail.len() implies #[trigger] item_encodable(tail[i]) by {
            assert(tail[i] == items[i + 1]);
        }
        lemma_feedbag_items_roundtrip(tail);
        let rest = encoded_items(tail);
        let d = encoded_items(items);
        assert(d == encoded_item(first) + rest);
        lemma_feedbag_item_roundtrip(first, rest);
        let n = encoded_item(first).len() as int;
        assert(n >= 10);
        let e = feedbag_item_of(d).unwrap().0;
        assert(d.skip(n) =~= rest);
        assert(feedbag_items_of(d) == seq![e] + feedbag_items_of(rest));
        assert forall|i: int, parsed: FeedbagItem|
            0 <= i < items.len() && #[trigger] item_is(parsed, feedbag_items_of(d)[i]) implies same_item(parsed, items[i]) by {
            if i == 0 {
                assert(feedbag_items_of(d)[0] == e);
            } else {
                assert(feedbag_items_of(d)[i] == feedbag_items_of(rest)[i - 1]);
                assert(items[i] == tail[i - 1]);
            }
        }
    } else {
        assert(encoded_items(items) =~= seq![]);
    }
}

/// Two lists of the same map hold the same pairs.
proof fn lemma_lists_same_map_same_set(a: Seq<(u16, Seq<u8>)>, b: Seq<(u16, Seq<u8>)>, m: Map<u16, Seq<u8>>)
    requires
        lists_map(a, m),
        lists_map(b, m),
    ensures
        a.to_set() == b.to_set(),
{
    assert forall|x: (u16, Seq<u8>)| a.to_set().contains(x) implies b.to_set().contains(x) by {
        assert(a.contains(x));
        let i = choose|i: int| 0 <= i < a.len() && a[i] == x;
        assert(0 <= i < a.len());
        assert(m.contains_key(a[i].0));
        assert(m[a[i].0] == a[i].1);
        assert(m.contains_key(x.0));
        assert(exists|j: int| 0 <= j < b.len() && b[j].0 == x.0);
        let j = choose|j: int| 0 <= j < b.len() && b[j].0 == x.0;
        assert(m.contains_key(b[j].0) && m[b[j].0] == b[j].1);
        assert(b[j] == x);
        assert(b.contains(x));
    }
    assert forall|x: (u16, Seq<u8>)| b.to_set().contains(x) implies a.to_set().contains(x) by {
        assert(b.contains(x));
        let j = choose|j: int| 0 <= j < b.len() && b[j] == x;
        assert(m.contains_key(b[j].0) && m[b[j].0] == b[j].1);
        assert(m.contains_key(x.0));
        assert(exists|i: int| 0 <= i < a.len() && a[i].0 == x.0);
        let i = choose|i: int| 0 <= i < a.len() && a[i].0 == x.0;
        assert(m.contains_key(a[i].0) && m[a[i].0] == a[i].1);
        assert(a[i] == x);
        assert(a.contains(x));
    }
    assert(a.to_set() =~= b.to_set());
}

/// Appending one TLV to a run appends its bytes.
pub proof fn lemma_tlvs_bytes_push(l: Seq<(u16, Seq<u8>)>, x: (u16, Seq<u8>))
    ensures
        tlvs_bytes(l.push(x)) == tlvs_bytes(l) + crate::snac::tlv_bytes(x.0, x.1),
    decreases l.len(),
{
    if l.len() == 0 {
        assert(l.push(x).drop_first() =~= seq![]);
        assert(tlvs_bytes(l.push(x).drop_first()) =~= seq![]);
        assert(tlvs_bytes(l) =~= seq![]);
        assert(tlvs_bytes(l.push(x)) =~= crate::snac::tlv_bytes(x.0, x.1));
    } else {
        lemma_tlvs_bytes_push(l.drop_first(), x);
        assert(l.push(x).drop_first() =~= l.drop_first().push(x));
        assert(tlvs_bytes(l.push(x)) =~= tlvs_bytes(l) + crate::snac::tlv_bytes(x.0, x.1));
    }
}

} // verus!
