//! SNAC ("Simple Network Atomic Communication") is the command unit inside a
//! FLAP data frame, identified by a (family, subtype) pair.
//!
//! Wire format (big-endian), inside the FLAP payload:
//!   bytes 0-1: family
//!   bytes 2-3: subtype
//!   bytes 4-5: flags
//!   bytes 6-9: request id (chosen by the client, echoed by the server)
//!   bytes 10...: body, usually a run of TLVs
//!
//! Most bodies are built from TLVs (type, length, value); `UserInfo` is the
//! user block several families embed.

use std::collections::HashMap;

use vstd::prelude::*;

use crate::bytes::{
    be16_at, be16_bytes, be32_at, be32_bytes, copy_range, lemma_be16_roundtrip,
    lemma_be32_roundtrip, push_all, push_be16, push_be32, read_be16, read_be32,
};
use crate::text::{bytes_to_text, string_from_utf8_lossy};

verus! {

broadcast use vstd::std_specs::hash::group_hash_axioms;

pub const SNAC_HEADER_SIZE: usize = 10;

/// The SNAC families this client speaks.
#[derive(Debug, Clone, Copy, PartialEq, Eq, Hash, Structural)]
pub enum SnacFamily {
    /// Service-level messages: rate limits, host online, redirects (0x0001).
    Generic,
    /// User profiles and away messages (0x0002).
    Locate,
    /// Buddy arrival and departure notifications (0x0003).
    BuddyPresence,
    /// ICBM: instant messages (0x0004).
    Messaging,
    /// Chat room creation (0x000D).
    ChatNav,
    /// A joined chat room (0x000E).
    Chat,
    /// Buddy list storage (0x0013).
    Feedbag,
    /// BUCP: login and authorization (0x0017).
    Authorization,
}

/// The family number of `f` on the wire.
pub open spec fn family_code(f: SnacFamily) -> u16 {
    match f {
        SnacFamily::Generic => 0x0001,
        SnacFamily::Locate => 0x0002,
        SnacFamily::BuddyPresence => 0x0003,
        SnacFamily::Messaging => 0x0004,
        SnacFamily::ChatNav => 0x000D,
        SnacFamily::Chat => 0x000E,
        SnacFamily::Feedbag => 0x0013,
        SnacFamily::Authorization => 0x0017,
    }
}

/// The family that a family number names, if any.
pub open spec fn family_of_code(v: u16) -> Option<SnacFamily> {
    if v == 0x0001 {
        Some(SnacFamily::Generic)
    } else if v == 0x0002 {
        Some(SnacFamily::Locate)
    } else if v == 0x0003 {
        Some(SnacFamily::BuddyPresence)
    } else if v == 0x0004 {
        Some(SnacFamily::Messaging)
    } else if v == 0x000D {
        Some(SnacFamily::ChatNav)
    } else if v == 0x000E {
        Some(SnacFamily::Chat)
    } else if v == 0x0013 {
        Some(SnacFamily::Feedbag)
    } else if v == 0x0017 {
        Some(SnacFamily::Authorization)
    } else {
        None
    }
}

impl SnacFamily {
    pub fn as_u16(self) -> (r: u16)
        ensures
            r == family_code(self),
    {
        match self {
            SnacFamily::Generic => 0x0001,
            SnacFamily::Locate => 0x0002,
            SnacFamily::BuddyPresence => 0x0003,
            SnacFamily::Messaging => 0x0004,
            SnacFamily::ChatNav => 0x000D,
            SnacFamily::Chat => 0x000E,
            SnacFamily::Feedbag => 0x0013,
            SnacFamily::Authorization => 0x0017,
        }
    }

    pub fn from_u16(value: u16) -> (r: Option<SnacFamily>)
        ensures
            r == family_of_code(value),
    {
        match value {
            0x0001 => Some(SnacFamily::Generic),
            0x0002 => Some(SnacFamily::Locate),
            0x0003 => Some(SnacFamily::BuddyPresence),
            0x0004 => Some(SnacFamily::Messaging),
            0x000D => Some(SnacFamily::ChatNav),
            0x000E => Some(SnacFamily::Chat),
            0x0013 => Some(SnacFamily::Feedbag),
            0x0017 => Some(SnacFamily::Authorization),
            _ => None,
        }
    }
}

/// Every family survives a trip through its family number.
pub proof fn lemma_family_code_roundtrip(f: SnacFamily)
    ensures
        family_of_code(family_code(f)) == Some(f),
{
}

#[derive(Debug, Clone)]
pub struct SnacHeader {
    pub family: u16,
    pub subtype: u16,
    pub flags: u16,
    pub request_id: u32,
}

/// The 10 bytes of a SNAC header.
pub open spec fn snac_header_bytes(h: SnacHeader) -> Seq<u8> {
    be16_bytes(h.family) + be16_bytes(h.subtype) + be16_bytes(h.flags) + be32_bytes(h.request_id)
}

/// What `SnacHeader::parse` makes of a byte string: `None` below 10 bytes,
/// else the header read from the first 10.
pub open spec fn snac_header_of(d: Seq<u8>) -> Option<SnacHeader> {
    if d.len() < SNAC_HEADER_SIZE {
        None
    } else {
        Some(
            SnacHeader {
                family: be16_at(d, 0),
                subtype: be16_at(d, 2),
                flags: be16_at(d, 4),
                request_id: be32_at(d, 6),
            },
        )
    }
}

impl SnacHeader {
    pub fn encode(&self) -> (out: Vec<u8>)
        ensures
            out@ == snac_header_bytes(*self),
    {
        let mut out: Vec<u8> = Vec::new();
        push_be16(&mut out, self.family);
        push_be16(&mut out, self.subtype);
        push_be16(&mut out, self.flags);
        push_be32(&mut out, self.request_id);
        assert(out@ =~= snac_header_bytes(*self));
        out
    }

    pub fn parse(data: &[u8]) -> (r: Option<SnacHeader>)
        ensures
            r == snac_header_of(data@),
    {
        if data.len() < SNAC_HEADER_SIZE {
            return None;
        }
        Some(
            SnacHeader {
                family: read_be16(data, 0),
                subtype: read_be16(data, 2),
                flags: read_be16(data, 4),
                request_id: read_be32(data, 6),
            },
        )
    }
}

/// Reading back an encoded header gives the header.
pub proof fn lemma_snac_header_roundtrip(h: SnacHeader, rest: Seq<u8>)
    ensures
        snac_header_of(snac_header_bytes(h) + rest) == Some(h),
{
    let b = snac_header_bytes(h) + rest;
    lemma_be16_roundtrip(h.family);
    lemma_be16_roundtrip(h.subtype);
    lemma_be16_roundtrip(h.flags);
    lemma_be32_roundtrip(h.request_id);
    assert(b[0] == be16_bytes(h.family)[0] && b[1] == be16_bytes(h.family)[1]);
    assert(b[2] == be16_bytes(h.subtype)[0] && b[3] == be16_bytes(h.subtype)[1]);
    assert(b[4] == be16_bytes(h.flags)[0] && b[5] == be16_bytes(h.flags)[1]);
    assert(b[6] == be32_bytes(h.request_id)[0] && b[7] == be32_bytes(h.request_id)[1]);
    assert(b[8] == be32_bytes(h.request_id)[2] && b[9] == be32_bytes(h.request_id)[3]);
}

#[derive(Debug, Clone)]
pub struct Snac {
    pub header: SnacHeader,
    pub body: Vec<u8>,
}

/// The bytes of a SNAC: header, then body.
pub open spec fn snac_bytes(h: SnacHeader, body: Seq<u8>) -> Seq<u8> {
    snac_header_bytes(h) + body
}

impl Snac {
    pub fn encode(&self) -> (out: Vec<u8>)
        ensures
            out@ == snac_bytes(self.header, self.body@),
    {
        let mut out = self.header.encode();
        push_all(&mut out, self.body.as_slice());
        out
    }

    /// `None` below 10 bytes; otherwise the header and everything after it
    /// as the body.
    pub fn parse(data: &[u8]) -> (r: Option<Snac>)
        ensures
            r is None <==> data@.len() < SNAC_HEADER_SIZE,
            r matches Some(s) ==> Some(s.header) == snac_header_of(data@) && s.body@ == data@.subrange(
                SNAC_HEADER_SIZE as int,
                data@.len() as int,
            ),
    {
        let header = match SnacHeader::parse(data) {
            Some(h) => h,
            None => return None,
        };
        let body = copy_range(data, SNAC_HEADER_SIZE, data.len());
        Some(Snac { header, body })
    }
}

/// Parsing an encoded SNAC gives its header and body back.
pub proof fn lemma_snac_roundtrip(h: SnacHeader, body: Seq<u8>)
    ensures
        snac_header_of(snac_bytes(h, body)) == Some(h),
        snac_bytes(h, body).subrange(10, snac_bytes(h, body).len() as int) == body,
{
    lemma_snac_header_roundtrip(h, body);
    assert(snac_bytes(h, body).subrange(10, snac_bytes(h, body).len() as int) =~= body);
}

// TLV (type, length, value) encoding.

#[derive(Debug, Clone, PartialEq)]
pub struct Tlv {
    pub tlv_type: u16,
    pub value: Vec<u8>,
}

/// The bytes of one TLV; the length field holds the value length modulo
/// 2^16, as the wire field is 16 bits wide.
pub open spec fn tlv_bytes(t: u16, v: Seq<u8>) -> Seq<u8> {
    be16_bytes(t) + be16_bytes((v.len() % 65536) as u16) + v
}

/// The TLV at the very front of `d`, with the number of bytes it spans, when
/// a whole one is there.
pub open spec fn tlv_first(d: Seq<u8>) -> Option<(u16, Seq<u8>)> {
    if d.len() < 4 {
        None
    } else if 4 + be16_at(d, 2) > d.len() {
        None
    } else {
        Some((be16_at(d, 0), d.subrange(4, 4 + be16_at(d, 2) as int)))
    }
}

/// The TLVs read from the front of `d`, at most `count` of them, stopping at
/// the first incomplete one.
pub open spec fn tlv_list(d: Seq<u8>, count: nat) -> Seq<(u16, Seq<u8>)>
    decreases count,
{
    if count == 0 {
        seq![]
    } else {
        match tlv_first(d) {
            None => seq![],
            Some((t, v)) => seq![(t, v)] + tlv_list(d.skip(4 + v.len() as int), (count - 1) as nat),
        }
    }
}

/// How many bytes `tlv_list(d, count)` spans.
pub open spec fn tlv_consumed(d: Seq<u8>, count: nat) -> nat
    decreases count,
{
    if count == 0 {
        0
    } else {
        match tlv_first(d) {
            None => 0,
            Some((t, v)) => 4 + v.len() + tlv_consumed(d.skip(4 + v.len() as int), (count - 1) as nat),
        }
    }
}

/// The map a TLV list makes, later entries with the same type replacing
/// earlier ones.
pub open spec fn tlv_map(l: Seq<(u16, Seq<u8>)>) -> Map<u16, Seq<u8>>
    decreases l.len(),
{
    if l.len() == 0 {
        Map::empty()
    } else {
        tlv_map(l.drop_last()).insert(l.last().0, l.last().1)
    }
}

/// `h` holds exactly the entries of `m`, values taken by their view.
pub open spec fn tlv_map_matches(h: Map<u16, Vec<u8>>, m: Map<u16, Seq<u8>>) -> bool {
    &&& h.dom() == m.dom()
    &&& forall|k: u16| #[trigger] h.contains_key(k) ==> h[k]@ == m[k]
}

/// The TLV map `Tlv::parse_all` makes of `d`.
pub open spec fn tlv_block_map(d: Seq<u8>) -> Map<u16, Seq<u8>> {
    tlv_map(tlv_list(d, usize::MAX as nat))
}

/// Reading `count` TLVs from `d` is reading the first, then `count - 1`
/// from what follows it.
proof fn lemma_tlv_list_step(d: Seq<u8>, count: nat)
    requires
        count > 0,
        tlv_first(d) is Some,
    ensures
        ({
            let v = tlv_first(d).unwrap().1;
            &&& tlv_list(d, count) == seq![tlv_first(d).unwrap()] + tlv_list(
                d.skip(4 + v.len() as int),
                (count - 1) as nat,
            )
            &&& tlv_consumed(d, count) == 4 + v.len() + tlv_consumed(
                d.skip(4 + v.len() as int),
                (count - 1) as nat,
            )
        }),
{
}

impl Tlv {
    pub fn new(tlv_type: u16, value: Vec<u8>) -> (r: Tlv)
        ensures
            r.tlv_type == tlv_type,
            r.value@ == value@,
    {
        Tlv { tlv_type, value }
    }

    pub fn encode(&self) -> (out: Vec<u8>)
        ensures
            out@ == tlv_bytes(self.tlv_type, self.value@),
    {
        let mut out: Vec<u8> = Vec::new();
        push_be16(&mut out, self.tlv_type);
        let len16: u16 = (self.value.len() % 65536) as u16;
        push_be16(&mut out, len16);
        push_all(&mut out, self.value.as_slice());
        assert(out@ =~= tlv_bytes(self.tlv_type, self.value@));
        out
    }

    /// Parses a flat run of consecutive TLVs, as most SNAC bodies are
    /// laid out. An incomplete trailing TLV is dropped.
    pub fn parse_all(data: &[u8]) -> (r: HashMap<u16, Vec<u8>>)
        ensures
            tlv_map_matches(r@, tlv_block_map(data@)),
    {
        let (tlvs, _) = Self::parse_n(data, usize::MAX);
        tlvs
    }

    /// Parses at most `count` TLVs from the front of `data`, returning them
    /// with the number of bytes they span, so a caller can go on with what
    /// follows a counted TLV block.
    pub fn parse_n(data: &[u8], count: usize) -> (r: (HashMap<u16, Vec<u8>>, usize))
        ensures
            tlv_map_matches(r.0@, tlv_map(tlv_list(data@, count as nat))),
            r.1 == tlv_consumed(data@, count as nat),
            r.1 <= data@.len(),
    {
        let mut result: HashMap<u16, Vec<u8>> = HashMap::new();
        let mut index: usize = 0;
        let mut n: usize = 0;
        let ghost d = data@;
        let ghost mut done: Seq<(u16, Seq<u8>)> = seq![];
        assert(d.skip(0) =~= d);
        assert(done + tlv_list(d, count as nat) =~= tlv_list(d, count as nat));
        while n < count
            invariant
                d == data@,
                n <= count,
                index <= d.len(),
                tlv_list(d, count as nat) == done + tlv_list(d.skip(index as int), (count - n) as nat),
                tlv_consumed(d, count as nat) == index + tlv_consumed(
                    d.skip(index as int),
                    (count - n) as nat,
                ),
                tlv_map_matches(result@, tlv_map(done)),
            ensures
                n == count || tlv_first(d.skip(index as int)) is None,
            decreases count - n,
        {
            let ghost rest = d.skip(index as int);
            if data.len() - index < 4 {
                assert(tlv_first(rest) is None);
                break;
            }
            let tlv_type = read_be16(data, index);
            let length = read_be16(data, index + 2) as usize;
            let value_start = index + 4;
            if length > data.len() - value_start {
                assert(rest[2] == d[index + 2] && rest[3] == d[index + 3]);
                assert(tlv_first(rest) is None);
                break;
            }
            assert(rest[0] == d[index as int] && rest[1] == d[index + 1]);
            assert(rest[2] == d[index + 2] && rest[3] == d[index + 3]);
            assert(tlv_first(rest) is Some);
            let value = copy_range(data, value_start, value_start + length);
            assert(value@ =~= rest.subrange(4, 4 + length as int));
            proof {
                lemma_tlv_list_step(rest, (count - n) as nat);
                assert(rest.skip(4 + length as int) =~= d.skip(value_start + length));
                let item = (tlv_type, value@);
                assert(tlv_first(rest).unwrap() == item);
                assert((done.push(item)).drop_last() =~= done);
                assert(done + tlv_list(rest, (count - n) as nat) =~= done.push(item) + tlv_list(
                    d.skip(value_start + length),
                    (count - n - 1) as nat,
                ));
                done = done.push(item);
            }
            result.insert(tlv_type, value);
            index = value_start + length;
            n = n + 1;
            assert(tlv_map_matches(result@, tlv_map(done)));
        }
        proof {
            let rest = d.skip(index as int);
            assert(tlv_list(rest, (count - n) as nat) =~= seq![]);
            assert(done + seq![] =~= done);
        }
        (result, index)
    }
}

/// The bytes of a run of TLVs, back to back.
pub open spec fn tlvs_bytes(l: Seq<(u16, Seq<u8>)>) -> Seq<u8>
    decreases l.len(),
{
    if l.len() == 0 {
        seq![]
    } else {
        tlv_bytes(l[0].0, l[0].1) + tlvs_bytes(l.drop_first())
    }
}

/// Every value in `l` fits the 16-bit length field.
pub open spec fn tlv_values_fit(l: Seq<(u16, Seq<u8>)>) -> bool {
    forall|i: int| 0 <= i < l.len() ==> #[trigger] l[i].1.len() <= 65535
}

/// Encoding a TLV and reading it back from the front gives it back.
pub proof fn lemma_tlv_first_of_bytes(t: u16, v: Seq<u8>, rest: Seq<u8>)
    requires
        v.len() <= 65535,
    ensures
        tlv_first(tlv_bytes(t, v) + rest) == Some((t, v)),
        (tlv_bytes(t, v) + rest).skip(4 + v.len() as int) == rest,
{
    let b = tlv_bytes(t, v) + rest;
    lemma_be16_roundtrip(t);
    lemma_be16_roundtrip(v.len() as u16);
    assert(b[0] == be16_bytes(t)[0] && b[1] == be16_bytes(t)[1]);
    assert(b[2] == be16_bytes(v.len() as u16)[0] && b[3] == be16_bytes(v.len() as u16)[1]);
    assert(b.subrange(4, 4 + v.len() as int) =~= v);
    assert(b.skip(4 + v.len() as int) =~= rest);
}

/// Reading TLVs back from encoded TLVs: a run of encoded TLVs followed by
/// more bytes reads as that run, then whatever the following bytes read as.
pub proof fn lemma_tlvs_roundtrip(l: Seq<(u16, Seq<u8>)>, rest: Seq<u8>, k: nat)
    requires
        tlv_values_fit(l),
    ensures
        tlv_list(tlvs_bytes(l) + rest, l.len() + k) == l + tlv_list(rest, k),
        tlv_consumed(tlvs_bytes(l) + rest, l.len() + k) == tlvs_bytes(l).len() + tlv_consumed(rest, k),
    decreases l.len(),
{
    if l.len() == 0 {
        assert(tlvs_bytes(l) + rest =~= rest);
        assert(l + tlv_list(rest, k) =~= tlv_list(rest, k));
    } else {
        let t = l[0].0;
        let v = l[0].1;
        let tail = l.drop_first();
        assert(l[0].1.len() <= 65535);
        assert(tlv_values_fit(tail)) by {
            assert forall|i: int| 0 <= i < tail.len() implies #[trigger] tail[i].1.len() <= 65535 by {
                assert(tail[i] == l[i + 1]);
            }
        }
        let b = tlvs_bytes(l) + rest;
        assert(b =~= tlv_bytes(t, v) + (tlvs_bytes(tail) + rest));
        lemma_tlv_first_of_bytes(t, v, tlvs_bytes(tail) + rest);
        lemma_tlvs_roundtrip(tail, rest, k);
        assert(l.len() + k - 1 == tail.len() + k);
        lemma_tlv_list_step(b, l.len() + k);
        assert(l =~= seq![(t, v)] + tail);
        assert(l + tlv_list(rest, k) =~= seq![(t, v)] + (tail + tlv_list(rest, k)));
    }
}

/// A flat block made of encoded TLVs and then an incomplete one (fewer than
/// four bytes, or a length running past the end) reads as the map of those
/// TLVs: the incomplete tail is dropped.
pub proof fn lemma_tlv_block_ignores_incomplete_tail(l: Seq<(u16, Seq<u8>)>, rest: Seq<u8>)
    requires
        tlv_values_fit(l),
        l.len() <= usize::MAX,
        tlv_first(rest) is None,
    ensures
        tlv_block_map(tlvs_bytes(l) + rest) == tlv_map(l),
{
    let k = (usize::MAX - l.len()) as nat;
    lemma_tlvs_roundtrip(l, rest, k);
    assert(tlv_list(rest, k) =~= seq![]);
    assert(l + tlv_list(rest, k) =~= l);
}

/// In the map of a run of TLVs with pairwise distinct types, each type maps
/// to its own value.
pub proof fn lemma_tlv_map_distinct(l: Seq<(u16, Seq<u8>)>)
    requires
        forall|i: int, j: int| 0 <= i < j < l.len() ==> #[trigger] l[i].0 != #[trigger] l[j].0,
    ensures
        tlv_map(l).dom().len() == l.len(),
        tlv_map(l).dom().finite(),
        forall|i: int| 0 <= i < l.len() ==> #[trigger] tlv_map(l).contains_key(l[i].0) && tlv_map(l)[l[i].0]
            == l[i].1,
        forall|t: u16| #[trigger] tlv_map(l).contains_key(t) ==> exists|i: int| 0 <= i < l.len() && l[i].0 == t,
    decreases l.len(),
{
    if l.len() > 0 {
        let p = l.drop_last();
        assert forall|i: int, j: int| 0 <= i < j < p.len() implies #[trigger] p[i].0 != #[trigger] p[j].0 by {
            assert(p[i] == l[i] && p[j] == l[j]);
        }
        lemma_tlv_map_distinct(p);
        let last = l.last();
        assert(!tlv_map(p).contains_key(last.0)) by {
            if tlv_map(p).contains_key(last.0) {
                let i = choose|i: int| 0 <= i < p.len() && p[i].0 == last.0;
                assert(l[i].0 == l[l.len() - 1].0);
            }
        }
        assert forall|i: int| 0 <= i < l.len() implies #[trigger] tlv_map(l).contains_key(l[i].0) && tlv_map(l)[l[i].0]
            == l[i].1 by {
            if i < l.len() - 1 {
                assert(p[i] == l[i]);
                assert(l[i].0 != l[l.len() - 1].0);
            }
        }
        assert forall|t: u16| #[trigger] tlv_map(l).contains_key(t) implies exists|i: int| 0 <= i < l.len() && l[i].0 == t by {
            if t != last.0 {
                let i = choose|i: int| 0 <= i < p.len() && p[i].0 == t;
                assert(l[i] == p[i]);
            } else {
                assert(l[l.len() - 1].0 == t);
            }
        }
    }
}

/// The user block ("TLVUserInfo") several SNACs embed: a length-prefixed
/// screen name, a raw warning level, then a TLV count followed by exactly
/// that many TLVs.
#[derive(Debug, Clone)]
pub struct UserInfo {
    pub screen_name: String,
    pub warning_level: u16,
    pub tlvs: HashMap<u16, Vec<u8>>,
}

/// Whether `d` is long enough to hold a user block's fixed part.
pub open spec fn user_info_fits(d: Seq<u8>) -> bool {
    d.len() >= 1 && d.len() >= 1 + d[0] + 4
}

/// The raw screen-name bytes of the user block at the front of `d`.
pub open spec fn user_info_name_bytes(d: Seq<u8>) -> Seq<u8> {
    d.subrange(1, 1 + d[0] as int)
}

/// The warning level of the user block at the front of `d`.
pub open spec fn user_info_warning(d: Seq<u8>) -> u16 {
    be16_at(d, 1 + d[0] as int)
}

/// The TLV count of the user block at the front of `d`.
pub open spec fn user_info_tlv_count(d: Seq<u8>) -> u16 {
    be16_at(d, 3 + d[0] as int)
}

/// What follows the fixed part of the user block at the front of `d`.
pub open spec fn user_info_tail(d: Seq<u8>) -> Seq<u8> {
    d.skip(5 + d[0] as int)
}

/// The TLVs of the user block at the front of `d`.
pub open spec fn user_info_tlvs(d: Seq<u8>) -> Map<u16, Seq<u8>> {
    tlv_map(tlv_list(user_info_tail(d), user_info_tlv_count(d) as nat))
}

/// How many bytes the user block at the front of `d` spans.
pub open spec fn user_info_len(d: Seq<u8>) -> int {
    5 + d[0] as int + tlv_consumed(user_info_tail(d), user_info_tlv_count(d) as nat)
}

/// The bytes of a user block: the name's length, the name, the warning
/// level, the TLV count, then the TLVs.
pub open spec fn user_info_bytes(name: Seq<u8>, warning: u16, tlvs: Seq<(u16, Seq<u8>)>) -> Seq<u8> {
    seq![name.len() as u8] + name + be16_bytes(warning) + be16_bytes(tlvs.len() as u16) + tlvs_bytes(tlvs)
}

/// Reading a user block followed by any bytes gives the block's name,
/// warning level and TLV map, and spans exactly the block, whenever the
/// name fits its one-byte length, there are at most 65535 TLVs, and every
/// TLV value fits its 16-bit length.
pub proof fn lemma_user_info_roundtrip(name: Seq<u8>, warning: u16, tlvs: Seq<(u16, Seq<u8>)>, rest: Seq<u8>)
    requires
        name.len() <= 255,
        tlvs.len() <= 65535,
        tlv_values_fit(tlvs),
    ensures
        ({
            let b = user_info_bytes(name, warning, tlvs);
            let d = b + rest;
            &&& user_info_fits(d)
            &&& user_info_name_bytes(d) == name
            &&& user_info_warning(d) == warning
            &&& user_info_tlvs(d) == tlv_map(tlvs)
            &&& user_info_len(d) == b.len()
        }),
{
    let b = user_info_bytes(name, warning, tlvs);
    let d = b + rest;
    let n = name.len() as int;
    assert(d[0] == name.len() as u8);
    assert(d[0] as int == n);
    lemma_be16_roundtrip(warning);
    lemma_be16_roundtrip(tlvs.len() as u16);
    assert(d.subrange(1, 1 + n) =~= name);
    assert(d[1 + n] == be16_bytes(warning)[0] && d[2 + n] == be16_bytes(warning)[1]);
    assert(d[3 + n] == be16_bytes(tlvs.len() as u16)[0] && d[4 + n] == be16_bytes(tlvs.len() as u16)[1]);
    assert(user_info_tail(d) =~= tlvs_bytes(tlvs) + rest);
    lemma_tlvs_roundtrip(tlvs, rest, 0);
    assert(tlvs + tlv_list(rest, 0) =~= tlvs);
}

/// Reading back a flat block of encoded TLVs gives the map of those TLVs:
/// every type that occurs, with the value of its last occurrence.
pub proof fn lemma_tlv_block_roundtrip(l: Seq<(u16, Seq<u8>)>)
    requires
        tlv_values_fit(l),
        l.len() <= usize::MAX,
    ensures
        tlv_block_map(tlvs_bytes(l)) == tlv_map(l),
{
    lemma_tlv_block_ignores_incomplete_tail(l, seq![]);
    assert(tlvs_bytes(l) + seq![] =~= tlvs_bytes(l));
}

impl UserInfo {
    /// Parses one user block from the front of `data`, returning it and how
    /// many bytes it spans. `None` when `data` is too short for the name,
    /// the warning level and the TLV count.
    pub fn parse(data: &[u8]) -> (r: Option<(UserInfo, usize)>)
        ensures
            r is Some <==> user_info_fits(data@),
            r matches Some((info, n)) ==> {
                &&& info.screen_name@ == bytes_to_text(user_info_name_bytes(data@))
                &&& info.warning_level == user_info_warning(data@)
                &&& tlv_map_matches(info.tlvs@, user_info_tlvs(data@))
                &&& n == user_info_len(data@)
                &&& n <= data@.len()
            },
    {
        if data.len() < 1 {
            return None;
        }
        let name_len = data[0] as usize;
        if data.len() < 1 + name_len + 4 {
            return None;
        }
        let name_bytes = copy_range(data, 1, 1 + name_len);
        let screen_name = string_from_utf8_lossy(name_bytes.as_slice());
        let mut index: usize = 1 + name_len;
        let warning_level = read_be16(data, index);
        index = index + 2;
        let tlv_count = read_be16(data, index) as usize;
        index = index + 2;
        let rest = &data[index..data.len()];
        assert(rest@ =~= user_info_tail(data@));
        let (tlvs, consumed) = Tlv::parse_n(rest, tlv_count);
        index = index + consumed;
        Some((UserInfo { screen_name, warning_level, tlvs }, index))
    }
}

} // verus!
