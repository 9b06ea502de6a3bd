//! Session-wide pieces: the error type, request ids, the password hash the
//! login exchange sends, and reading a service redirect (address and
//! cookie) out of a reply.

use std::collections::HashMap;

use vstd::prelude::*;
use vstd::utf8::encode_utf8;

use crate::bytes::push_all;
use crate::server_address::{server_address_spec, ServerAddress};
use crate::snac::tlv_map_matches;
use crate::text::{bytes_to_text, string_from_utf8_lossy};

verus! {

broadcast use vstd::std_specs::hash::group_hash_axioms;

#[verifier::external_type_specification]
#[verifier::external_body]
pub struct ExIoError(std::io::Error);

#[derive(Debug)]
pub enum OscarError {
    /// A network error.
    Io(std::io::Error),
    /// The connection closed while waiting for the named step.
    ConnectionClosed(&'static str),
    /// The server sent something unexpected or malformed.
    UnexpectedResponse(&'static str),
    /// The server rejected the login.
    LoginFailed(String),
}

/// Monotonic counter for SNAC request ids, wrapping around after `u32::MAX`.
pub struct RequestIdCounter(pub u32);

impl RequestIdCounter {
    pub fn new() -> (r: RequestIdCounter)
        ensures
            r.0 == 0,
    {
        RequestIdCounter(0)
    }

    /// Advances the counter and returns its new value.
    pub fn next(&mut self) -> (r: u32)
        ensures
            r == (old(self).0 + 1) % 0x1_0000_0000,
            final(self).0 == r,
    {
        self.0 = if self.0 == u32::MAX {
            0
        } else {
            self.0 + 1
        };
        self.0
    }
}

/// What `md5::compute` returns for `data`: its MD5 digest.
pub uninterp spec fn md5_digest(data: Seq<u8>) -> Seq<u8>;

/// Calls `md5::compute`. Claimed: the 16 returned bytes are
/// `md5_digest(data)`; nothing is stated of the digest itself.
#[verifier::external_body]
fn md5_compute(data: &[u8]) -> (r: [u8; 16])
    ensures
        r@ == md5_digest(data@),
{
    md5::compute(data).0
}

/// The client identifier mixed into the password hash:
/// "AOL Instant Messenger (SM)".
pub open spec fn aim_id_bytes() -> Seq<u8> {
    seq![
        0x41, 0x4F, 0x4C, 0x20, 0x49, 0x6E, 0x73, 0x74, 0x61, 0x6E, 0x74, 0x20, 0x4D,
        0x65, 0x73, 0x73, 0x65, 0x6E, 0x67, 0x65, 0x72, 0x20, 0x28, 0x53, 0x4D, 0x29,
    ]
}

/// The password hash the login request carries:
/// MD5(auth key + MD5(password) + "AOL Instant Messenger (SM)").
pub open spec fn roasted_password(auth_key: Seq<u8>, password: Seq<char>) -> Seq<u8> {
    md5_digest(auth_key + md5_digest(encode_utf8(password)) + aim_id_bytes())
}

/// The chained MD5 of the server's challenge, the MD5 of the password and
/// the fixed client identifier.
pub fn roast_password(auth_key: &[u8], password: &str) -> (r: [u8; 16])
    ensures
        r@ == roasted_password(auth_key@, password@),
{
    let password_digest = md5_compute(password.as_bytes());
    let aim_id: [u8; 26] = [
        0x41, 0x4F, 0x4C, 0x20, 0x49, 0x6E, 0x73, 0x74, 0x61, 0x6E, 0x74, 0x20, 0x4D,
        0x65, 0x73, 0x73, 0x65, 0x6E, 0x67, 0x65, 0x72, 0x20, 0x28, 0x53, 0x4D, 0x29,
    ];
    let mut combined: Vec<u8> = Vec::new();
    push_all(&mut combined, auth_key);
    push_all(&mut combined, &password_digest);
    push_all(&mut combined, &aim_id);
    assert(aim_id@ =~= aim_id_bytes());
    md5_compute(combined.as_slice())
}

/// What `parse_redirect_address_and_cookie` makes of a TLV map: the
/// address text and cookie when TLV 0x05 and 0x06 are both there and the
/// address parses.
pub open spec fn redirect_of(m: Map<u16, Seq<u8>>) -> Option<(Seq<char>, u16, Seq<u8>)> {
    if !m.contains_key(0x05) || !m.contains_key(0x06) {
        None
    } else {
        match server_address_spec(bytes_to_text(m[0x05])) {
            Ok((host, port)) => Some((host, port, m[0x06])),
            Err(_) => None,
        }
    }
}

/// Reads a service redirect: TLV 0x05 (target address) and TLV 0x06
/// (handoff cookie), as every redirect reply carries them.
pub fn parse_redirect_address_and_cookie(tlvs: &HashMap<u16, Vec<u8>>) -> (r: Result<
    (ServerAddress, Vec<u8>),
    OscarError,
>)
    ensures
        ({
            let m = tlvs@.map_values(|v: Vec<u8>| v@);
            match redirect_of(m) {
                Some((host, port, cookie)) => r matches Ok((a, c)) && a.host@ == host && a.port == port
                    && c@ == cookie,
                None => r matches Err(OscarError::UnexpectedResponse(_)),
            }
        }),
{
    let address_bytes = match tlvs.get(&0x05) {
        Some(b) => b,
        None => return Err(OscarError::UnexpectedResponse("missing redirect address (TLV 0x05)")),
    };
    let cookie_bytes = match tlvs.get(&0x06) {
        Some(c) => c,
        None => return Err(OscarError::UnexpectedResponse("missing redirect cookie (TLV 0x06)")),
    };
    let cookie = crate::bytes::copy_range(cookie_bytes.as_slice(), 0, cookie_bytes.len());
    let address_str = string_from_utf8_lossy(address_bytes.as_slice());
    match ServerAddress::parse(address_str.as_str()) {
        Ok(address) => Ok((address, cookie)),
        Err(_) => Err(OscarError::UnexpectedResponse("server sent an unparseable redirect address")),
    }
}

} // verus!
