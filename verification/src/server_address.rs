//! Server addresses as a user types them: `host`, `host:port`, optionally
//! behind an `oscar://` or `aim://` scheme and with a trailing slash.

use vstd::prelude::*;

use crate::text::{
    char_is_whitespace, decimal_digits, is_unicode_whitespace, push_decimal, str_chars, string_from_chars,
};

verus! {

#[derive(Debug, Clone, PartialEq, Eq)]
pub struct ServerAddress {
    pub host: String,
    pub port: u16,
}

#[derive(Debug, PartialEq, Eq)]
pub enum ServerAddressError {
    /// The input is empty once surrounding whitespace is removed.
    Empty,
    /// The text after the last `:` is not a port number.
    InvalidPort(String),
}

// Spec model of the parse.

/// `s` without its leading whitespace.
pub open spec fn trim_start_ws(s: Seq<char>) -> Seq<char>
    decreases s.len(),
{
    if s.len() > 0 && is_unicode_whitespace(s[0]) {
        trim_start_ws(s.drop_first())
    } else {
        s
    }
}

/// `s` without its trailing characters satisfying `strip`.
pub open spec fn trim_end_by(s: Seq<char>, strip: spec_fn(char) -> bool) -> Seq<char>
    decreases s.len(),
{
    if s.len() > 0 && strip(s.last()) {
        trim_end_by(s.drop_last(), strip)
    } else {
        s
    }
}

/// `s` without leading and trailing whitespace, as `str::trim` gives it.
pub open spec fn trim_ws(s: Seq<char>) -> Seq<char> {
    trim_end_by(trim_start_ws(s), |c: char| is_unicode_whitespace(c))
}

pub open spec fn oscar_scheme() -> Seq<char> {
    seq!['o', 's', 'c', 'a', 'r', ':', '/', '/']
}

pub open spec fn aim_scheme() -> Seq<char> {
    seq!['a', 'i', 'm', ':', '/', '/']
}

/// `s` without the prefix `p`, when it starts with it.
pub open spec fn strip_prefix(s: Seq<char>, p: Seq<char>) -> Option<Seq<char>> {
    if s.len() >= p.len() && s.take(p.len() as int) == p {
        Some(s.skip(p.len() as int))
    } else {
        None
    }
}

/// `s` without an `oscar://` or else an `aim://` prefix.
pub open spec fn strip_scheme(s: Seq<char>) -> Seq<char> {
    match strip_prefix(s, oscar_scheme()) {
        Some(r) => r,
        None => match strip_prefix(s, aim_scheme()) {
            Some(r) => r,
            None => s,
        },
    }
}

/// The position of the last `c` in `s`, if any.
pub open spec fn last_index_of(s: Seq<char>, c: char) -> Option<int>
    decreases s.len(),
{
    if s.len() == 0 {
        None
    } else if s.last() == c {
        Some(s.len() - 1)
    } else {
        last_index_of(s.drop_last(), c)
    }
}

pub open spec fn is_ascii_digit(c: char) -> bool {
    '0' <= c <= '9'
}

/// The value of a run of decimal digits.
pub open spec fn digits_value(s: Seq<char>) -> nat
    decreases s.len(),
{
    if s.len() == 0 {
        0
    } else {
        digits_value(s.drop_last()) * 10 + (s.last() as nat - '0' as nat) as nat
    }
}

pub open spec fn all_digits(s: Seq<char>) -> bool {
    forall|i: int| 0 <= i < s.len() ==> #[trigger] is_ascii_digit(s[i])
}

/// What `str::parse::<u16>` accepts: an optional `+`, then one or more
/// ASCII digits whose value fits in 16 bits.
pub open spec fn parse_u16_spec(s: Seq<char>) -> Option<u16> {
    let d = if s.len() > 0 && s[0] == '+' {
        s.drop_first()
    } else {
        s
    };
    if d.len() > 0 && all_digits(d) && digits_value(d) <= 65535 {
        Some(digits_value(d) as u16)
    } else {
        None
    }
}

/// The outcome `ServerAddress::parse` has on `input`: the host and port,
/// or the error (for an invalid port, the text that failed).
pub open spec fn server_address_spec(input: Seq<char>) -> Result<(Seq<char>, u16), Option<Seq<char>>> {
    let t = trim_ws(input);
    if t.len() == 0 {
        Err(None)
    } else {
        let w = trim_end_by(strip_scheme(t), |c: char| c == '/');
        match last_index_of(w, ':') {
            Some(k) if k > 0 => match parse_u16_spec(w.skip(k + 1)) {
                Some(p) => Ok((w.take(k), p)),
                None => Err(Some(w.skip(k + 1))),
            },
            _ => Ok((w, 5190u16)),
        }
    }
}

/// `host:port`, as the address is displayed.
pub open spec fn address_text(host: Seq<char>, port: u16) -> Seq<char> {
    host + seq![':'] + decimal_digits(port as nat)
}

/// The decimal digits of `n` are a non-empty run of ASCII digits whose
/// value is `n`.
pub proof fn lemma_decimal_digits(n: nat)
    ensures
        decimal_digits(n).len() > 0,
        all_digits(decimal_digits(n)),
        digits_value(decimal_digits(n)) == n,
    decreases n,
{
    let d = decimal_digits(n);
    let c = ('0' as nat + n % 10) as char;
    assert(c as nat == '0' as nat + n % 10);
    if n < 10 {
        assert(d.drop_last() =~= seq![]);
        assert(digits_value(d.drop_last()) == 0);
        assert(d.last() == c);
        assert(digits_value(d) == (c as nat - '0' as nat) as nat);
    } else {
        lemma_decimal_digits(n / 10);
        let p = decimal_digits(n / 10);
        assert(d.drop_last() =~= p);
        assert(d.last() == c);
        assert(digits_value(d) == digits_value(p) * 10 + (c as nat - '0' as nat) as nat);
        assert((n / 10) * 10 + n % 10 == n);
        assert forall|i: int| 0 <= i < d.len() implies #[trigger] is_ascii_digit(d[i]) by {
            if i < p.len() {
                assert(d[i] == p[i]);
            }
        }
    }
}

/// In `a + [c] + b`, where `b` holds no `c`, the last `c` is the one after `a`.
proof fn lemma_last_index_after(a: Seq<char>, c: char, b: Seq<char>)
    requires
        forall|i: int| 0 <= i < b.len() ==> b[i] != c,
    ensures
        last_index_of(a + seq![c] + b, c) == Some(a.len() as int),
    decreases b.len(),
{
    if b.len() == 0 {
        assert(a + seq![c] + b =~= a.push(c));
    } else {
        lemma_last_index_after(a, c, b.drop_last());
        assert((a + seq![c] + b).drop_last() =~= a + seq![c] + b.drop_last());
        assert((a + seq![c] + b).last() == b.last());
    }
}

/// Parsing an address's displayed text gives the address back, unless the
/// host is empty, starts with whitespace, or the text starts with one of
/// the accepted schemes (which parsing would strip).
pub proof fn lemma_server_address_display_roundtrip(host: Seq<char>, port: u16)
    requires
        host.len() > 0,
        !is_unicode_whitespace(host[0]),
        strip_prefix(address_text(host, port), oscar_scheme()) is None,
        strip_prefix(address_text(host, port), aim_scheme()) is None,
    ensures
        server_address_spec(address_text(host, port)) == Ok::<(Seq<char>, u16), Option<Seq<char>>>((host, port)),
{
    let digits = decimal_digits(port as nat);
    lemma_decimal_digits(port as nat);
    let t = address_text(host, port);
    assert(t[0] == host[0]);
    assert(trim_start_ws(t) == t);
    assert(is_ascii_digit(digits[digits.len() - 1]));
    assert(t.last() == digits.last());
    assert(trim_ws(t) == t);
    assert(strip_scheme(t) == t);
    assert(trim_end_by(t, |c: char| c == '/') == t);
    assert forall|i: int| 0 <= i < digits.len() implies digits[i] != ':' by {
        assert(is_ascii_digit(digits[i]));
    }
    lemma_last_index_after(host, ':', digits);
    assert(t.skip(host.len() as int + 1) =~= digits);
    assert(t.take(host.len() as int) =~= host);
    assert(digits[0] != '+') by {
        assert(is_ascii_digit(digits[0]));
    }
    assert(parse_u16_spec(digits) == Some(port));
}

// Executable pieces.

fn trim_whitespace(s: &[char]) -> (r: Vec<char>)
    ensures
        r@ == trim_ws(s@),
{
    let mut i: usize = 0;
    assert(s@.skip(0) =~= s@);
    while i < s.len() && char_is_whitespace(s[i])
        invariant
            i <= s@.len(),
            trim_start_ws(s@) == trim_start_ws(s@.skip(i as int)),
        decreases s@.len() - i,
    {
        assert(s@.skip(i as int).drop_first() =~= s@.skip(i + 1));
        i = i + 1;
    }
    let ghost a = s@.skip(i as int);
    assert(trim_start_ws(a) == a);
    let mut j: usize = s.len();
    while j > i && char_is_whitespace(s[j - 1])
        invariant
            i <= j <= s@.len(),
            trim_end_by(a, |c: char| is_unicode_whitespace(c)) == trim_end_by(
                s@.subrange(i as int, j as int),
                |c: char| is_unicode_whitespace(c),
            ),
        decreases j,
    {
        assert(s@.subrange(i as int, j as int).drop_last() =~= s@.subrange(i as int, j - 1));
        j = j - 1;
    }
    assert(a =~= s@.subrange(i as int, s@.len() as int));
    let mut r: Vec<char> = Vec::new();
    let mut k: usize = i;
    while k < j
        invariant
            i <= k <= j <= s@.len(),
            r@ == s@.subrange(i as int, k as int),
        decreases j - k,
    {
        r.push(s[k]);
        k = k + 1;
        assert(s@.subrange(i as int, k as int) =~= s@.subrange(i as int, k - 1).push(s@[k - 1]));
    }
    r
}

fn has_prefix(s: &[char], p: &[char]) -> (r: bool)
    ensures
        r == (s@.len() >= p@.len() && s@.take(p@.len() as int) == p@),
{
    if s.len() < p.len() {
        return false;
    }
    let mut i: usize = 0;
    while i < p.len()
        invariant
            p@.len() <= s@.len(),
            i <= p@.len(),
            forall|k: int| 0 <= k < i ==> s@[k] == p@[k],
        decreases p@.len() - i,
    {
        if s[i] != p[i] {
            assert(s@.take(p@.len() as int)[i as int] != p@[i as int]);
            return false;
        }
        i = i + 1;
    }
    assert(s@.take(p@.len() as int) =~= p@);
    true
}

fn sub_chars(s: &[char], start: usize, end: usize) -> (r: Vec<char>)
    requires
        start <= end <= s@.len(),
    ensures
        r@ == s@.subrange(start as int, end as int),
{
    let mut r: Vec<char> = Vec::new();
    let mut k: usize = start;
    while k < end
        invariant
            start <= k <= end <= s@.len(),
            r@ == s@.subrange(start as int, k as int),
        decreases end - k,
    {
        r.push(s[k]);
        k = k + 1;
        assert(s@.subrange(start as int, k as int) =~= s@.subrange(start as int, k - 1).push(s@[k - 1]));
    }
    r
}

/// A run of digits only grows in value as digits are appended.
proof fn lemma_digits_value_prefix(s: Seq<char>, n: int)
    requires
        0 <= n <= s.len(),
        all_digits(s),
    ensures
        digits_value(s.take(n)) <= digits_value(s),
    decreases s.len() - n,
{
    if n < s.len() {
        lemma_digits_value_prefix(s, n + 1);
        let t = s.take(n + 1);
        assert(t.drop_last() =~= s.take(n));
        assert(is_ascii_digit(s[n]));
        assert(t.last() == s[n]);
        assert(digits_value(t) == digits_value(s.take(n)) * 10 + (s[n] as nat - '0' as nat) as nat);
    } else {
        assert(s.take(n) =~= s);
    }
}

fn parse_u16_chars(s: &[char]) -> (r: Option<u16>)
    ensures
        r == parse_u16_spec(s@),
{
    let mut start: usize = 0;
    if s.len() > 0 && s[0] == '+' {
        start = 1;
    }
    let ghost d = if s@.len() > 0 && s@[0] == '+' {
        s@.drop_first()
    } else {
        s@
    };
    assert(d =~= s@.skip(start as int));
    if start >= s.len() {
        return None;
    }
    let mut value: u32 = 0;
    let mut i: usize = start;
    while i < s.len()
        invariant
            d == s@.skip(start as int),
            d == (if s@.len() > 0 && s@[0] == '+' {
                s@.drop_first()
            } else {
                s@
            }),
            start < s@.len(),
            start <= i <= s@.len(),
            all_digits(d.take(i - start)),
            value == digits_value(d.take(i - start)),
            value <= 65535,
        decreases s@.len() - i,
    {
        let c = s[i];
        if !('0' <= c && c <= '9') {
            assert(d[i - start] == c);
            assert(!is_ascii_digit(d[i - start]));
            assert(!all_digits(d));
            assert(parse_u16_spec(s@) is None);
            return None;
        }
        proof {
            assert(d.take(i - start + 1).drop_last() =~= d.take(i - start));
            assert(d.take(i - start + 1).last() == c);
            assert forall|k: int| 0 <= k < i - start + 1 implies #[trigger] is_ascii_digit(d.take(i - start + 1)[k]) by {
                if k < i - start {
                    assert(d.take(i - start + 1)[k] == d.take(i - start)[k]);
                }
            }
        }
        let digit = (c as u32) - ('0' as u32);
        value = value * 10 + digit;
        i = i + 1;
        assert(value == digits_value(d.take(i - start)));
        if value > 65535 {
            proof {
                if all_digits(d) {
                    lemma_digits_value_prefix(d, i - start);
                    assert(digits_value(d) > 65535);
                }
                assert(parse_u16_spec(s@) is None);
            }
            return None;
        }
    }
    assert(d.take(d.len() as int) =~= d);
    Some(value as u16)
}

/// The position of the last `:` in `s`, if any.
fn last_colon(s: &[char]) -> (r: Option<usize>)
    ensures
        r matches Some(k) ==> last_index_of(s@, ':') == Some(k as int) && k < s@.len(),
        r is None ==> last_index_of(s@, ':') is None,
{
    let mut j: usize = s.len();
    assert(s@.take(j as int) =~= s@);
    while j > 0
        invariant
            j <= s@.len(),
            last_index_of(s@, ':') == last_index_of(s@.take(j as int), ':'),
        decreases j,
    {
        assert(s@.take(j as int).drop_last() =~= s@.take(j - 1));
        if s[j - 1] == ':' {
            return Some(j - 1);
        }
        j = j - 1;
    }
    None
}

fn strip_scheme_and_slashes(t: &[char]) -> (w: Vec<char>)
    ensures
        w@ == trim_end_by(strip_scheme(t@), |c: char| c == '/'),
{
    let oscar = ['o', 's', 'c', 'a', 'r', ':', '/', '/'];
    let aim = ['a', 'i', 'm', ':', '/', '/'];
    assert(oscar@ =~= oscar_scheme());
    assert(aim@ =~= aim_scheme());
    let without_scheme = if has_prefix(t, &oscar) {
        sub_chars(t, 8, t.len())
    } else if has_prefix(t, &aim) {
        sub_chars(t, 6, t.len())
    } else {
        sub_chars(t, 0, t.len())
    };
    assert(t@.subrange(0, t@.len() as int) =~= t@);
    assert(without_scheme@ == strip_scheme(t@));
    let mut end: usize = without_scheme.len();
    assert(without_scheme@.take(end as int) =~= without_scheme@);
    while end > 0 && without_scheme[end - 1] == '/'
        invariant
            end <= without_scheme@.len(),
            trim_end_by(without_scheme@, |c: char| c == '/') == trim_end_by(
                without_scheme@.take(end as int),
                |c: char| c == '/',
            ),
        decreases end,
    {
        assert(without_scheme@.take(end as int).drop_last() =~= without_scheme@.take(end - 1));
        end = end - 1;
    }
    let w = sub_chars(without_scheme.as_slice(), 0, end);
    assert(w@ =~= without_scheme@.take(end as int));
    w
}

impl ServerAddress {
    /// OSCAR's traditional port.
    pub const DEFAULT_PORT: u16 = 5190;

    /// Parses user-entered server input: surrounding whitespace is
    /// ignored, an `oscar://` or `aim://` scheme and trailing slashes are
    /// dropped, and the text after the last `:` (when something precedes
    /// it) is the port; without one the port is `DEFAULT_PORT`.
    pub fn parse(input: &str) -> (r: Result<ServerAddress, ServerAddressError>)
        ensures
            match server_address_spec(input@) {
                Ok((host, port)) => r matches Ok(a) && a.host@ == host && a.port == port,
                Err(None) => r == Err::<ServerAddress, ServerAddressError>(ServerAddressError::Empty),
                Err(Some(p)) => r matches Err(ServerAddressError::InvalidPort(t)) && t@ == p,
            },
    {
        let chars = str_chars(input);
        let trimmed = trim_whitespace(chars.as_slice());
        if trimmed.len() == 0 {
            return Err(ServerAddressError::Empty);
        }
        let w = strip_scheme_and_slashes(trimmed.as_slice());
        match last_colon(w.as_slice()) {
            Some(k) if k > 0 => {
                let port_chars = sub_chars(w.as_slice(), k + 1, w.len());
                assert(port_chars@ =~= w@.skip(k + 1));
                let host_chars = sub_chars(w.as_slice(), 0, k);
                assert(host_chars@ =~= w@.take(k as int));
                match parse_u16_chars(port_chars.as_slice()) {
                    Some(port) => Ok(ServerAddress { host: string_from_chars(host_chars.as_slice()), port }),
                    None => Err(ServerAddressError::InvalidPort(string_from_chars(port_chars.as_slice()))),
                }
            },
            _ => Ok(ServerAddress { host: string_from_chars(w.as_slice()), port: Self::DEFAULT_PORT }),
        }
    }

    /// The address as `host:port`.
    pub fn to_string(&self) -> (r: String)
        ensures
            r@ == address_text(self.host@, self.port),
    {
        let mut out = str_chars(self.host.as_str());
        out.push(':');
        push_decimal(&mut out, self.port as u32);
        string_from_chars(out.as_slice())
    }
}

} // verus!
