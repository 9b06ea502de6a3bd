//! Text handling: turning wire bytes into `String`s, and the canonical
//! (case- and whitespace-insensitive) comparison of screen names.

use vstd::prelude::*;
use vstd::utf8::{decode_utf8, valid_utf8};

verus! {

/// What `String::from_utf8_lossy` makes of `bytes`: the decoded text, with
/// each invalid sequence replaced by U+FFFD.
pub uninterp spec fn utf8_lossy(bytes: Seq<u8>) -> Seq<char>;

/// The text a byte string stands for: the decoded characters when the
/// bytes are valid UTF-8, else what the lossy decoding makes of them.
pub open spec fn bytes_to_text(bytes: Seq<u8>) -> Seq<char> {
    if valid_utf8(bytes) {
        decode_utf8(bytes)
    } else {
        utf8_lossy(bytes)
    }
}

/// Calls `String::from_utf8_lossy`. Claimed: the result is `utf8_lossy` of
/// the bytes, and on valid UTF-8 it is exactly the decoded text (std's
/// documentation: invalid sequences are the only thing it replaces).
#[verifier::external_body]
pub(crate) fn string_from_utf8_lossy(bytes: &[u8]) -> (s: String)
    ensures
        s@ == utf8_lossy(bytes@),
        valid_utf8(bytes@) ==> s@ == decode_utf8(bytes@),
        s@ == bytes_to_text(bytes@),
{
    String::from_utf8_lossy(bytes).to_string()
}


/// Unicode's White_Space property, which `char::is_whitespace` tests.
pub open spec fn is_unicode_whitespace(c: char) -> bool {
    let u = c as u32;
    ||| 0x09 <= u <= 0x0D
    ||| u == 0x20
    ||| u == 0x85
    ||| u == 0xA0
    ||| u == 0x1680
    ||| 0x2000 <= u <= 0x200A
    ||| u == 0x2028
    ||| u == 0x2029
    ||| u == 0x202F
    ||| u == 0x205F
    ||| u == 0x3000
}

/// Whether `c` is whitespace: the characters with Unicode's White_Space
/// property, as `char::is_whitespace` decides.
pub fn char_is_whitespace(c: char) -> (r: bool)
    ensures
        r == is_unicode_whitespace(c),
{
    let u = c as u32;
    (0x09 <= u && u <= 0x0D) || u == 0x20 || u == 0x85 || u == 0xA0 || u == 0x1680 || (0x2000 <= u && u <= 0x200A)
        || u == 0x2028 || u == 0x2029 || u == 0x202F || u == 0x205F || u == 0x3000
}

/// What `char::to_lowercase` yields for `c`: its Unicode lowercase
/// mapping, one or more characters.
pub uninterp spec fn unicode_lowercase(c: char) -> Seq<char>;

/// `c` with an ASCII capital letter replaced by its small letter.
pub open spec fn ascii_lower(c: char) -> char {
    if 'A' <= c <= 'Z' {
        ((c as u32) + 32) as char
    } else {
        c
    }
}

/// The lowercase mapping of `c`: for an ASCII character the single
/// character `ascii_lower(c)` (Unicode maps each ASCII capital to its small
/// letter and leaves every other ASCII character alone), else
/// `unicode_lowercase(c)`.
pub open spec fn lowercase_of(c: char) -> Seq<char> {
    if (c as u32) < 128 {
        seq![ascii_lower(c)]
    } else {
        unicode_lowercase(c)
    }
}

/// Calls `char::to_lowercase` and collects what it yields. Claimed: the
/// result is `lowercase_of(c)`: for ASCII the one-to-one mapping that std's
/// documentation describes (a capital letter's small letter, otherwise the
/// character itself), else `unicode_lowercase(c)`, of which nothing more
/// is stated.
#[verifier::external_body]
pub(crate) fn char_lowercase(c: char) -> (r: Vec<char>)
    ensures
        r@ == lowercase_of(c),
        (c as u32) >= 128 ==> r@ == unicode_lowercase(c),
{
    c.to_lowercase().collect()
}

/// Calls `String::push`: appends one character.
#[verifier::external_body]
pub(crate) fn string_push(s: &mut String, c: char)
    ensures
        final(s)@ == old(s)@.push(c),
{
    s.push(c)
}

/// A copy of `s`.
pub(crate) fn clone_string(s: &String) -> (r: String)
    ensures
        r@ == s@,
{
    s.clone()
}

/// The characters of `s`, in order.
pub fn str_chars(s: &str) -> (r: Vec<char>)
    ensures
        r@ == s@,
{
    let mut r: Vec<char> = Vec::new();
    for c in it: s.chars()
        invariant
            it.seq() == s@,
            r@ == it.seq().take(it.index()),
    {
        r.push(c);
        assert(it.seq().take(it.index() + 1) =~= it.seq().take(it.index()).push(c));
    }
    assert(s@.take(s@.len() as int) =~= s@);
    r
}

/// A `String` holding the characters `cs`.
pub fn string_from_chars(cs: &[char]) -> (r: String)
    ensures
        r@ == cs@,
{
    let mut r = String::new();
    let mut i: usize = 0;
    while i < cs.len()
        invariant
            i <= cs@.len(),
            r@ == cs@.take(i as int),
        decreases cs@.len() - i,
    {
        string_push(&mut r, cs[i]);
        i = i + 1;
        assert(cs@.take(i as int) =~= cs@.take(i - 1).push(cs@[i - 1]));
    }
    assert(cs@.take(cs@.len() as int) =~= cs@);
    r
}

/// The canonical form of a screen name: whitespace dropped, every other
/// character replaced by its lowercase mapping.
pub open spec fn normalize_screen_name(s: Seq<char>) -> Seq<char>
    decreases s.len(),
{
    if s.len() == 0 {
        seq![]
    } else if is_unicode_whitespace(s.last()) {
        normalize_screen_name(s.drop_last())
    } else {
        normalize_screen_name(s.drop_last()) + lowercase_of(s.last())
    }
}

/// Screen names are case- and whitespace-insensitive: two names are the
/// same name when their canonical forms agree.
pub open spec fn same_screen_name(a: Seq<char>, b: Seq<char>) -> bool {
    normalize_screen_name(a) == normalize_screen_name(b)
}

fn normalize(s: &str) -> (r: Vec<char>)
    ensures
        r@ == normalize_screen_name(s@),
{
    let cs = str_chars(s);
    let mut r: Vec<char> = Vec::new();
    let mut i: usize = 0;
    while i < cs.len()
        invariant
            cs@ == s@,
            i <= cs@.len(),
            r@ == normalize_screen_name(cs@.take(i as int)),
        decreases cs@.len() - i,
    {
        let c = cs[i];
        assert(cs@.take(i + 1).drop_last() =~= cs@.take(i as int));
        if !char_is_whitespace(c) {
            let lower = char_lowercase(c);
            let mut j: usize = 0;
            let ghost before = r@;
            while j < lower.len()
                invariant
                    j <= lower@.len(),
                    r@ == before + lower@.take(j as int),
                decreases lower@.len() - j,
            {
                r.push(lower[j]);
                j = j + 1;
                assert(lower@.take(j as int) =~= lower@.take(j - 1).push(lower@[j - 1]));
            }
            assert(lower@.take(lower@.len() as int) =~= lower@);
        }
        i = i + 1;
    }
    assert(cs@.take(cs@.len() as int) =~= cs@);
    r
}

fn chars_equal(a: &[char], b: &[char]) -> (r: bool)
    ensures
        r == (a@ == b@),
{
    if a.len() != b.len() {
        return false;
    }
    let mut i: usize = 0;
    while i < a.len()
        invariant
            a@.len() == b@.len(),
            i <= a@.len(),
            forall|k: int| 0 <= k < i ==> a@[k] == b@[k],
        decreases a@.len() - i,
    {
        if a[i] != b[i] {
            return false;
        }
        i = i + 1;
    }
    assert(a@ =~= b@);
    true
}

/// Whether `a` and `b` name the same user: equal once whitespace is
/// dropped and letters are lowercased.
pub fn screen_names_match(a: &str, b: &str) -> (r: bool)
    ensures
        r == same_screen_name(a@, b@),
{
    let na = normalize(a);
    let nb = normalize(b);
    chars_equal(na.as_slice(), nb.as_slice())
}

/// Every name matches itself.
pub proof fn lemma_screen_names_match_reflexive(a: Seq<char>)
    ensures
        same_screen_name(a, a),
{
}

/// Matching does not depend on the order of the two names.
pub proof fn lemma_screen_names_match_symmetric(a: Seq<char>, b: Seq<char>)
    ensures
        same_screen_name(a, b) == same_screen_name(b, a),
{
}

/// Two names that match a third match each other.
pub proof fn lemma_screen_names_match_transitive(a: Seq<char>, b: Seq<char>, c: Seq<char>)
    requires
        same_screen_name(a, b),
        same_screen_name(b, c),
    ensures
        same_screen_name(a, c),
{
}

/// Adding whitespace anywhere in a name does not change which names it
/// matches.
pub proof fn lemma_screen_name_ignores_whitespace(a: Seq<char>, b: Seq<char>, w: char)
    requires
        is_unicode_whitespace(w),
    ensures
        normalize_screen_name(a + seq![w] + b) == normalize_screen_name(a + b),
    decreases b.len(),
{
    if b.len() == 0 {
        assert((a + seq![w] + b).drop_last() =~= a);
        assert(a + b =~= a);
    } else {
        lemma_screen_name_ignores_whitespace(a, b.drop_last(), w);
        assert((a + seq![w] + b).drop_last() =~= a + seq![w] + b.drop_last());
        assert((a + b).drop_last() =~= a + b.drop_last());
        assert((a + seq![w] + b).last() == b.last());
        assert((a + b).last() == b.last());
    }
}

/// Two ASCII names of the same length that differ only in the case of
/// their letters match.
pub proof fn lemma_screen_names_ignore_ascii_case(a: Seq<char>, b: Seq<char>)
    requires
        a.len() == b.len(),
        forall|i: int| 0 <= i < a.len() ==> (#[trigger] a[i] as u32) < 128 && (b[i] as u32) < 128,
        forall|i: int| 0 <= i < a.len() ==> ascii_lower(#[trigger] a[i]) == ascii_lower(b[i]),
    ensures
        same_screen_name(a, b),
    decreases a.len(),
{
    if a.len() > 0 {
        let n = a.len() - 1;
        assert(a.drop_last().len() == b.drop_last().len());
        assert forall|i: int| 0 <= i < a.drop_last().len() implies (#[trigger] a.drop_last()[i] as u32) < 128
            && (b.drop_last()[i] as u32) < 128 by {
            assert(a.drop_last()[i] == a[i] && b.drop_last()[i] == b[i]);
        }
        assert forall|i: int| 0 <= i < a.drop_last().len() implies ascii_lower(#[trigger] a.drop_last()[i])
            == ascii_lower(b.drop_last()[i]) by {
            assert(a.drop_last()[i] == a[i] && b.drop_last()[i] == b[i]);
        }
        lemma_screen_names_ignore_ascii_case(a.drop_last(), b.drop_last());
        assert(a.last() == a[n] && b.last() == b[n]);
        assert((a[n] as u32) < 128 && (b[n] as u32) < 128);
        assert(ascii_lower(a[n]) == ascii_lower(b[n]));
        assert(is_unicode_whitespace(a[n]) == is_unicode_whitespace(b[n])) by {
            assert(is_unicode_whitespace(a[n]) ==> a[n] == ascii_lower(a[n]));
            assert(is_unicode_whitespace(b[n]) ==> b[n] == ascii_lower(b[n]));
        }
    }
}

/// The decimal digits of `n`, as `Display` writes them.
pub open spec fn decimal_digits(n: nat) -> Seq<char>
    decreases n,
{
    if n < 10 {
        seq![('0' as nat + n) as char]
    } else {
        decimal_digits(n / 10) + seq![('0' as nat + n % 10) as char]
    }
}

/// Appends the decimal digits of `n` to `out`.
pub fn push_decimal(out: &mut Vec<char>, n: u32)
    ensures
        final(out)@ == old(out)@ + decimal_digits(n as nat),
    decreases n,
{
    if n >= 10 {
        push_decimal(out, n / 10);
    }
    let d = (n % 10) as u8;
    out.push((('0' as u8) + d) as char);
    assert(('0' as nat + (n % 10) as nat) as char == ((('0' as u8) + d) as char));
}

/// The decimal text of `n`.
pub fn decimal_string(n: u32) -> (r: String)
    ensures
        r@ == decimal_digits(n as nat),
{
    let mut out: Vec<char> = Vec::new();
    push_decimal(&mut out, n);
    assert(out@ =~= decimal_digits(n as nat));
    string_from_chars(out.as_slice())
}

} // verus!
