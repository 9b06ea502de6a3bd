use oscar_rs::client::{roast_password, RequestIdCounter};
use oscar_rs::text::screen_names_match;

fn reference_roast(key: &[u8], password: &str) -> [u8; 16] {
    let password_digest = md5::compute(password.as_bytes()).0;
    let mut combined = Vec::new();
    combined.extend_from_slice(key);
    combined.extend_from_slice(&password_digest);
    combined.extend_from_slice(b"AOL Instant Messenger (SM)");
    md5::compute(&combined).0
}

#[test]
fn screen_names_match_ignores_case_and_whitespace() {
    assert!(screen_names_match("Catmints", "catmints"));
    assert!(screen_names_match("Screen Name", "screenname"));
    assert!(screen_names_match("SAME", "SAME"));
    assert!(!screen_names_match("Catmints", "Lyrix18"));
}

#[test]
fn screen_names_match_handles_unicode_whitespace_and_case() {
    assert!(screen_names_match("\u{00C9}T\u{00C9}\tname\u{3000}", "\u{00E9}t\u{00E9}name"));
    assert!(!screen_names_match("ab", "a"));
    assert!(screen_names_match("", "  "));
}

#[test]
fn roast_password_is_deterministic() {
    let key = b"some-challenge-bytes";
    let a = roast_password(key, "hunter2");
    let b = roast_password(key, "hunter2");
    assert_eq!(a, b);
}

#[test]
fn roast_password_changes_with_password() {
    let key = b"some-challenge-bytes";
    let a = roast_password(key, "hunter2");
    let b = roast_password(key, "different-password");
    assert_ne!(a, b);
}

#[test]
fn roast_password_changes_with_auth_key() {
    let a = roast_password(b"challenge-one", "hunter2");
    let b = roast_password(b"challenge-two", "hunter2");
    assert_ne!(a, b, "same password, different server challenge, must produce different hashes");
}

#[test]
fn roast_password_matches_hand_computed_reference() {
    let key = b"abc123";
    assert_eq!(roast_password(key, "hunter2"), reference_roast(key, "hunter2"));
}

#[test]
fn request_id_counter_increments_and_wraps() {
    let mut ids = RequestIdCounter(u32::MAX - 1);
    assert_eq!(ids.next(), u32::MAX);
    assert_eq!(ids.next(), 0);
}

#[test]
fn client_roast_password_is_deterministic() {
    let key = b"some-challenge-bytes";
    assert_eq!(roast_password(key, "hunter2"), roast_password(key, "hunter2"));
}

#[test]
fn client_roast_password_changes_with_password() {
    let key = b"some-challenge-bytes";
    assert_ne!(roast_password(key, "hunter2"), roast_password(key, "different-password"));
}

#[test]
fn client_roast_password_changes_with_auth_key() {
    let a = roast_password(b"challenge-one", "hunter2");
    let b = roast_password(b"challenge-two", "hunter2");
    assert_ne!(a, b, "same password, different server challenge, must produce different hashes");
}

#[test]
fn client_roast_password_matches_hand_computed_reference() {
    let key = b"abc123";
    let password_digest = md5::compute(b"hunter2").0;
    let mut combined = Vec::new();
    combined.extend_from_slice(key);
    combined.extend_from_slice(&password_digest);
    combined.extend_from_slice(b"AOL Instant Messenger (SM)");
    let expected = md5::compute(&combined).0;
    assert_eq!(roast_password(key, "hunter2"), expected);
}

#[test]
fn client_request_id_counter_increments_and_wraps() {
    let mut ids = RequestIdCounter(u32::MAX - 1);
    assert_eq!(ids.next(), u32::MAX);
    assert_eq!(ids.next(), 0);
}

#[test]
fn a_new_request_id_counter_starts_at_one() {
    let mut ids = RequestIdCounter::new();
    assert_eq!(ids.next(), 1);
    assert_eq!(ids.next(), 2);
}

#[test]
fn roast_password_of_an_empty_key_and_password_is_the_reference() {
    assert_eq!(roast_password(b"", ""), reference_roast(b"", ""));
}
