use book_auth::auth::{begin_authentication, complete_authentication, AuthStep};
use book_auth::cache::AuthCache;
use book_auth::extract::{extract_credentials, extract_token_auth, Credentials};

const ALICE_HASH: &str =
    "pbkdf2:sha256:600000$hQdi8AMq$813059eab6f37215457e25c289b5ba811564b1b65c1a86f747391d7fc4ab092a";

fn creds(u: &str, p: &str) -> Credentials {
    Credentials { username: u.to_string(), password: p.to_string() }
}

#[test]
fn end_to_end_slow_then_fast_path() {
    let mut cache = AuthCache::new();
    let stored = ALICE_HASH.to_string();

    // First request: cache miss, store lookup, hash verified.
    let step = begin_authentication(&mut cache, Some(creds("alice", "!123456")), "", 0);
    let pending = match step {
        AuthStep::NeedsLookup(c) => c,
        _ => panic!("expected a store lookup on a cold cache"),
    };
    let user = complete_authentication(&mut cache, &pending, Some(&stored), 0)
        .expect("correct password must verify");
    assert_eq!(user.username, "alice");

    // Second request: served from the cache, no lookup step at all.
    match begin_authentication(&mut cache, Some(creds("alice", "!123456")), "", 1) {
        AuthStep::Verified(a) => assert_eq!(a.username, "alice"),
        _ => panic!("expected the fast path after a successful verification"),
    }

    // Wrong password: the differing secret reads as a miss, and the slow
    // path rejects it.
    let step = begin_authentication(&mut cache, Some(creds("alice", "wrongpass")), "", 2);
    let pending = match step {
        AuthStep::NeedsLookup(c) => c,
        _ => panic!("a mismatched secret must fall through to the store"),
    };
    assert!(complete_authentication(&mut cache, &pending, Some(&stored), 2).is_none());

    // No credentials at all: rejected outright.
    match begin_authentication(&mut cache, None, "", 3) {
        AuthStep::Rejected => {}
        _ => panic!("a request without credentials must be rejected"),
    }

    // Unknown principal: no stored hash, rejected.
    let step = begin_authentication(&mut cache, Some(creds("mallory", "!123456")), "", 4);
    let pending = match step {
        AuthStep::NeedsLookup(c) => c,
        _ => panic!("unknown principals still reach the store"),
    };
    assert!(complete_authentication(&mut cache, &pending, None, 4).is_none());
}

#[test]
fn query_token_authenticates_like_the_header() {
    let mut cache = AuthCache::new();
    let stored = ALICE_HASH.to_string();
    let query = format!("token={}", base64::encode("alice:!123456"));

    let step = begin_authentication(&mut cache, None, &query, 0);
    let pending = match step {
        AuthStep::NeedsLookup(c) => c,
        _ => panic!("the token must yield credentials"),
    };
    assert_eq!(pending.username, "alice");
    assert_eq!(pending.password, "!123456");
    let user = complete_authentication(&mut cache, &pending, Some(&stored), 0)
        .expect("the token path must verify like the header path");
    assert_eq!(user.username, "alice");
}

#[test]
fn header_takes_precedence_over_token() {
    let query = format!("token={}", base64::encode("alice:!123456"));
    let picked = extract_credentials(Some(creds("bob", "hunter2")), &query).unwrap();
    assert_eq!(picked.username, "bob");
    assert_eq!(picked.password, "hunter2");
}

#[test]
fn token_extraction_edge_cases() {
    // No token parameter at all.
    assert!(extract_token_auth("").is_none());
    assert!(extract_token_auth("a=1&b=2").is_none());
    // Bad base64.
    assert!(extract_token_auth("token=!!!not-base64!!!").is_none());
    // Decodes, but not to UTF-8 text.
    let bad = format!("token={}", base64::encode([0xffu8, 0xfe, 0xfd]));
    assert!(extract_token_auth(&bad).is_none());
    // No colon: the whole text is the username, the password is empty.
    let q = format!("token={}", base64::encode("justalice"));
    let c = extract_token_auth(&q).unwrap();
    assert_eq!(c.username, "justalice");
    assert_eq!(c.password, "");
    // Only the first colon separates: passwords may contain colons.
    let q = format!("token={}", base64::encode("alice:pa:ss"));
    let c = extract_token_auth(&q).unwrap();
    assert_eq!(c.username, "alice");
    assert_eq!(c.password, "pa:ss");
    // The first token parameter wins.
    let q = format!(
        "x=1&token={}&token={}",
        base64::encode("first:1"),
        base64::encode("second:2")
    );
    let c = extract_token_auth(&q).unwrap();
    assert_eq!(c.username, "first");
}
