//! The authentication decision for a single request.
//!
//! A request either presents credentials or it does not; presented
//! credentials are first held against the cache (fast path, no hashing),
//! and on a miss the stored hash fetched from the credential store is
//! checked (slow path), populating the cache on success. Every failure,
//! whatever its cause, collapses into the same rejection. The store
//! lookup itself is I/O and stays outside the library: the caller runs it
//! between [`begin_authentication`] and [`complete_authentication`] and
//! hands in its result, so a cancelled lookup leaves the cache untouched.

use vstd::prelude::*;
use crate::cache::{
    cache_get_state, cache_get_value, cache_set, AuthCache,
};
use crate::encrypt::check_spec;
use crate::extract::{token_credentials, Credentials};

verus! {

/// Cache entries live for seven days from insertion or refresh.
pub const AUTH_TTL_SECONDS: u64 = 60 * 60 * 24 * 7;

/// The identity attached to a request once it is verified.
#[derive(Debug, Clone)]
pub struct AuthenticatedUser {
    pub username: String,
}

/// Where one authentication attempt stands after the cache was consulted.
pub enum AuthStep {
    /// The request is authenticated; no store lookup was needed.
    Verified(AuthenticatedUser),
    /// The request carried no usable credentials.
    Rejected,
    /// The store must be asked for this principal's hash.
    NeedsLookup(Credentials),
}

/// The credential pair a request effectively presents: the Basic header
/// pair when present, else whatever the query token yields.
pub open spec fn effective_credentials(
    basic: Option<(Seq<char>, Seq<char>)>,
    q: Seq<char>,
) -> Option<(Seq<char>, Seq<char>)> {
    if basic is Some {
        basic
    } else {
        token_credentials(q)
    }
}

/// Precedence: Basic header credentials always win; the query token is
/// consulted only when no header pair is present, and the two are never
/// merged.
pub proof fn lemma_credential_precedence(basic: Option<(Seq<char>, Seq<char>)>, q: Seq<char>)
    ensures
        basic is Some ==> effective_credentials(basic, q) == basic,
        basic is None ==> effective_credentials(basic, q) == token_credentials(q),
{
}

/// Verifies a password against a stored hash and, only on success, caches
/// the now-verified secret for this principal for the full TTL.
pub fn check_password_hash(
    cache: &mut AuthCache,
    user: &str,
    pwhash: &str,
    password: &str,
    now: u64,
) -> (r: bool)
    requires
        old(cache).wf(),
        now + AUTH_TTL_SECONDS <= u64::MAX,
    ensures
        final(cache).wf(),
        r == check_spec(pwhash@, password@),
        r ==> final(cache)@ == cache_set(
            old(cache)@,
            user@,
            password@,
            (now + AUTH_TTL_SECONDS) as u64,
        ),
        !r ==> final(cache)@ == old(cache)@,
{
    let res = crate::encrypt::check_password_hash(pwhash, password);
    if res {
        cache.set(String::from_str(user), String::from_str(password), AUTH_TTL_SECONDS, now);
    }
    res
}

/// The fast path: whether the cache holds exactly the supplied secret for
/// this principal, unexpired at `now`. A found but expired entry is
/// purged; a cached secret differing from the supplied one reads as a
/// plain miss, since the store stays the source of truth.
pub fn try_cached(cache: &mut AuthCache, creds: &Credentials, now: u64) -> (r: bool)
    requires
        old(cache).wf(),
    ensures
        final(cache).wf(),
        final(cache)@ == cache_get_state(old(cache)@, creds.username@, now),
        r == (cache_get_value(old(cache)@, creds.username@, now) == Some(creds.password@)),
{
    match cache.get(&creds.username, now) {
        Some(t) => t == creds.password,
        None => false,
    }
}

/// Steps one request up to the point where the credential store would be
/// consulted: extraction, then the cache fast path.
pub fn begin_authentication(
    cache: &mut AuthCache,
    basic: Option<Credentials>,
    query: &str,
    now: u64,
) -> (r: AuthStep)
    requires
        old(cache).wf(),
    ensures
        final(cache).wf(),
        ({
            let eff = effective_credentials(
                match basic {
                    Some(c) => Some((c.username@, c.password@)),
                    None => None,
                },
                query@,
            );
            match eff {
                None => r is Rejected && final(cache)@ == old(cache)@,
                Some(up) => {
                    &&& final(cache)@ == cache_get_state(old(cache)@, up.0, now)
                    &&& (cache_get_value(old(cache)@, up.0, now) == Some(up.1) ==> (r matches
                        AuthStep::Verified(a) && a.username@ == up.0))
                    &&& (cache_get_value(old(cache)@, up.0, now) != Some(up.1) ==> (r matches
                        AuthStep::NeedsLookup(c) && c.username@ == up.0 && c.password@ == up.1))
                },
            }
        }),
{
    let creds = match crate::extract::extract_credentials(basic, query) {
        Some(c) => c,
        None => {
            return AuthStep::Rejected;
        },
    };
    if try_cached(cache, &creds, now) {
        AuthStep::Verified(AuthenticatedUser { username: creds.username })
    } else {
        AuthStep::NeedsLookup(creds)
    }
}

/// Finishes the slow path once the store lookup has come back: no stored
/// hash (unknown principal or failed lookup) rejects; otherwise the
/// supplied secret is verified against the stored hash, and only success
/// populates the cache and authenticates the request.
pub fn complete_authentication(
    cache: &mut AuthCache,
    creds: &Credentials,
    stored_hash: Option<&String>,
    now: u64,
) -> (r: Option<AuthenticatedUser>)
    requires
        old(cache).wf(),
        now + AUTH_TTL_SECONDS <= u64::MAX,
    ensures
        final(cache).wf(),
        (r is Some) == (stored_hash matches Some(h) && check_spec(h@, creds.password@)),
        r matches Some(a) ==> a.username@ == creds.username@,
        r is Some ==> final(cache)@ == cache_set(
            old(cache)@,
            creds.username@,
            creds.password@,
            (now + AUTH_TTL_SECONDS) as u64,
        ),
        r is None ==> final(cache)@ == old(cache)@,
{
    match stored_hash {
        None => None,
        Some(h) => {
            if check_password_hash(
                cache,
                creds.username.as_str(),
                h.as_str(),
                creds.password.as_str(),
                now,
            ) {
                Some(AuthenticatedUser { username: creds.username.clone() })
            } else {
                None
            }
        },
    }
}

} // verus!
