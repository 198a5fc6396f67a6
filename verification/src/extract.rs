//! Deriving request credentials.
//!
//! A request authenticates either with standard Basic credentials (decoded
//! by the HTTP layer and handed in) or, failing that, with a query
//! parameter literally named `token` whose value is the base64 encoding of
//! UTF-8 text `username:password`. Only the first colon separates the two,
//! so passwords may contain colons; with no colon the password is empty.
//! Anything malformed simply yields no credentials, never an error.

use vstd::prelude::*;
use vstd::string::*;
use vstd::utf8::{decode_utf8, valid_utf8};
use crate::strutil::{find_char, lemma_find_char_absent, lemma_find_char_at, split_char, split_str};

verus! {

/// The (principal, secret) pair a request presented.
pub struct Credentials {
    pub username: String,
    pub password: String,
}

/// Whether a query parameter is a `token=` parameter.
pub open spec fn has_token_prefix(s: Seq<char>) -> bool {
    s.len() >= 6 && s.subrange(0, 6) == "token="@
}

/// The value of the first `token=` parameter among the given ones.
pub open spec fn first_token(ps: Seq<Seq<char>>) -> Option<Seq<char>>
    decreases ps.len(),
{
    if ps.len() == 0 {
        None
    } else if has_token_prefix(ps[0]) {
        Some(ps[0].subrange(6, ps[0].len() as int))
    } else {
        first_token(ps.drop_first())
    }
}

/// The raw token carried by a query string: the value of the first
/// `token=` parameter among its `&`-separated parameters.
pub open spec fn token_param(q: Seq<char>) -> Option<Seq<char>> {
    first_token(split_char(q, '&'))
}

/// Splits `username:password` at the first colon; with no colon the whole
/// text is the username and the password is empty.
pub open spec fn split_colon(s: Seq<char>) -> (Seq<char>, Seq<char>) {
    let i = find_char(s, ':');
    if 0 <= i < s.len() {
        (s.subrange(0, i), s.subrange(i + 1, s.len() as int))
    } else {
        (s, Seq::empty())
    }
}

/// What the standard base64 alphabet decodes the token to, if anything.
pub uninterp spec fn b64_decode_of(s: Seq<char>) -> Option<Seq<u8>>;

/// Relies on base64::decode: succeeds or fails, and on success yields the
/// decoded bytes, as a function of the input characters alone.
#[verifier::external_body]
fn b64_decode(s: &str) -> (r: Option<Vec<u8>>)
    ensures
        r matches Some(v) ==> b64_decode_of(s@) == Some(v@),
        r is None ==> b64_decode_of(s@) is None,
{
    match base64::decode(s) {
        Ok(v) => Some(v),
        Err(_) => None,
    }
}

/// Relies on String::from_utf8: succeeds exactly on valid UTF-8 and then
/// returns the decoded text of those bytes.
#[verifier::external_body]
fn string_from_utf8(v: Vec<u8>) -> (r: Option<String>)
    ensures
        r matches Some(s) ==> valid_utf8(v@) && s@ == decode_utf8(v@),
        r is None ==> !valid_utf8(v@),
{
    match String::from_utf8(v) {
        Ok(s) => Some(s),
        Err(_) => None,
    }
}

/// The credentials a query string's token yields: the token value must
/// base64-decode to valid UTF-8, which is then split at the first colon.
pub open spec fn token_credentials(q: Seq<char>) -> Option<(Seq<char>, Seq<char>)> {
    match token_param(q) {
        None => None,
        Some(t) => match b64_decode_of(t) {
            None => None,
            Some(bytes) => if valid_utf8(bytes) {
                Some(split_colon(decode_utf8(bytes)))
            } else {
                None
            },
        },
    }
}

/// Splits decoded token text into username and password, exactly as
/// [`split_colon`] says.
fn credentials_from_pair(s: &String) -> (r: Credentials)
    ensures
        (r.username@, r.password@) == split_colon(s@),
{
    let st = s.as_str();
    let n = st.unicode_len();
    let mut i: usize = 0;
    while i < n
        invariant
            i <= n,
            n == st@.len(),
            st@ == s@,
            forall|j: int| 0 <= j < i ==> st@[j] != ':',
        decreases n - i,
    {
        if st.get_char(i) == ':' {
            proof {
                lemma_find_char_at(s@, ':', i as int);
            }
            return Credentials {
                username: String::from_str(st.substring_char(0, i)),
                password: String::from_str(st.substring_char(i + 1, n)),
            };
        }
        i = i + 1;
    }
    proof {
        lemma_find_char_absent(s@, ':');
    }
    Credentials { username: s.clone(), password: String::new() }
}

/// Credentials synthesized from the query string's `token` parameter, as
/// [`token_credentials`] says; `None` when no well-formed token is there.
pub fn extract_token_auth(query: &str) -> (r: Option<Credentials>)
    ensures
        r matches Some(c) ==> token_credentials(query@) == Some((c.username@, c.password@)),
        r is None ==> token_credentials(query@) is None,
{
    let parts = split_str(query, '&');
    let ghost pviews = parts@.map_values(|p: String| p@);
    let mut i: usize = 0;
    proof {
        assert(pviews.skip(0) =~= pviews);
    }
    while i < parts.len()
        invariant
            i <= parts@.len(),
            pviews == parts@.map_values(|p: String| p@),
            pviews == split_char(query@, '&'),
            first_token(pviews) == first_token(pviews.skip(i as int)),
        decreases parts@.len() - i,
    {
        proof {
            assert(pviews.skip(i as int)[0] == pviews[i as int]);
        }
        let n = parts[i].as_str().unicode_len();
        if n >= 6 {
            let prefix = String::from_str(parts[i].as_str().substring_char(0, 6));
            if prefix == String::from_str("token=") {
                let value = String::from_str(parts[i].as_str().substring_char(6, n));
                proof {
                    assert(has_token_prefix(pviews[i as int]));
                    assert(first_token(pviews.skip(i as int)) == Some(value@));
                }
                let bytes = match b64_decode(value.as_str()) {
                    Some(b) => b,
                    None => {
                        return None;
                    },
                };
                let text = match string_from_utf8(bytes) {
                    Some(t) => t,
                    None => {
                        return None;
                    },
                };
                return Some(credentials_from_pair(&text));
            }
        }
        proof {
            assert(!has_token_prefix(pviews[i as int]));
            assert(pviews.skip(i as int).drop_first() =~= pviews.skip(i as int + 1));
        }
        i = i + 1;
    }
    proof {
        assert(pviews.skip(parts@.len() as int) =~= Seq::<Seq<char>>::empty());
    }
    None
}

/// The credentials a request carries: the Basic header pair when present,
/// which always takes precedence; otherwise whatever the query string's
/// token yields. They are never merged.
pub fn extract_credentials(basic: Option<Credentials>, query: &str) -> (r: Option<Credentials>)
    ensures
        basic matches Some(c) ==> r matches Some(rc) && rc.username@ == c.username@
            && rc.password@ == c.password@,
        basic is None ==> {
            match r {
                Some(c) => token_credentials(query@) == Some((c.username@, c.password@)),
                None => token_credentials(query@) is None,
            }
        },
{
    match basic {
        Some(c) => Some(c),
        None => extract_token_auth(query),
    }
}

} // verus!
