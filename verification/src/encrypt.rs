//! Salted, iterated password hashing with a self-describing stored format.
//!
//! A stored hash is the string `method$salt$digest`, where `method` is
//! `pbkdf2:sha256:<iterations>`, `salt` is used verbatim as the PBKDF2 salt
//! bytes, and `digest` is the lowercase-hex encoding of the 32-byte derived
//! key. Verification parses the three fields back out and recomputes the
//! digest; any malformed or unsupported input fails closed (returns false).

use vstd::prelude::*;
use vstd::string::*;
use vstd::utf8::encode_utf8;
use crate::strutil::{split_char, split_str, lemma_split_char_step, lemma_split_char_whole};

verus! {

pub const DEFAULT_ITERATIONS: u32 = 600000;

// ---------------------------------------------------------------------------
// Decimal digits
// ---------------------------------------------------------------------------

pub open spec fn is_digit(c: char) -> bool {
    48 <= c as u32 <= 57
}

pub open spec fn digit_val(c: char) -> int {
    c as u32 - 48
}

/// The character for a single decimal digit value.
pub open spec fn digit_char(d: int) -> char {
    ((48 + d) as u8) as char
}

pub open spec fn all_digits(s: Seq<char>) -> bool {
    s.len() > 0 && forall|j: int| 0 <= j < s.len() ==> is_digit(s[j])
}

/// Value of a digit string, most significant digit first.
pub open spec fn digits_val(s: Seq<char>) -> int
    decreases s.len(),
{
    if s.len() == 0 {
        0
    } else {
        digits_val(s.drop_last()) * 10 + digit_val(s.last())
    }
}

pub proof fn lemma_digits_val_nonneg(s: Seq<char>)
    requires
        forall|j: int| 0 <= j < s.len() ==> is_digit(s[j]),
    ensures
        digits_val(s) >= 0,
    decreases s.len(),
{
    if s.len() > 0 {
        lemma_digits_val_nonneg(s.drop_last());
    }
}

/// Extending a digit string on the right never lowers its value.
pub proof fn lemma_digits_val_prefix(s: Seq<char>, k: int)
    requires
        forall|j: int| 0 <= j < s.len() ==> is_digit(s[j]),
        0 <= k <= s.len(),
    ensures
        digits_val(s) >= digits_val(s.subrange(0, k)),
    decreases s.len() - k,
{
    if k < s.len() {
        let t = s.subrange(0, k + 1);
        assert(t.drop_last() =~= s.subrange(0, k));
        lemma_digits_val_nonneg(s.subrange(0, k));
        lemma_digits_val_prefix(s, k + 1);
    } else {
        assert(s.subrange(0, k) =~= s);
    }
}

/// The decimal rendering of `n`, most significant digit first.
pub open spec fn dec_str(n: u32) -> Seq<char>
    decreases n,
{
    if n < 10 {
        seq![digit_char(n as int)]
    } else {
        dec_str(n / 10).push(digit_char((n % 10) as int))
    }
}

/// Rendering a number yields digits that read back as the same number.
pub proof fn lemma_dec_str(n: u32)
    ensures
        all_digits(dec_str(n)),
        digits_val(dec_str(n)) == n,
    decreases n,
{
    if n < 10 {
        assert(dec_str(n) =~= seq![digit_char(n as int)]);
        assert(digits_val(dec_str(n).drop_last()) == 0);
    } else {
        lemma_dec_str(n / 10);
        let s = dec_str(n);
        assert(s.drop_last() =~= dec_str(n / 10));
        assert forall|j: int| 0 <= j < s.len() implies is_digit(s[j]) by {
            if j < s.len() - 1 {
                assert(s[j] == dec_str(n / 10)[j]);
            }
        }
    }
}

/// A leading `+` sign, when present, is skipped before the digits.
pub open spec fn strip_plus(s: Seq<char>) -> Seq<char> {
    if s.len() > 0 && s[0] == '+' {
        s.drop_first()
    } else {
        s
    }
}

/// What `"...".parse::<u32>()` accepts: an optional leading `+`, then one
/// or more decimal digits whose value fits in `u32`.
pub open spec fn parse_u32_spec(s: Seq<char>) -> Option<u32> {
    let t = strip_plus(s);
    if all_digits(t) && digits_val(t) <= u32::MAX {
        Some(digits_val(t) as u32)
    } else {
        None
    }
}

/// Reads an unsigned decimal number, exactly as [`parse_u32_spec`] says.
pub fn parse_u32(s: &str) -> (r: Option<u32>)
    ensures
        r == parse_u32_spec(s@),
{
    let n = s.unicode_len();
    let start: usize = if n > 0 && s.get_char(0) == '+' {
        1
    } else {
        0
    };
    let ghost t = strip_plus(s@);
    proof {
        assert(t =~= s@.subrange(start as int, n as int));
    }
    if n == start {
        return None;
    }
    let mut acc: u64 = 0;
    let mut i: usize = start;
    while i < n
        invariant
            start <= i <= n,
            n == s@.len(),
            start < n,
            t == strip_plus(s@),
            t == s@.subrange(start as int, n as int),
            forall|j: int| start <= j < i ==> is_digit(s@[j]),
            acc <= u32::MAX ==> acc == digits_val(t.subrange(0, i - start)),
            acc > u32::MAX ==> digits_val(t.subrange(0, i - start)) > u32::MAX,
        decreases n - i,
    {
        let c = s.get_char(i);
        let cv = c as u32;
        if cv < 48 || cv > 57 {
            proof {
                assert(t[i - start] == s@[i as int]);
                assert(!all_digits(t));
            }
            return None;
        }
        let d = (cv - 48) as u64;
        proof {
            let p = t.subrange(0, i - start);
            let q = t.subrange(0, i + 1 - start);
            assert(q.drop_last() =~= p);
            assert(q.last() == s@[i as int]);
            if acc > u32::MAX {
                assert(forall|j: int| 0 <= j < q.len() ==> is_digit(q[j]));
                lemma_digits_val_nonneg(p);
            }
        }
        if acc > u32::MAX as u64 {
            // A longer digit string only grows; remember just the overflow.
            acc = u64::MAX;
            assert(digits_val(t.subrange(0, i + 1 - start)) > u32::MAX);
        } else {
            acc = acc * 10 + d;
        }
        i = i + 1;
    }
    proof {
        assert(t.subrange(0, n - start) =~= t);
        assert forall|j: int| 0 <= j < t.len() implies is_digit(t[j]) by {
            assert(t[j] == s@[start + j]);
        }
    }
    if acc > u32::MAX as u64 {
        None
    } else {
        Some(acc as u32)
    }
}

// ---------------------------------------------------------------------------
// Lowercase hex encoding
// ---------------------------------------------------------------------------

pub open spec fn hex_digit_char(d: int) -> char {
    if d < 10 {
        ((48 + d) as u8) as char
    } else {
        ((87 + d) as u8) as char
    }
}

pub open spec fn is_hex_char(c: char) -> bool {
    48 <= c as u32 <= 57 || 97 <= c as u32 <= 102
}

/// Lowercase-hex rendering of a byte string, two digits per byte.
pub open spec fn hex_str(bytes: Seq<u8>) -> Seq<char>
    decreases bytes.len(),
{
    if bytes.len() == 0 {
        Seq::empty()
    } else {
        seq![
            hex_digit_char((bytes[0] / 16) as int),
            hex_digit_char((bytes[0] % 16) as int),
        ] + hex_str(bytes.drop_first())
    }
}

pub proof fn lemma_hex_str_chars(bytes: Seq<u8>)
    ensures
        forall|j: int| 0 <= j < hex_str(bytes).len() ==> is_hex_char(#[trigger] hex_str(bytes)[j]),
    decreases bytes.len(),
{
    if bytes.len() > 0 {
        lemma_hex_str_chars(bytes.drop_first());
        assert forall|j: int| 0 <= j < hex_str(bytes).len() implies is_hex_char(
            #[trigger] hex_str(bytes)[j],
        ) by {
            if j >= 2 {
                assert(hex_str(bytes)[j] == hex_str(bytes.drop_first())[j - 2]);
            }
        }
    }
}

// ---------------------------------------------------------------------------
// Trusted wrappers around the cryptographic primitives
// ---------------------------------------------------------------------------

/// The 32-byte PBKDF2-HMAC-SHA256 derived key: a function of the salt
/// bytes, the secret bytes and the iteration count alone.
pub uninterp spec fn pbkdf2_sha256(salt: Seq<u8>, password: Seq<u8>, iterations: u32) -> Seq<u8>;

/// Relies on ring::pbkdf2::derive with PBKDF2_HMAC_SHA256: fills the output
/// buffer with the derived key, which depends only on the arguments.
#[verifier::external_body]
fn derive_pbkdf2(salt: &Vec<u8>, password: &Vec<u8>, iterations: u32) -> (r: Vec<u8>)
    requires
        1 <= iterations,
    ensures
        r@ == pbkdf2_sha256(salt@, password@, iterations),
        r@.len() == 32,
{
    let mut out = [0u8; 32];
    ring::pbkdf2::derive(
        ring::pbkdf2::PBKDF2_HMAC_SHA256,
        std::num::NonZeroU32::new(iterations).unwrap(),
        salt.as_slice(),
        password.as_slice(),
        &mut out,
    );
    out.to_vec()
}

/// Relies on data_encoding::HEXLOWER.encode: two lowercase hex digits per
/// input byte, most significant digit first.
#[verifier::external_body]
fn hex_lower(bytes: &Vec<u8>) -> (r: String)
    ensures
        r@ == hex_str(bytes@),
{
    data_encoding::HEXLOWER.encode(bytes.as_slice())
}

/// Relies on ring::rand::SystemRandom (SecureRandom::fill): fills a buffer
/// from the system CSPRNG. Nothing is assumed of the bytes themselves.
#[verifier::external_body]
fn random_bytes(len: usize) -> (r: Option<Vec<u8>>)
    ensures
        r matches Some(v) ==> v@.len() == len,
{
    let rng = ring::rand::SystemRandom::new();
    let mut buf = vec![0u8; len];
    match ring::rand::SecureRandom::fill(&rng, &mut buf) {
        Ok(()) => Some(buf),
        Err(_) => None,
    }
}

/// Relies on String::push: appends exactly the given character.
#[verifier::external_body]
fn push_char(s: &mut String, c: char)
    ensures
        final(s)@ == old(s)@.push(c),
{
    s.push(c);
}

// ---------------------------------------------------------------------------
// The method field
// ---------------------------------------------------------------------------

/// Iteration count promised by a method string, or `None` when the method
/// is unsupported. Supported methods are `pbkdf2:sha256` (default count)
/// and `pbkdf2:sha256:<n>`; an unreadable `<n>` falls back to the default,
/// and an explicit zero is rejected so that verification can fail closed
/// instead of crashing on a corrupted stored hash.
pub open spec fn method_iterations(m: Seq<char>) -> Option<u32> {
    let parts = split_char(m, ':');
    if parts.len() == 2 && parts[0] == "pbkdf2"@ && parts[1] == "sha256"@ {
        Some(DEFAULT_ITERATIONS)
    } else if parts.len() == 3 && parts[0] == "pbkdf2"@ && parts[1] == "sha256"@ {
        match parse_u32_spec(parts[2]) {
            Some(n) => if n == 0 {
                None
            } else {
                Some(n)
            },
            None => Some(DEFAULT_ITERATIONS),
        }
    } else {
        None
    }
}

pub proof fn lemma_method_iterations_nonzero(m: Seq<char>)
    ensures
        method_iterations(m) matches Some(n) ==> n >= 1,
{
}

/// Reads the method field, exactly as [`method_iterations`] says.
pub fn parse_method(method: &str) -> (r: Option<u32>)
    ensures
        r == method_iterations(method@),
{
    let parts = split_str(method, ':');
    if parts.len() < 2 || parts.len() > 3 {
        return None;
    }
    if !(parts[0] == String::from_str("pbkdf2")) {
        return None;
    }
    if !(parts[1] == String::from_str("sha256")) {
        return None;
    }
    if parts.len() == 2 {
        return Some(DEFAULT_ITERATIONS);
    }
    match parse_u32(parts[2].as_str()) {
        Some(n) => if n == 0 {
            None
        } else {
            Some(n)
        },
        None => Some(DEFAULT_ITERATIONS),
    }
}

// ---------------------------------------------------------------------------
// Stored hashes
// ---------------------------------------------------------------------------

/// What it means for the stored hash `h` to match the password `p`:
/// `h` splits on `$` into exactly `method`, `salt` and `digest`, the method
/// is supported, and the digest is the hex PBKDF2 key of `p` under that
/// salt and iteration count.
pub open spec fn check_spec(h: Seq<char>, p: Seq<char>) -> bool {
    let parts = split_char(h, '$');
    &&& parts.len() == 3
    &&& method_iterations(parts[0]) is Some
    &&& parts[2] == hex_str(
        pbkdf2_sha256(
            encode_utf8(parts[1]),
            encode_utf8(p),
            method_iterations(parts[0])->Some_0,
        ),
    )
}

/// Checks a password against a stored hash; fails closed (returns false)
/// on any malformed or unsupported input, for every input string.
pub fn check_password_hash(pwhash: &str, password: &str) -> (r: bool)
    ensures
        r == check_spec(pwhash@, password@),
{
    let parts = split_str(pwhash, '$');
    if parts.len() != 3 {
        return false;
    }
    let it = match parse_method(parts[0].as_str()) {
        Some(it) => it,
        None => {
            return false;
        },
    };
    proof {
        lemma_method_iterations_nonzero(parts@[0]@);
    }
    let salt_bytes = parts[1].as_str().as_bytes_vec();
    let password_bytes = password.as_bytes_vec();
    let digest = derive_pbkdf2(&salt_bytes, &password_bytes, it);
    let hex = hex_lower(&digest);
    hex == parts[2]
}

/// The canonical method field a generated hash records: the iteration
/// count is always written out, so verification needs no configuration.
pub open spec fn canonical_method(it: u32) -> Seq<char> {
    "pbkdf2:sha256:"@ + dec_str(it)
}

fn dec_string(n: u32) -> (r: String)
    ensures
        r@ == dec_str(n),
    decreases n,
{
    if n < 10 {
        let mut s = String::new();
        push_char(&mut s, (48 + n as u8) as char);
        proof {
            assert(s@ =~= dec_str(n));
        }
        s
    } else {
        let mut s = dec_string(n / 10);
        push_char(&mut s, (48 + (n % 10) as u8) as char);
        s
    }
}

fn method_string(it: u32) -> (r: String)
    ensures
        r@ == canonical_method(it),
{
    let mut s = String::from_str("pbkdf2:sha256:");
    let digits = dec_string(it);
    s.append(digits.as_str());
    s
}

/// Digest and canonical method for one hashing run. The digest is the
/// lowercase-hex PBKDF2 key of the password under the given salt and the
/// method's iteration count.
pub fn hash_internal(method: &str, salt: &str, password: &str) -> (r: (String, String))
    requires
        method_iterations(method@) is Some,
    ensures
        r.0@ == hex_str(
            pbkdf2_sha256(
                encode_utf8(salt@),
                encode_utf8(password@),
                method_iterations(method@)->Some_0,
            ),
        ),
        r.1@ == canonical_method(method_iterations(method@)->Some_0),
{
    let it = parse_method(method).unwrap();
    proof {
        lemma_method_iterations_nonzero(method@);
    }
    let salt_bytes = salt.as_bytes_vec();
    let password_bytes = password.as_bytes_vec();
    let digest = hex_lower(&derive_pbkdf2(&salt_bytes, &password_bytes, it));
    let m = method_string(it);
    (digest, m)
}

// ---------------------------------------------------------------------------
// Salt generation
// ---------------------------------------------------------------------------

/// The salt symbol a random byte maps to: the byte modulo 62 indexes the
/// alphabet of lowercase letters, then uppercase letters, then digits.
pub open spec fn salt_char(b: u8) -> char {
    if b % 62 < 26 {
        ((97 + b % 62) as u8) as char
    } else if b % 62 < 52 {
        ((65 + (b % 62 - 26)) as u8) as char
    } else {
        ((48 + (b % 62 - 52)) as u8) as char
    }
}

pub open spec fn is_salt_char(c: char) -> bool {
    ||| 97 <= c as u32 <= 122
    ||| 65 <= c as u32 <= 90
    ||| 48 <= c as u32 <= 57
}

/// Maps each random byte into the 62-symbol salt alphabet.
pub fn salt_from_bytes(bytes: &Vec<u8>) -> (r: String)
    ensures
        r@.len() == bytes@.len(),
        forall|j: int| 0 <= j < bytes@.len() ==> r@[j] == salt_char(bytes@[j]),
{
    let mut s = String::new();
    let mut i: usize = 0;
    while i < bytes.len()
        invariant
            i <= bytes@.len(),
            s@.len() == i,
            forall|j: int| 0 <= j < i ==> s@[j] == salt_char(bytes@[j]),
        decreases bytes@.len() - i,
    {
        let m = bytes[i] % 62;
        let c: char = if m < 26 {
            (97 + m) as char
        } else if m < 52 {
            (65 + (m - 26)) as char
        } else {
            (48 + (m - 52)) as char
        };
        push_char(&mut s, c);
        i = i + 1;
    }
    s
}

/// Draws a fresh salt of the requested length from the system CSPRNG;
/// `None` only when the random source fails.
pub fn generate_salt(length: usize) -> (r: Option<String>)
    ensures
        r matches Some(s) ==> s@.len() == length && forall|j: int|
            0 <= j < s@.len() ==> is_salt_char(#[trigger] s@[j]),
{
    match random_bytes(length) {
        Some(bytes) => Some(salt_from_bytes(&bytes)),
        None => None,
    }
}

// ---------------------------------------------------------------------------
// Hash generation and the round-trip law
// ---------------------------------------------------------------------------

/// The stored-hash string produced for a supported method, a salt and a
/// password: canonical method, salt and hex digest, joined by `$`.
pub open spec fn hash_string(method: Seq<char>, salt: Seq<char>, p: Seq<char>) -> Seq<char> {
    let it = method_iterations(method)->Some_0;
    canonical_method(it) + seq!['$'] + salt + seq!['$'] + hex_str(
        pbkdf2_sha256(encode_utf8(salt), encode_utf8(p), it),
    )
}

pub proof fn lemma_canonical_method_chars(it: u32)
    ensures
        forall|j: int| 0 <= j < canonical_method(it).len() ==> #[trigger] canonical_method(
            it,
        )[j] != '$',
{
    reveal_strlit("pbkdf2:sha256:");
    lemma_dec_str(it);
    let cm = canonical_method(it);
    assert forall|j: int| 0 <= j < cm.len() implies #[trigger] cm[j] != '$' by {
        if j >= 14 {
            assert(cm[j] == dec_str(it)[j - 14]);
            assert(is_digit(dec_str(it)[j - 14]));
        }
    }
}

/// The canonical method field reads back as the iteration count it records.
pub proof fn lemma_canonical_method_parses(it: u32)
    requires
        1 <= it,
    ensures
        method_iterations(canonical_method(it)) == Some(it),
{
    reveal_strlit("pbkdf2:sha256:");
    reveal_strlit("pbkdf2");
    reveal_strlit("sha256");
    lemma_dec_str(it);
    let cm = canonical_method(it);
    let d = dec_str(it);
    assert(cm =~= "pbkdf2"@ + seq![':'] + ("sha256"@ + seq![':'] + d));
    assert(forall|j: int| 0 <= j < "pbkdf2"@.len() ==> "pbkdf2"@[j] != ':');
    assert(forall|j: int| 0 <= j < "sha256"@.len() ==> "sha256"@[j] != ':');
    assert(forall|j: int| 0 <= j < d.len() ==> d[j] != ':');
    lemma_split_char_step("pbkdf2"@, "sha256"@ + seq![':'] + d, ':');
    lemma_split_char_step("sha256"@, d, ':');
    lemma_split_char_whole(d, ':');
    let parts = split_char(cm, ':');
    assert(parts =~= seq!["pbkdf2"@, "sha256"@, d]);
    assert(d[0] != '+');
    assert(strip_plus(d) == d);
    assert(parse_u32_spec(d) == Some(it));
}

/// Round trip: a hash built from a supported method, a `$`-free salt and a
/// password always verifies against that same password.
pub proof fn lemma_hash_verifies(method: Seq<char>, salt: Seq<char>, p: Seq<char>)
    requires
        method_iterations(method) is Some,
        forall|j: int| 0 <= j < salt.len() ==> #[trigger] salt[j] != '$',
    ensures
        check_spec(hash_string(method, salt, p), p),
{
    let it = method_iterations(method)->Some_0;
    let cm = canonical_method(it);
    let digest = hex_str(pbkdf2_sha256(encode_utf8(salt), encode_utf8(p), it));
    let h = hash_string(method, salt, p);
    lemma_canonical_method_chars(it);
    lemma_hex_str_chars(pbkdf2_sha256(encode_utf8(salt), encode_utf8(p), it));
    assert(forall|j: int| 0 <= j < digest.len() ==> #[trigger] digest[j] != '$');
    assert(h =~= cm + seq!['$'] + (salt + seq!['$'] + digest));
    lemma_split_char_step(cm, salt + seq!['$'] + digest, '$');
    lemma_split_char_step(salt, digest, '$');
    lemma_split_char_whole(digest, '$');
    let parts = split_char(h, '$');
    assert(parts =~= seq![cm, salt, digest]);
    lemma_method_iterations_nonzero(method);
    lemma_canonical_method_parses(it);
}

/// Fail-closed: a stored hash that does not split into exactly three
/// fields, or whose method field is unsupported, never verifies.
pub proof fn lemma_malformed_hash_rejected(h: Seq<char>, p: Seq<char>)
    ensures
        split_char(h, '$').len() != 3 ==> !check_spec(h, p),
        method_iterations(split_char(h, '$')[0]) is None ==> !check_spec(h, p),
{
}

/// Hashes a password under a freshly drawn salt of the requested length;
/// `None` only when the random source fails. The result always verifies
/// against the password it was built from.
pub fn generate_password_hash(password: &str, method: &str, salt_length: usize) -> (r: Option<
    String,
>)
    requires
        method_iterations(method@) is Some,
    ensures
        r matches Some(h) ==> check_spec(h@, password@),
        r matches Some(h) ==> exists|salt: Seq<char>|
            salt.len() == salt_length && (forall|j: int|
                0 <= j < salt.len() ==> is_salt_char(#[trigger] salt[j])) && h@ == hash_string(
                method@,
                salt,
                password@,
            ),
{
    let salt = match generate_salt(salt_length) {
        Some(s) => s,
        None => {
            return None;
        },
    };
    let (digest, actual_method) = hash_internal(method, salt.as_str(), password);
    let mut h = actual_method;
    push_char(&mut h, '$');
    h.append(salt.as_str());
    push_char(&mut h, '$');
    h.append(digest.as_str());
    proof {
        assert(h@ =~= hash_string(method@, salt@, password@));
        assert forall|j: int| 0 <= j < salt@.len() implies #[trigger] salt@[j] != '$' by {
            assert(is_salt_char(salt@[j]));
        }
        lemma_hash_verifies(method@, salt@, password@);
    }
    Some(h)
}

} // verus!
