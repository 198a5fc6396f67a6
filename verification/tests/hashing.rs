use book_auth::encrypt::{check_password_hash, generate_password_hash, salt_from_bytes};

#[test]
fn main() {
    let password = "your_password";
    let hashed = generate_password_hash(password, "pbkdf2:sha256", 8).unwrap();
    println!("Hashed password: {}", hashed);

    let is_valid = check_password_hash(&hashed, password);
    assert!(is_valid);

    let is_invalid = check_password_hash(&hashed, "wrong_password");
    assert!(!is_invalid);
}

#[test]
fn test_gen() {
    let valid = check_password_hash(
        "pbkdf2:sha256:600000$hQdi8AMq$813059eab6f37215457e25c289b5ba811564b1b65c1a86f747391d7fc4ab092a",
        "!123456",
    );
    assert!(valid);
}

#[test]
fn default_iteration_count_is_600000() {
    // The same salt and digest as test_gen, but with the count left to the
    // default: verification must recompute with 600000 iterations.
    let valid = check_password_hash(
        "pbkdf2:sha256$hQdi8AMq$813059eab6f37215457e25c289b5ba811564b1b65c1a86f747391d7fc4ab092a",
        "!123456",
    );
    assert!(valid);
}

#[test]
fn malformed_hashes_fail_closed() {
    assert!(!check_password_hash("", "anything"));
    assert!(!check_password_hash("no separators at all", "pw"));
    assert!(!check_password_hash("only$one", "pw"));
    assert!(!check_password_hash("too$many$dollar$signs", "pw"));
    assert!(!check_password_hash("md5$salt$digest", "pw"));
    assert!(!check_password_hash("pbkdf2:md5:1000$salt$digest", "pw"));
    assert!(!check_password_hash("pbkdf2:sha256:1:2$salt$digest", "pw"));
    assert!(!check_password_hash("pbkdf2:sha256:0$salt$digest", "pw"));
    assert!(!check_password_hash("pbkdf2$salt$digest", "pw"));
}

#[test]
fn wrong_password_is_rejected() {
    let hashed = generate_password_hash("right horse", "pbkdf2:sha256:1000", 12).unwrap();
    assert!(check_password_hash(&hashed, "right horse"));
    assert!(!check_password_hash(&hashed, "wrong horse"));
    assert!(!check_password_hash(&hashed, ""));
}

#[test]
fn generated_hash_shape() {
    let hashed = generate_password_hash("pw", "pbkdf2:sha256:1000", 8).unwrap();
    let parts: Vec<&str> = hashed.split('$').collect();
    assert_eq!(parts.len(), 3);
    assert_eq!(parts[0], "pbkdf2:sha256:1000");
    assert_eq!(parts[1].len(), 8);
    assert!(parts[1].chars().all(|c| c.is_ascii_alphanumeric()));
    assert_eq!(parts[2].len(), 64);
    assert!(parts[2].chars().all(|c| c.is_ascii_hexdigit() && !c.is_ascii_uppercase()));
}

#[test]
fn explicit_count_is_recorded_even_when_defaulted() {
    // An unreadable count falls back to the default, and the generated
    // method field records the count actually used.
    let hashed = generate_password_hash("pw", "pbkdf2:sha256", 4).unwrap();
    assert!(hashed.starts_with("pbkdf2:sha256:600000$"));
}

#[test]
fn salt_alphabet_mapping() {
    // Lowercase letters first, then uppercase, then digits; bytes wrap
    // modulo 62.
    let salt = salt_from_bytes(&vec![0, 25, 26, 51, 52, 61, 62, 123]);
    assert_eq!(salt, "azAZ09a9".to_string());
}
