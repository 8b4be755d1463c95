use kvm_common::keys::key_from_bytes;
use kvm_common::{generate_key, key_to_hex, parse_key, resolve_key, KeyError};
use sha2::{Digest, Sha256};

#[test]
fn test_key_parsing() {
    let key = generate_key().unwrap();
    let hex = key_to_hex(&key);
    let parsed = parse_key(&hex);
    assert_eq!(key, parsed);

    let pass_key1 = parse_key("mypassphrase");
    let pass_key2 = parse_key("mypassphrase");
    assert_eq!(pass_key1, pass_key2);
    assert_ne!(pass_key1, [0u8; 32]);
}

#[test]
fn test_key_derivation_consistency() {
    let pass = "my_secure_kvm_password";
    let key1 = parse_key(pass);
    let key2 = parse_key(pass);
    assert_eq!(key1, key2);

    let hex = key_to_hex(&key1);
    let key3 = parse_key(&hex);
    assert_eq!(key1, key3);
}

#[test]
fn test_resolve_key() {
    // Direct key argument
    let key_hex = key_to_hex(&generate_key().unwrap());
    let res1 = resolve_key(Some(&key_hex), None, None).unwrap();
    assert_eq!(key_to_hex(&res1), key_hex);

    // From the content of a key file
    let content = format!("  {} \n", key_hex);
    let res2 = resolve_key(None, None, Some(Some(&content))).unwrap();
    assert_eq!(res1, res2);

    // Neither provided
    let res_err = resolve_key(None, None, None);
    assert!(res_err.is_err());
}

#[test]
fn key_to_hex_writes_lowercase_pairs() {
    let mut key = [0u8; 32];
    key[0] = 0xab;
    key[1] = 0x01;
    key[31] = 0xff;
    let hex = key_to_hex(&key);
    assert_eq!(hex.len(), 64);
    assert!(hex.starts_with("ab01"));
    assert!(hex.ends_with("ff"));
}

#[test]
fn parse_key_accepts_uppercase_hex_and_surrounding_whitespace() {
    let text = "\t AB".to_string() + &"00".repeat(31) + "\u{3000}\n";
    let key = parse_key(&text);
    assert_eq!(key[0], 0xab);
    assert!(key[1..].iter().all(|b| *b == 0));
}

#[test]
fn parse_key_hashes_passphrases_with_sha256() {
    let expected: [u8; 32] = Sha256::digest(b"mypassphrase").into();
    assert_eq!(parse_key("  mypassphrase \n"), expected);
    // 63 hex digits are a passphrase too
    let short = "a".repeat(63);
    let expected_short: [u8; 32] = Sha256::digest(short.as_bytes()).into();
    assert_eq!(parse_key(&short), expected_short);
    // 64 characters with a non-hex one are a passphrase
    let bad = "g".to_string() + &"0".repeat(63);
    let expected_bad: [u8; 32] = Sha256::digest(bad.as_bytes()).into();
    assert_eq!(parse_key(&bad), expected_bad);
}

#[test]
fn resolve_key_order_and_errors() {
    let k = parse_key("one");
    assert_eq!(resolve_key(Some("one"), Some("two"), Some(Some("three"))), Ok(k));
    assert_eq!(resolve_key(Some("  "), Some("two"), None), Err(KeyError::EmptyKey));
    assert_eq!(resolve_key(None, Some(" two "), Some(Some("three"))), Ok(parse_key("two")));
    assert_eq!(resolve_key(None, Some("   "), Some(Some("three"))), Ok(parse_key("three")));
    assert_eq!(resolve_key(None, None, Some(Some(" \n "))), Err(KeyError::EmptyKeyFile));
    assert_eq!(resolve_key(None, None, Some(None)), Err(KeyError::KeyFileUnreadable));
    assert_eq!(resolve_key(None, Some(""), None), Err(KeyError::Missing));
    // A file that could not be read does not matter when a key is given.
    assert_eq!(resolve_key(Some("one"), None, Some(None)), Ok(k));
}

#[test]
fn generated_keys_differ() {
    let a = generate_key().unwrap();
    let b = generate_key().unwrap();
    assert_ne!(a, b);
}

#[test]
fn whitespace_matches_std() {
    for c in (0u32..0x11000).filter_map(char::from_u32) {
        assert_eq!(
            kvm_common::text::is_whitespace_char(c),
            c.is_whitespace(),
            "character {:?}",
            c
        );
    }
}

#[test]
fn trim_matches_std() {
    for s in ["", "  ", " a ", "\u{2028}x y\u{85}", "\u{3000}\u{3000}", "abc", "\t\nk\r\n"] {
        assert_eq!(kvm_common::text::trim_str(s), s.trim());
    }
}

#[test]
fn parse_u16_matches_std() {
    for s in ["", "+", "-", "0", "+0", "-0", "65535", "65536", "00065535", "12a", "+125", "1 ", "٣", "99999999999"] {
        assert_eq!(kvm_common::text::parse_u16(s), s.parse::<u16>().ok(), "{:?}", s);
    }
}

#[test]
fn key_from_bytes_copies_every_byte() {
    let bytes: Vec<u8> = (0u8..32).map(|b| b.wrapping_mul(7).wrapping_add(3)).collect();
    let key = key_from_bytes(&bytes);
    assert_eq!(&key[..], &bytes[..]);
    assert_eq!(key[0], 3);
    assert_eq!(key[31], 220);
}

