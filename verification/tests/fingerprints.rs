use post_board::fingerprint::{hash, is_hashable};

#[test]
fn hash_of_alice_is_lowercase_hex_sha256() {
    assert_eq!(
        hash("alice".to_string()),
        "2bd806c97f0e00af1a1fc3328fa763a9269723c8db8fac4f93af71db186d6e90"
    );
}

#[test]
fn hash_of_bob_is_lowercase_hex_sha256() {
    assert_eq!(
        hash("bob".to_string()),
        "81b637d8fcd2c6da6359e6963113a1170de795e4b725b84d1e0b4cfd9ec58ce9"
    );
}

#[test]
fn hash_of_empty_secret() {
    assert_eq!(
        hash(String::new()),
        "e3b0c44298fc1c149afbf4c8996fb92427ae41e4649b934ca495991b7852b855"
    );
}

#[test]
fn hash_digests_utf8_bytes() {
    assert_eq!(
        hash("h\u{e9}llo".to_string()),
        "3c48591d8d098a4538f5e013dfcf406e948eac4d3277b10bf614e295d6068179"
    );
}

#[test]
fn hash_is_deterministic() {
    let first = hash("correct horse".to_string());
    let second = hash("correct horse".to_string());
    assert_eq!(first, second);
    assert_ne!(first, hash("correct horse ".to_string()));
}

#[test]
fn hash_has_sixty_four_hex_digits() {
    for secret in ["", "a", "alice", "a much longer secret than the others"] {
        let fp = hash(secret.to_string());
        assert_eq!(fp.len(), 64);
        assert!(fp.chars().all(|c| c.is_ascii_digit() || ('a'..='f').contains(&c)));
        assert_ne!(fp, secret);
    }
}

#[test]
fn ordinary_secrets_are_hashable() {
    assert!(is_hashable(""));
    assert!(is_hashable("alice"));
}
