use pass_tomb::gpg::{
    check_key_trust, extract_key_id_from_line, generate_tomb_password, password_from_draws, is_trusted_level,
    recipients_from_gpg_output, trust_level_from_listing, validate_gpg_ids, GpgError, GpgIdError,
    TrustError,
};

#[test]
fn key_id_from_message_line() {
    assert_eq!(
        extract_key_id_from_line("gpg: encrypted with 2048-bit RSA key, ID DEADBEEF, created"),
        None
    );
    assert_eq!(
        extract_key_id_from_line("gpg: encrypted with rsa4096 key ID DEADBEEF, created 2020"),
        Some("DEADBEEF".to_string())
    );
    assert_eq!(
        extract_key_id_from_line("gpg: encrypted with key ID  CAFE01 other"),
        Some("CAFE01".to_string())
    );
    assert_eq!(extract_key_id_from_line("key ID ABC"), None);
    assert_eq!(extract_key_id_from_line("gpg: encrypted with key ID ,x"), None);
}

#[test]
fn recipients_from_status_lines_sorted_once() {
    let out = "[GNUPG:] ENC_TO BBBB 1 0\n[GNUPG:] NO_SECKEY BBBB\n[GNUPG:] ENC_TO AAAA 1 0\r\n[GNUPG:] ENC_TO BBBB 1 0\n";
    let r = recipients_from_gpg_output(out, "").unwrap();
    assert_eq!(r, vec!["AAAA".to_string(), "BBBB".to_string()]);
}

#[test]
fn recipients_fall_back_to_messages() {
    let err = "gpg: encrypted with rsa4096 key ID 2222, created\ngpg: encrypted with cv25519 key ID 1111, created\n";
    let r = recipients_from_gpg_output("[GNUPG:] ENC_TO\n", err).unwrap();
    assert_eq!(r, vec!["1111".to_string(), "2222".to_string()]);
    assert!(matches!(
        recipients_from_gpg_output("", "nothing here"),
        Err(GpgError::NoRecipients)
    ));
}

#[test]
fn trust_level_from_pub_line() {
    let listing = b"tru::1:1\npub:u:4096:1:ABCD:1:::u:::scESC:\nuid:u::::\n";
    assert_eq!(trust_level_from_listing(listing), Some("u".to_string()));
    assert_eq!(trust_level_from_listing(b"pub:\n"), Some("".to_string()));
    assert_eq!(trust_level_from_listing(b"sec:u\n"), None);
    assert!(check_key_trust(listing).is_ok());
    assert!(matches!(
        check_key_trust(b"pub:q:1\n"),
        Err(TrustError::Insufficient(level)) if level == "q"
    ));
    assert!(matches!(check_key_trust(b"uid:u\n"), Err(TrustError::Unknown)));
}

#[test]
fn trusted_levels() {
    for t in ["m", "f", "u", "w", "s"] {
        assert!(is_trusted_level(t));
    }
    for t in ["", "q", "n", "mm", "-", "e"] {
        assert!(!is_trusted_level(t));
    }
}

#[test]
fn tomb_password_shape() {
    let alphabet = "ABCDEFGHIJKLMNOPQRSTUVWXYZabcdefghijklmnopqrstuvwxyz0123456789!@#$%^&*()-_=+";
    let a = generate_tomb_password();
    let b = generate_tomb_password();
    assert_eq!(a.chars().count(), 64);
    assert!(a.chars().all(|c| alphabet.contains(c)));
    assert_ne!(a, b);
}

fn ids(v: &[&str]) -> Vec<String> {
    v.iter().map(|s| s.to_string()).collect()
}

fn listing(trust: &str) -> Option<Vec<u8>> {
    Some(format!("tru::1:0\npub:{}:4096:1:ABCD:1:::u:::scESC:\n", trust).into_bytes())
}

#[test]
fn gpg_ids_need_trusted_keys_and_a_secret_key() {
    let two = ids(&["alice", "bob"]);
    assert!(validate_gpg_ids(&two, &[listing("u"), listing("f")], &[false, true]).is_ok());
    assert!(matches!(
        validate_gpg_ids(&two, &[listing("u"), listing("f")], &[false, false]),
        Err(GpgIdError::NoSecretKey)
    ));
    match validate_gpg_ids(&two, &[listing("u"), None], &[true, true]) {
        Err(GpgIdError::NotValidKeyId(id)) => assert_eq!(id, "bob"),
        other => panic!("unexpected {:?}", other),
    }
    match validate_gpg_ids(&two, &[listing("n"), None], &[true, true]) {
        Err(GpgIdError::NotTrusted(id, level)) => {
            assert_eq!(id, "alice");
            assert_eq!(level, "n");
        }
        other => panic!("unexpected {:?}", other),
    }
    match validate_gpg_ids(&two, &[Some(b"sec:u:1\n".to_vec()), listing("u")], &[true, true]) {
        Err(GpgIdError::UnknownTrust(id)) => assert_eq!(id, "alice"),
        other => panic!("unexpected {:?}", other),
    }
    assert!(matches!(validate_gpg_ids(&[], &[], &[]), Err(GpgIdError::NoSecretKey)));
}

#[test]
fn password_spelled_by_draws() {
    assert_eq!(password_from_draws(&[0, 25, 26, 51, 52, 61, 62, 75]), "AZaz09!+");
    assert_eq!(password_from_draws(&[]), "");
    assert_ne!(password_from_draws(&[1, 2]), password_from_draws(&[2, 1]));
}
