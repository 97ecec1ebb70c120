use base64::engine::general_purpose;
use base64::Engine;
use iam::claims::{parse_claims, render_claims};
use iam::database::Database;
use iam::email_index::{email_lookup_hash, normalize_email};
use iam::encryption::{
    decrypt, decrypt_with_nonce, encrypt, encrypt_with_nonce, encrypt_with_random_nonce,
};
use iam::encryption::EncryptionError;
use iam::errors::custom_errors::CustomError;
use iam::hashing::{hash_random_salt, verify_password};
use iam::jwt::{issue_token, validate_token};
use iam::keys::{derive_key, frame, generate_key, Config, DEFAULT_TOKEN_LIFETIME};
use iam::middleware::{bearer, AuthHeader, AuthenticationMiddleware, GateOutcome, Rejection};
use iam::server::{
    get_server_ip, parse_server_port, validate_login_request, validate_register_request,
    RequestError,
};
use iam::text::{push_decimal, str_eq, trim};

const SECRET: &str = "token-signing-secret";

fn config() -> Config {
    Config::new(
        Some("master-encryption-secret".to_string()),
        Some("static-email-salt".to_string()),
        Some(SECRET.to_string()),
        DEFAULT_TOKEN_LIFETIME,
    )
    .unwrap()
}

fn key() -> [u8; 32] {
    derive_key("master-encryption-secret", "user-42")
}

// ----- field cipher -----

#[test]
fn decrypt_inverts_encrypt() {
    let k = key();
    for p in ["", "a", "héllo wörld ✓ 🎉", &"x".repeat(5000)] {
        let blob = encrypt_with_random_nonce(&k, p).unwrap();
        assert_eq!(decrypt_with_nonce(&k, &blob).unwrap(), p);
    }
}

#[test]
fn two_encryptions_differ() {
    let k = key();
    let a = encrypt_with_random_nonce(&k, "same text").unwrap();
    let b = encrypt_with_random_nonce(&k, "same text").unwrap();
    assert_ne!(a, b);
}

#[test]
fn wrong_key_fails_to_decrypt() {
    let k = key();
    let k2 = derive_key("master-encryption-secret", "user-43");
    let blob = encrypt_with_random_nonce(&k2, "secret").unwrap();
    assert_eq!(decrypt_with_nonce(&k, &blob), Err(EncryptionError::DecryptionError));
}

#[test]
fn any_flipped_bit_fails_to_decrypt() {
    let k = key();
    let blob = encrypt_with_random_nonce(&k, "Ann").unwrap();
    let bytes = general_purpose::STANDARD.decode(&blob).unwrap();
    for i in 0..bytes.len() {
        for bit in 0..8 {
            let mut t = bytes.clone();
            t[i] ^= 1 << bit;
            let tampered = general_purpose::STANDARD.encode(&t);
            assert_eq!(decrypt_with_nonce(&k, &tampered), Err(EncryptionError::DecryptionError));
        }
    }
}

#[test]
fn blob_layout_is_nonce_ciphertext_tag() {
    let k = key();
    let nonce = [7u8; 12];
    let blob = encrypt_with_nonce(&k, &nonce, "hello").unwrap();
    let bytes = general_purpose::STANDARD.decode(&blob).unwrap();
    assert_eq!(bytes.len(), 12 + 5 + 16);
    assert_eq!(&bytes[..12], &nonce);
    assert_ne!(&bytes[12..17], b"hello");
    assert_eq!(encrypt_with_nonce(&k, &nonce, "hello").unwrap(), blob);
}

#[test]
fn malformed_blobs_fail_to_decrypt() {
    let k = key();
    let blob = encrypt_with_random_nonce(&k, "hello").unwrap();
    let bytes = general_purpose::STANDARD.decode(&blob).unwrap();
    let truncated = general_purpose::STANDARD.encode(&bytes[..bytes.len() - 1]);
    let short = general_purpose::STANDARD.encode(&bytes[..5]);
    let no_tag = general_purpose::STANDARD.encode(&bytes[..20]);
    let bare_nonce = general_purpose::STANDARD.encode(&bytes[..12]);
    for b in [
        truncated.as_str(),
        short.as_str(),
        no_tag.as_str(),
        bare_nonce.as_str(),
        "",
        "not base64 !!",
        "QUJD",
    ] {
        assert_eq!(decrypt_with_nonce(&k, b), Err(EncryptionError::DecryptionError));
    }
}

#[test]
fn byte_level_encrypt_round_trip() {
    let k = key();
    let data = encrypt(&k, b"raw bytes").unwrap();
    assert_eq!(data.nonce.len(), 12);
    assert_eq!(data.ciphertext.len(), 9 + 16);
    assert_eq!(decrypt(&k, &data.ciphertext, &data.nonce).unwrap(), b"raw bytes".to_vec());
    assert_eq!(decrypt(&k, &data.ciphertext, &[0u8; 11]), Err(EncryptionError::DecryptionError));
    let other = derive_key("other", "user-42");
    assert_eq!(
        decrypt(&other, &data.ciphertext, &data.nonce),
        Err(EncryptionError::DecryptionError)
    );
}

#[test]
fn non_utf8_plaintext_is_a_decryption_error() {
    let k = key();
    let data = encrypt(&k, &[0xff, 0xfe]).unwrap();
    let mut combined = data.nonce.clone();
    combined.extend_from_slice(&data.ciphertext);
    let blob = general_purpose::STANDARD.encode(&combined);
    assert_eq!(decrypt_with_nonce(&k, &blob), Err(EncryptionError::DecryptionError));
}

// ----- password hashing -----

#[test]
fn other_password_fails_verification() {
    let h = hash_random_salt("correcthorsebattery").unwrap();
    assert_eq!(verify_password("correcthorsebatterY", &h), Err(CustomError::InvalidCredentials));
    assert_eq!(verify_password("", &h), Err(CustomError::InvalidCredentials));
}

#[test]
fn hashing_twice_gives_two_strings_that_both_verify() {
    let a = hash_random_salt("pw-123456").unwrap();
    let b = hash_random_salt("pw-123456").unwrap();
    assert_ne!(a, b);
    assert!(verify_password("pw-123456", &a).is_ok());
    assert!(verify_password("pw-123456", &b).is_ok());
    assert!(a.starts_with("$argon2id$v=19$m=19456,t=2,p=1$"));
}

#[test]
fn unparsable_stored_hash_is_invalid_credentials() {
    assert_eq!(verify_password("pw", "not a phc string"), Err(CustomError::InvalidCredentials));
}

// ----- keys and configuration -----

#[test]
fn derived_keys_are_deterministic_and_separated() {
    assert_eq!(derive_key("s", "u"), derive_key("s", "u"));
    assert_ne!(derive_key("s", "u"), derive_key("s", "v"));
    assert_ne!(derive_key("s", "u"), derive_key("t", "u"));
    assert_ne!(derive_key("ab", "c"), derive_key("a", "bc"));
    assert_eq!(config().user_key("u"), derive_key("master-encryption-secret", "u"));
}

#[test]
fn missing_secret_is_a_configuration_error() {
    assert_eq!(generate_key(None, "u"), Err(CustomError::ConfigurationError));
    assert_eq!(generate_key(Some(String::new()), "u"), Err(CustomError::ConfigurationError));
    let some = |s: &str| Some(s.to_string());
    assert!(Config::new(None, some("b"), some("c"), 1).is_err());
    assert!(Config::new(some("a"), None, some("c"), 1).is_err());
    assert!(Config::new(some("a"), some("b"), None, 1).is_err());
    assert!(Config::new(some("a"), some(""), some("c"), 1).is_err());
    assert!(Config::new(some("a"), some("b"), some("c"), 0).is_err());
    let c = Config::new(some("a"), some("b"), some("c"), 5).unwrap();
    assert_eq!((c.encryption_secret.as_str(), c.token_lifetime), ("a", 5));
}

#[test]
fn frame_prefixes_tag_and_secret_length() {
    assert_eq!(frame(75, b"ab", b"xy"), vec![75, b'2', b':', b'a', b'b', b'x', b'y']);
    assert_eq!(frame(69, &[], &[]), vec![69, b'0', b':']);
    let long = vec![1u8; 12];
    assert_eq!(&frame(69, &long, b"z")[..4], &[69, b'1', b'2', b':']);
}

// ----- email index -----

#[test]
fn lookup_hash_is_deterministic_and_salt_dependent() {
    let a = email_lookup_hash("salt-1", "ann@example.com");
    assert_eq!(a, email_lookup_hash("salt-1", "ann@example.com"));
    assert_ne!(a, email_lookup_hash("salt-2", "ann@example.com"));
    assert_ne!(a, email_lookup_hash("salt-1", "bob@example.com"));
    assert_eq!(general_purpose::STANDARD.decode(&a).unwrap().len(), 32);
}

#[test]
fn lookup_hash_ignores_case_and_surrounding_space() {
    assert_eq!(normalize_email("  Ann@Example.COM \t"), "ann@example.com");
    assert_eq!(
        email_lookup_hash("s", "Ann@Example.com"),
        email_lookup_hash("s", " ann@example.com ")
    );
}

// ----- text helpers -----

#[test]
fn trim_removes_unicode_white_space() {
    assert_eq!(trim("  a b \t\n"), "a b");
    assert_eq!(trim(" \u{3000}\u{a0} "), "");
    assert_eq!(trim(""), "");
    assert_eq!(trim("\u{2003}x\u{2028}"), "x");
    assert_eq!(trim("x"), "x");
}

#[test]
fn str_eq_compares_characters() {
    assert!(str_eq("abc", "abc"));
    assert!(!str_eq("abc", "abd"));
    assert!(!str_eq("abc", "ab"));
    assert!(str_eq("", ""));
}

#[test]
fn decimal_numerals() {
    let mut out = Vec::new();
    push_decimal(0, &mut out);
    assert_eq!(out, b"0");
    let mut out = b"x".to_vec();
    push_decimal(1234567890, &mut out);
    assert_eq!(out, b"x1234567890");
    let mut out = Vec::new();
    push_decimal(u64::MAX, &mut out);
    assert_eq!(out, b"18446744073709551615");
}

// ----- token payload -----

#[test]
fn payload_is_written_exactly() {
    assert_eq!(render_claims(b"ann", 10, 20), br#"{"sub":"ann","exp":20,"iat":10}"#.to_vec());
    assert_eq!(
        render_claims(b"a\"b\\c\n", 0, 1),
        br#"{"sub":"a\"b\\c\u000a","exp":1,"iat":0}"#.to_vec()
    );
}

#[test]
fn payload_reads_back() {
    for (sub, iat, exp) in [
        (&b""[..], 0u64, 0u64),
        (&b"a\"b\\c\n\x1f"[..], 1, 2),
        ("Zoë ✓".as_bytes(), 1700000000, u64::MAX),
    ] {
        let p = render_claims(sub, iat, exp);
        assert_eq!(parse_claims(&p), Some((sub.to_vec(), iat, exp)));
    }
}

#[test]
fn payload_reader_is_strict() {
    for p in [
        &br#"{"sub":"ann","exp":20,"iat":10} "#[..],
        br#"{"sub":"ann", "exp":20,"iat":10}"#,
        br#"{"sub":"ann","exp":,"iat":10}"#,
        br#"{"sub":"ann","exp":18446744073709551616,"iat":10}"#,
        br#"{"sub":"a\qn","exp":20,"iat":10}"#,
        br#"{"sub":"ann","iat":10,"exp":20}"#,
        br#"{"exp":20,"sub":"ann","iat":10}"#,
        b"",
    ] {
        assert_eq!(parse_claims(p), None);
    }
}

// ----- tokens -----

#[test]
fn issued_token_validates_with_its_subject() {
    let t = issue_token("user-7", SECRET, 1000, 86400).unwrap();
    let c = validate_token(&t, SECRET, 1000).unwrap();
    assert_eq!((c.sub.as_str(), c.iat, c.exp), ("user-7", 1000, 87400));
    let c = validate_token(&t, SECRET, 87399).unwrap();
    assert_eq!(c.sub, "user-7");
}

#[test]
fn expired_token_is_invalid() {
    let t = issue_token("user-7", SECRET, 1000, 60).unwrap();
    assert_eq!(validate_token(&t, SECRET, 1060).err(), Some(CustomError::InvalidToken));
    assert_eq!(validate_token(&t, SECRET, 5000).err(), Some(CustomError::InvalidToken));
    assert!(validate_token(&t, SECRET, 1059).is_ok());
}

#[test]
fn token_is_a_standard_hs256_jwt() {
    let t = issue_token("Zoë \"q\"", SECRET, 1000, 60).unwrap();
    assert_eq!(t.split('.').count(), 3);
    let header = general_purpose::URL_SAFE_NO_PAD.decode(t.split('.').next().unwrap()).unwrap();
    assert_eq!(header, br#"{"typ":"JWT","alg":"HS256"}"#.to_vec());
    assert!(t.starts_with("eyJ0eXAiOiJKV1QiLCJhbGciOiJIUzI1NiJ9."));
    let mut v = jsonwebtoken::Validation::new(jsonwebtoken::Algorithm::HS256);
    v.validate_exp = false;
    v.required_spec_claims.clear();
    let data = jsonwebtoken::decode::<serde_json::Value>(
        &t,
        &jsonwebtoken::DecodingKey::from_secret(SECRET.as_bytes()),
        &v,
    )
    .unwrap();
    assert_eq!(data.claims["sub"], "Zoë \"q\"");
    assert_eq!(data.claims["iat"], 1000);
    assert_eq!(data.claims["exp"], 1060);
    assert_eq!(validate_token(&t, SECRET, 1000).unwrap().sub, "Zoë \"q\"");
}

#[test]
fn tampered_or_foreign_tokens_are_invalid() {
    let t = issue_token("user-7", SECRET, 1000, 60).unwrap();
    let other = issue_token("user-8", SECRET, 1000, 60).unwrap();
    let parts: Vec<&str> = t.split('.').collect();
    let other_parts: Vec<&str> = other.split('.').collect();
    let swapped = format!("{}.{}.{}", parts[0], other_parts[1], parts[2]);
    let extra = format!("{}.", t);
    for bad in [swapped.as_str(), extra.as_str(), "a.b.c", "", "..", "abc"] {
        assert_eq!(validate_token(bad, SECRET, 1000).err(), Some(CustomError::InvalidToken));
    }
    assert_eq!(validate_token(&t, "other-secret", 1000).err(), Some(CustomError::InvalidToken));
}

#[test]
fn issue_fails_when_expiry_overflows() {
    assert_eq!(issue_token("u", SECRET, u64::MAX, 1).err(), Some(CustomError::Unknown));
    assert!(issue_token("u", SECRET, u64::MAX - 1, 1).is_ok());
}

// ----- request gate -----

#[test]
fn gate_follows_allow_list_then_header_then_token() {
    let gate = AuthenticationMiddleware::new(SECRET.to_string());
    let t = issue_token("user-7", SECRET, 1000, 60).unwrap();
    let at = |m: &str, p: &str, h: AuthHeader| gate.check(m, p, h, 1000);
    assert!(matches!(at("GET", "/ping", AuthHeader::Missing), GateOutcome::Forwarded(None)));
    assert!(matches!(at("POST", "/register", AuthHeader::Missing), GateOutcome::Forwarded(None)));
    assert!(matches!(at("POST", "/login", AuthHeader::Unreadable), GateOutcome::Forwarded(None)));
    assert!(matches!(at("OPTIONS", "/users", AuthHeader::Missing), GateOutcome::Forwarded(None)));
    assert!(matches!(
        at("GET", "/users", AuthHeader::Missing),
        GateOutcome::Rejected(Rejection::MissingHeader)
    ));
    assert!(matches!(
        at("GET", "/users", AuthHeader::Unreadable),
        GateOutcome::Rejected(Rejection::InvalidHeaderValue)
    ));
    for h in [format!("bearer {}", t), format!("Bearer{}", t), format!("Token {}", t), "Bearer".to_string()] {
        assert!(matches!(
            at("GET", "/users", AuthHeader::Present(h)),
            GateOutcome::Rejected(Rejection::InvalidFormat)
        ));
    }
    let ok = at("GET", "/users", AuthHeader::Present(format!("Bearer   {} \t", t)));
    assert!(matches!(ok, GateOutcome::Forwarded(Some(ref s)) if s == "user-7"));
    let mut tampered = t.clone();
    tampered.push('x');
    assert!(matches!(
        at("GET", "/users", AuthHeader::Present(format!("Bearer {}", tampered))),
        GateOutcome::Rejected(Rejection::InvalidToken)
    ));
    assert!(matches!(
        gate.check("GET", "/users", AuthHeader::Present(format!("Bearer {}", t)), 1060),
        GateOutcome::Rejected(Rejection::InvalidToken)
    ));
}

#[test]
fn bearer_extracts_trimmed_token() {
    assert_eq!(bearer("Bearer  abc  "), Some("abc".to_string()));
    assert_eq!(bearer("Bearer "), Some(String::new()));
    assert_eq!(bearer("Basic abc"), None);
}

// ----- store -----

#[test]
fn register_then_authenticate_with_other_case() {
    let mut db = Database::new(config());
    let id = db
        .register(
            "Ann".to_string(),
            "Lee".to_string(),
            "ann".to_string(),
            "correcthorsebattery".to_string(),
            "Ann@Example.com".to_string(),
        )
        .unwrap();
    let who = db
        .authenticate_user("ann@example.com".to_string(), "correcthorsebattery".to_string())
        .unwrap();
    assert_eq!(who, id);
    let rec = db.find_user_by_email_hash("ANN@example.com").unwrap();
    assert_eq!(rec.id, id);
    assert_eq!(rec.username, "ann");
    let k = config().user_key(&id);
    assert_eq!(decrypt_with_nonce(&k, &rec.encrypted_firstname).unwrap(), "Ann");
    assert_eq!(decrypt_with_nonce(&k, &rec.encrypted_lastname).unwrap(), "Lee");
    assert_eq!(decrypt_with_nonce(&k, &rec.encrypted_email).unwrap(), "Ann@Example.com");
}

#[test]
fn store_rebuilds_from_snapshot_and_refuses_inconsistent_records() {
    let mut db = Database::new(config());
    let id = db
        .register(
            "Ann".to_string(),
            "Lee".to_string(),
            "ann".to_string(),
            "password-1".to_string(),
            "ann@example.com".to_string(),
        )
        .unwrap();
    let saved = db.snapshot();
    assert_eq!(saved.len(), 1);
    let again = Database::from_records(config(), saved).unwrap();
    assert_eq!(
        again.authenticate_user("ANN@example.com".to_string(), "password-1".to_string()),
        Ok(id)
    );
    let mut twice = db.snapshot();
    twice.extend(db.snapshot());
    assert_eq!(Database::from_records(config(), twice).err(), Some(CustomError::DatabaseError));
    assert!(Database::from_records(config(), Vec::new()).unwrap().len() == 0);
}

#[test]
fn store_refuses_duplicates_and_bad_credentials() {
    let mut db = Database::new(config());
    db.register(
        "A".to_string(),
        "B".to_string(),
        "ab".to_string(),
        "password-1".to_string(),
        "a@b.com".to_string(),
    )
    .unwrap();
    let again = db.register(
        "C".to_string(),
        "D".to_string(),
        "cd".to_string(),
        "password-2".to_string(),
        " A@B.COM".to_string(),
    );
    assert_eq!(again, Err(CustomError::UserAlreadyExists));
    let other = db
        .register(
            "C".to_string(),
            "D".to_string(),
            "cd".to_string(),
            "password-2".to_string(),
            "c@d.com".to_string(),
        )
        .unwrap();
    assert_eq!(db.len(), 2);
    let first = db.find_user_by_email_hash("a@b.com").unwrap();
    assert_ne!(first.id, other);
    assert_eq!(db.find_user_by_email_hash("C@D.com").unwrap().password_hash,
        db.find_user_by_email_hash("c@d.com").unwrap().password_hash);
    assert_eq!(
        db.authenticate_user("a@b.com".to_string(), "password-2".to_string()),
        Err(CustomError::InvalidCredentials)
    );
    assert_eq!(
        db.authenticate_user("x@b.com".to_string(), "password-1".to_string()),
        Err(CustomError::InvalidCredentials)
    );
    assert!(db.find_user_by_email_hash("x@b.com").is_none());
}

// ----- server settings and request bodies -----

#[test]
fn port_parsing_falls_back() {
    assert_eq!(parse_server_port("8081"), Ok(8081));
    assert_eq!(parse_server_port("+443"), Ok(443));
    assert_eq!(parse_server_port("0080"), Ok(80));
    assert_eq!(parse_server_port("65535"), Ok(65535));
    for bad in ["65536", "99999999999", "abc", "", "+", "-1", " 80", "80 "] {
        assert_eq!(parse_server_port(bad), Ok(8080));
    }
}

#[test]
fn server_ip_falls_back() {
    assert_eq!(get_server_ip(None), "127.0.0.1");
    assert_eq!(get_server_ip(Some("0.0.0.0".to_string())), "0.0.0.0");
}

#[test]
fn request_bodies_are_checked_field_by_field() {
    let ok = validate_register_request("Ann", "Lee", "ann", "12345678", "ann@example.com");
    assert_eq!(ok, Ok(()));
    assert_eq!(
        validate_register_request("", "Lee", "ann", "12345678", "ann@example.com"),
        Err(vec![RequestError::FirstnameRequired])
    );
    assert_eq!(
        validate_register_request("Ann", "", "ann", "12345678", "ann@example.com"),
        Err(vec![RequestError::LastnameRequired])
    );
    assert_eq!(
        validate_register_request("Ann", "Lee", "", "12345678", "ann@example.com"),
        Err(vec![RequestError::UsernameRequired])
    );
    assert_eq!(
        validate_register_request("Ann", "Lee", "ann", "1234567", "ann@example.com"),
        Err(vec![RequestError::PasswordTooShort])
    );
    assert_eq!(
        validate_register_request("Ann", "Lee", "ann", "12345678", "not-an-email"),
        Err(vec![RequestError::EmailInvalid])
    );
    assert_eq!(
        validate_register_request("", "", "", "short", "nope"),
        Err(vec![
            RequestError::FirstnameRequired,
            RequestError::LastnameRequired,
            RequestError::UsernameRequired,
            RequestError::PasswordTooShort,
            RequestError::EmailInvalid,
        ])
    );
    assert_eq!(validate_login_request("ann@example.com", "12345678"), Ok(()));
    assert_eq!(validate_login_request("ann", "12345678"), Err(vec![RequestError::EmailInvalid]));
    assert_eq!(
        validate_login_request("ann@example.com", "short"),
        Err(vec![RequestError::PasswordTooShort])
    );
    assert_eq!(
        validate_login_request("ann", "short"),
        Err(vec![RequestError::EmailInvalid, RequestError::PasswordTooShort])
    );
}

#[test]
fn errors_have_generic_messages() {
    assert_eq!(CustomError::InvalidToken.message(), "Invalid token");
    assert_eq!(CustomError::InvalidCredentials.message(), "Invalid credentials");
    assert_eq!(EncryptionError::DecryptionError.message(), "Decryption error");
    assert_eq!(CustomError::from(EncryptionError::DecryptionError), CustomError::DecryptionError);
    assert_eq!(CustomError::from(EncryptionError::EncryptionError), CustomError::EncryptionError);
}
