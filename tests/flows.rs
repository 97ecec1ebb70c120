use iam::encryption::{decrypt_with_nonce, encrypt_with_random_nonce};
use iam::hashing::{hash_random_salt, verify_password};
use iam::jwt::{extract_user_id_from_jwt, generate_jwt, validate_jwt};
use iam::keys::{generate_key, Config, DEFAULT_TOKEN_LIFETIME};
use iam::middleware::{AuthHeader, AuthenticationMiddlewareFactory, GateOutcome, Rejection};

fn test_config() -> Config {
    Config::new(
        Some("12345678901234567890123456789012".to_string()),
        Some("static-email-salt".to_string()),
        Some("token-signing-secret".to_string()),
        DEFAULT_TOKEN_LIFETIME,
    )
    .unwrap()
}

#[test]
fn test_hashing_correct() {
    let password = "password123";
    let hashed_password = hash_random_salt(password).unwrap();
    assert!(verify_password(password, &hashed_password).is_ok());
}

#[test]
fn test_hashing_incorrect() {
    let password = "password123";
    let hashed_password = hash_random_salt(password).unwrap();
    assert!(verify_password("wrong_password", &hashed_password).is_err());
}

#[test]
fn test_encryption() {
    let key_bytes: [u8; 32] =
        generate_key(Some("12345678901234567890123456789012".to_string()), "user-1").unwrap();
    let plaintext = "This is a secret message.";
    let encrypted = encrypt_with_random_nonce(&key_bytes, plaintext).unwrap();
    let decrypted = decrypt_with_nonce(&key_bytes, &encrypted).unwrap();
    assert_eq!(plaintext, decrypted);
}

#[test]
fn test_encryption_key_length() {
    let key_bytes: [u8; 32] =
        generate_key(Some("12345678901234567890123456789012".to_string()), "user-1").unwrap();
    assert_eq!(key_bytes.len(), 32);
}

#[test]
fn test_jwt_generation() {
    let config = test_config();
    let user_id = "test_user";
    let token = generate_jwt(user_id.to_string(), &config).unwrap();
    assert!(!token.is_empty());
}

#[test]
fn test_jwt_validation() {
    let config = test_config();
    let user_id = "test_user";
    let token = generate_jwt(user_id.to_string(), &config).unwrap();
    let claims = validate_jwt(&token, &config).unwrap();
    assert_eq!(claims.sub, user_id);
}

#[test]
fn test_jwt_extraction() {
    let config = test_config();
    let user_id = "test_user";
    let token = generate_jwt(user_id.to_string(), &config).unwrap();
    let extracted_user_id = extract_user_id_from_jwt(&token, &config).unwrap();
    assert_eq!(extracted_user_id, user_id);
}

#[test]
fn test_authentication_middleware_valid_token() {
    let config = test_config();
    let user_id = "test_user";
    let token = generate_jwt(user_id.to_string(), &config).unwrap();
    let gate = AuthenticationMiddlewareFactory::new(config.token_secret.clone()).new_transform();
    let header = AuthHeader::Present(format!("Bearer {}", token));
    let outcome = gate.call("GET", "/test", header);
    assert!(matches!(outcome, GateOutcome::Forwarded(Some(ref s)) if s == user_id));
}

#[test]
fn test_authentication_middleware_invalid_token() {
    let config = test_config();
    let gate = AuthenticationMiddlewareFactory::new(config.token_secret.clone()).new_transform();
    let header = AuthHeader::Present("Bearer invalid_token".to_string());
    let outcome = gate.call("GET", "/test", header);
    assert!(matches!(outcome, GateOutcome::Rejected(Rejection::InvalidToken)));
}

#[test]
fn test_authentication_middleware_missing_token() {
    let config = test_config();
    let gate = AuthenticationMiddlewareFactory::new(config.token_secret.clone()).new_transform();
    let outcome = gate.call("GET", "/test", AuthHeader::Missing);
    assert!(matches!(outcome, GateOutcome::Rejected(Rejection::MissingHeader)));
}
