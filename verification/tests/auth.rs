use pith::auth::{filename_to_hash, hash_password, hash_to_filename, verify_password};
use pith::error::PithError;

#[test]
fn test_hash_and_verify() {
    let password = "test_password_123";
    let hash = hash_password(password).unwrap();
    assert!(hash.starts_with("$argon2id$"));
    assert!(verify_password(password, &hash).unwrap());
    assert!(!verify_password("wrong_password", &hash).unwrap());
}

#[test]
fn test_hash_to_filename_roundtrip() {
    let password = "roundtrip_test";
    let hash = hash_password(password).unwrap();

    let filename = hash_to_filename(&hash);
    assert!(!filename.contains('$'));
    assert!(filename.starts_with(".argon2id."));

    let recovered = filename_to_hash(&filename);
    assert_eq!(recovered, hash);

    assert!(verify_password(password, &recovered).unwrap());
}

#[test]
fn test_filename_encoding_deterministic() {
    let phc = "$argon2id$v=19$m=19456,t=2,p=1$abcSALT$xyzDIGEST";
    let filename = hash_to_filename(phc);
    assert_eq!(filename, ".argon2id.v=19.m=19456,t=2,p=1.abcSALT.xyzDIGEST");

    let back = filename_to_hash(&filename);
    assert_eq!(back, phc);
}

#[test]
fn test_different_passwords_different_hashes() {
    let h1 = hash_password("password_one").unwrap();
    let h2 = hash_password("password_two").unwrap();
    assert_ne!(h1, h2);
}

#[test]
fn test_verify_invalid_hash_format() {
    let result = verify_password("anything", "not-a-valid-hash");
    assert!(result.is_err());
}

#[test]
fn invalid_hash_is_an_auth_error() {
    match verify_password("anything", "not-a-valid-hash") {
        Err(PithError::Auth { reason }) => assert!(reason.starts_with("invalid hash format: ")),
        other => panic!("unexpected {:?}", other),
    }
}

#[test]
fn hash_starts_with_version() {
    let hash = hash_password("some password").unwrap();
    assert!(hash.starts_with("$argon2id$v=19$"));
}

#[test]
fn filename_encoding_of_plain_text_is_identity() {
    assert_eq!(hash_to_filename("abc"), "abc");
    assert_eq!(filename_to_hash("a.b"), "a$b");
    assert_eq!(hash_to_filename(""), "");
}
