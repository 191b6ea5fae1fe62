use orion_hash::pbkdf2::Password;
use orion_hash::pwhash::{hash_password, hash_password_with_salt, verify_password_hash};

#[test]
fn pbkdf2_verify() {
    let password = Password::from_slice(&[0u8; 64]).unwrap();

    let pbkdf2_dk: [u8; 128] = hash_password(&password).unwrap();

    assert_eq!(verify_password_hash(&pbkdf2_dk, &password).unwrap(), true);
}

#[test]
fn pbkdf2_verify_expected_dk_too_long() {
    let password = Password::from_slice(&[0u8; 64]).unwrap();

    let mut pbkdf2_dk = [0u8; 129];
    pbkdf2_dk[..128].copy_from_slice(&hash_password_with_salt(&password, &[1u8; 64]));

    assert!(verify_password_hash(&pbkdf2_dk, &password).is_err());
}

#[test]
fn pbkdf2_verify_expected_dk_too_short() {
    let password = Password::from_slice(&[0u8; 127]).unwrap();

    let pbkdf2_dk = hash_password_with_salt(&password, &[2u8; 64]);

    assert!(verify_password_hash(&pbkdf2_dk[..127], &password).is_err());
}

#[test]
fn modified_salt_does_not_verify() {
    let password = Password::from_slice(b"Secret password").unwrap();
    let mut env = hash_password(&password).unwrap();
    assert_eq!(env.len(), 128);
    assert_eq!(verify_password_hash(&env, &password), Ok(true));
    env[..10].copy_from_slice(&[0x61; 10]);
    assert_eq!(verify_password_hash(&env, &password), Ok(false));
}

#[test]
fn modified_key_does_not_verify() {
    let password = Password::from_slice(&[0u8; 64]).unwrap();
    let mut env = hash_password_with_salt(&password, &[4u8; 64]);
    env[100] ^= 0x01;
    assert_eq!(verify_password_hash(&env, &password), Ok(false));
}

#[test]
fn salt_is_stored_first() {
    let password = Password::from_slice(b"pw").unwrap();
    let env = hash_password_with_salt(&password, &[5u8; 64]);
    assert_eq!(&env[..64], &[5u8; 64][..]);
}

#[test]
fn wrong_length_envelopes_are_refused() {
    let password = Password::from_slice(b"pw").unwrap();
    for len in [0usize, 1, 64, 127, 129, 256].iter() {
        assert!(verify_password_hash(&vec![0u8; *len], &password).is_err());
    }
}
