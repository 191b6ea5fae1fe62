use orion_hash::pbkdf2::{derive_key, verify, Password};

fn hex(bytes: &[u8]) -> String {
    bytes.iter().map(|b| format!("{:02x}", b)).collect()
}

fn derive_hex(password: &[u8], salt: &[u8], iterations: usize, len: usize) -> String {
    let password = Password::from_slice(password).unwrap();
    let mut dst = vec![0u8; len];
    derive_key(&password, salt, iterations, &mut dst).unwrap();
    hex(&dst)
}

#[test]
fn pbkdf2_one_iteration() {
    assert_eq!(
        derive_hex(b"password", b"salt", 1, 64),
        "867f70cf1ade02cff3752599a3a53dc4af34c7a669815ae5d513554e1c8cf252c02d470a285a0501bad999bfe943c08f050235d7d68b1da55e63f73b60a57fce"
    );
}

#[test]
fn pbkdf2_two_iterations() {
    assert_eq!(
        derive_hex(b"password", b"salt", 2, 64),
        "e1d9c16aa681708a45f5c7c4e215ceb66e011a2e9f0040713f18aefdb866d53cf76cab2868a39b9f7840edce4fef5a82be67335c77a6068e04112754f27ccf4e"
    );
}

#[test]
fn pbkdf2_4096_iterations() {
    assert_eq!(
        derive_hex(b"password", b"salt", 4096, 64),
        "d197b1b33db0143e018b12f3d1d1479e6cdebdcc97c5c0f87f6902e072f457b5143f30602641b3d55cd335988cb36b84376060ecd532e039b742a239434af2d5"
    );
    assert_eq!(
        derive_hex(b"passwordPASSWORDpassword", b"saltSALTsaltSALTsaltSALTsaltSALTsalt", 4096, 64),
        "8c0511f4c6e597c6ac6315d8f0362e225f3c501495ba23b868c005174dc4ee71115b59f9e60cd9532fa33e0f75aefe30225c583a186cd82bd4daea9724a3d3b8"
    );
}

#[test]
fn pbkdf2_output_spanning_blocks() {
    assert_eq!(
        derive_hex(b"pass", b"NaCl", 3, 100),
        "0265f3b31bc7538f51a9ecf2e323c34e2d8535a99e68d7623dd596f17d604daf55235b296a7e30cbe98734e1ed62bd485f081eea3a3629e76dc05b1481b8360874319e81bf642fc82c041d38a979cfdc95afdd12c77ccde17c723828497553a379fc7db2"
    );
}

#[test]
fn pbkdf2_long_password_is_hashed_first() {
    let password: Vec<u8> = (0..200).map(|i| i as u8).collect();
    assert_eq!(derive_hex(&password, b"salt", 2, 10), "e30abd32995c70687e50");
}

#[test]
fn pbkdf2_rejects_bad_sizes() {
    let password = Password::from_slice(b"password").unwrap();
    let mut dst = [7u8; 64];
    assert!(derive_key(&password, b"salt", 0, &mut dst).is_err());
    assert_eq!(dst, [7u8; 64]);
    let mut empty: [u8; 0] = [];
    assert!(derive_key(&password, b"salt", 1, &mut empty).is_err());
}

#[test]
fn pbkdf2_verify_matches_and_mismatches() {
    let password = Password::from_slice(b"password").unwrap();
    let mut expected = [0u8; 64];
    derive_key(&password, b"salt", 2, &mut expected).unwrap();
    let mut scratch = [0u8; 64];
    assert_eq!(verify(&expected, &password, b"salt", 2, &mut scratch), Ok(true));
    let mut altered = expected;
    altered[5] ^= 1;
    assert_eq!(verify(&altered, &password, b"salt", 2, &mut scratch), Ok(false));
    assert!(verify(&expected[..63], &password, b"salt", 2, &mut scratch).is_err());
}
