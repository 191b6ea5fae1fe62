use orion_hash::errors::UnknownCryptoError;
use orion_hash::util::{compare_ct, gen_rand_key};

#[test]
fn rand_key_len_ok() {
    let mut dst = [0u8; 64];
    gen_rand_key(&mut dst).unwrap();
}

#[test]
fn rand_key_len_error() {
    let mut dst = [0u8; 0];
    assert!(gen_rand_key(&mut dst).is_err());

    let mut dst = [0u8; 0];
    let err = gen_rand_key(&mut dst).unwrap_err();
    assert_eq!(err, UnknownCryptoError);
}

#[test]
fn rand_key_fills_bytes() {
    let mut a = [0u8; 64];
    let mut b = [0u8; 64];
    gen_rand_key(&mut a).unwrap();
    gen_rand_key(&mut b).unwrap();
    assert!(a != b);
}

#[test]
fn test_ct_eq_ok() {
    let buf_1 = [0x06; 10];
    let buf_2 = [0x06; 10];

    assert_eq!(compare_ct(&buf_1, &buf_2).unwrap(), true);
    assert_eq!(compare_ct(&buf_2, &buf_1).unwrap(), true);
}

#[test]
fn test_ct_eq_diff_len() {
    let buf_1 = [0x06; 10];
    let buf_2 = [0x06; 5];

    assert!(compare_ct(&buf_1, &buf_2).is_err());
    assert!(compare_ct(&buf_2, &buf_1).is_err());
}

#[test]
fn test_ct_ne() {
    let buf_1 = [0x06; 10];
    let buf_2 = [0x76; 10];

    assert!(compare_ct(&buf_1, &buf_2).is_err());
    assert!(compare_ct(&buf_2, &buf_1).is_err());
}

#[test]
fn test_ct_ne_reg() {
    assert!(compare_ct(&[0], &[0, 1]).is_err());
    assert!(compare_ct(&[0, 1], &[0]).is_err());
}

#[test]
fn ct_compare_empty_slices() {
    assert_eq!(compare_ct(&[], &[]), Ok(true));
}
