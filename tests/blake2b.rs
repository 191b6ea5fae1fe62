use orion_hash::blake2b::{Blake2b, Digest, SecretKey};

fn hex(bytes: &[u8]) -> String {
    bytes.iter().map(|b| format!("{:02x}", b)).collect()
}

/// Copies as much of `input` (from `start`) as fits into `dst`.
fn apply_from_input_fixed(dst: &mut [u8], input: &[u8], start: usize) {
    let available = input.len().saturating_sub(start);
    let n = available.min(dst.len());
    dst[..n].copy_from_slice(&input[start..start + n]);
}

fn trailing_updates(data: &[u8], mut feed: impl FnMut(&[u8])) {
    if data.len() > 512 {
        feed(b"");
    }
    if data.len() > 1028 {
        feed(b"Extra");
    }
    if data.len() > 2049 {
        feed(&[0u8; 256]);
    }
}

fn fuzz_blake2b_non_keyed(data: &[u8], outsize: usize) {
    let mut context = blake2_rfc::blake2b::Blake2b::new(outsize);
    context.update(data);

    let mut state = Blake2b::new(None, outsize).unwrap();
    state.update(data).unwrap();

    trailing_updates(data, |extra| context.update(extra));
    trailing_updates(data, |extra| state.update(extra).unwrap());

    let other_hash = context.finalize();
    let own_hash = state.finalize().unwrap();

    assert_eq!(other_hash.as_bytes(), own_hash.as_ref());
}

fn fuzz_blake2b_keyed(data: &[u8], outsize: usize) {
    let mut key = [0u8; 64];
    apply_from_input_fixed(&mut key, data, 0);
    let own_key = SecretKey::from_slice(&key).unwrap();

    let mut context = blake2_rfc::blake2b::Blake2b::with_key(outsize, &key);
    context.update(data);

    let mut state = Blake2b::new(Some(&own_key), outsize).unwrap();
    state.update(data).unwrap();

    trailing_updates(data, |extra| context.update(extra));
    trailing_updates(data, |extra| state.update(extra).unwrap());

    let other_hash = context.finalize();
    let own_hash = state.finalize().unwrap();

    assert_eq!(other_hash.as_bytes(), own_hash.as_ref());
}

fn inputs() -> Vec<Vec<u8>> {
    let lengths = [0usize, 1, 3, 64, 127, 128, 129, 255, 256, 257, 513, 1029, 2050];
    lengths
        .iter()
        .map(|&len| (0..len).map(|i| ((i * 31 + len) % 256) as u8).collect())
        .collect()
}

#[test]
fn blake2b_agrees_with_reference_unkeyed() {
    for data in inputs().iter() {
        for outsize in 1..65 {
            fuzz_blake2b_non_keyed(data, outsize);
        }
    }
}

#[test]
fn blake2b_agrees_with_reference_keyed() {
    for data in inputs().iter() {
        for outsize in 1..65 {
            fuzz_blake2b_keyed(data, outsize);
        }
    }
}

#[test]
fn blake2b_short_keys_agree_with_reference() {
    for key_len in [1usize, 7, 32, 63, 64].iter() {
        let key: Vec<u8> = (0..*key_len).map(|i| (i * 5 + 1) as u8).collect();
        let own_key = SecretKey::from_slice(&key).unwrap();
        for data in inputs().iter() {
            let mut context = blake2_rfc::blake2b::Blake2b::with_key(64, &key);
            context.update(data);
            let mut state = Blake2b::new(Some(&own_key), 64).unwrap();
            state.update(data).unwrap();
            assert_eq!(context.finalize().as_bytes(), state.finalize().unwrap().as_ref());
        }
    }
}

#[test]
fn blake2b_64_empty() {
    let mut state = Blake2b::new(None, 64).unwrap();
    let digest = state.finalize().unwrap();
    assert_eq!(
        hex(digest.as_ref()),
        "786a02f742015903c6c6fd852552d272912f4740e15847618a86e217f71f5419d25e1031afee585313896444934eb04b903a685b1448b755d56f701afe9be2ce"
    );
    assert_eq!(blake2_rfc::blake2b::blake2b(64, &[], b"").as_bytes(), digest.as_ref());
}

#[test]
fn blake2b_512_abc() {
    let mut state = Blake2b::new(None, 64).unwrap();
    state.update(b"abc").unwrap();
    assert_eq!(
        hex(state.finalize().unwrap().as_ref()),
        "ba80a53f981c4d0d6a2797b69f12f6e94c212f14685ac4b74b12bb6fdbffa2d17d87c5392aab792dc252d5de4533cc9518d38aa8dbf1925ab92386edd4009923"
    );
}

#[test]
fn blake2b_streaming_in_chunks() {
    let data: Vec<u8> = (0..700).map(|i| (i % 256) as u8).collect();
    let mut whole = Blake2b::new(None, 48).unwrap();
    whole.update(&data).unwrap();
    let expected = whole.finalize().unwrap();
    for chunk in [1usize, 7, 127, 128, 129, 300].iter() {
        let mut state = Blake2b::new(None, 48).unwrap();
        for piece in data.chunks(*chunk) {
            state.update(piece).unwrap();
        }
        assert!(state.finalize().unwrap() == expected);
    }
}

#[test]
fn blake2b_sizes_and_terminal_flag() {
    assert!(Blake2b::new(None, 0).is_err());
    assert!(Blake2b::new(None, 65).is_err());
    assert!(SecretKey::from_slice(&[]).is_err());
    assert!(SecretKey::from_slice(&[1u8; 65]).is_err());
    assert!(Digest::from_slice(&[]).is_err());
    assert!(Digest::from_slice(&[1u8; 65]).is_err());
    assert_eq!(Digest::from_slice(&[2u8; 20]).unwrap().len(), 20);

    let mut state = Blake2b::new(None, 32).unwrap();
    state.update(b"data").unwrap();
    let first = state.finalize().unwrap();
    assert!(state.finalize().is_err());
    assert!(state.update(b"more").is_err());
    state.reset(None).unwrap();
    state.update(b"data").unwrap();
    assert!(state.finalize().unwrap() == first);
}

#[test]
fn blake2b_reset_checks_key_presence() {
    let key = SecretKey::from_slice(&[9u8; 32]).unwrap();
    let mut keyed = Blake2b::new(Some(&key), 64).unwrap();
    assert!(keyed.reset(None).is_err());
    assert!(keyed.reset(Some(&key)).is_ok());
    let mut plain = Blake2b::new(None, 64).unwrap();
    assert!(plain.reset(Some(&key)).is_err());
    assert!(plain.reset(None).is_ok());
}
