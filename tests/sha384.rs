use orion_hash::sha384::{compare_sha384_states, Digest, Sha384, BLOCKSIZE};

fn hex(bytes: &[u8]) -> String {
    bytes.iter().map(|b| format!("{:02x}", b)).collect()
}

fn one_shot_hex(data: &[u8]) -> String {
    hex(Sha384::digest(data).unwrap().as_ref())
}

#[test]
fn test_default_equals_new() {
    let new = Sha384::new();
    let default = Sha384::default();
    assert!(compare_sha384_states(&new, &default));
}

#[test]
fn test_debug_impl() {
    let initial_state = Sha384::new();
    let debug = initial_state.debug_string();
    let expected = "Sha384 { working_state: [***OMITTED***], buffer: [***OMITTED***], leftover: 0, message_len: [0, 0], is_finalized: false }";
    assert_eq!(debug, expected);
}

#[test]
fn default_consistency_tests() {
    let sizes = [
        0usize,
        1,
        BLOCKSIZE - 1,
        BLOCKSIZE,
        BLOCKSIZE + 1,
        2 * BLOCKSIZE - 1,
        2 * BLOCKSIZE,
        2 * BLOCKSIZE + 1,
        5 * BLOCKSIZE + 17,
    ];
    for &size in sizes.iter() {
        let data: Vec<u8> = (0..size).map(|i| (i % 251) as u8).collect();
        let expected = Sha384::digest(&data).unwrap();

        // Streaming in chunks of every size from 1 to two blocks.
        for chunk in 1..=(2 * BLOCKSIZE) {
            let mut state = Sha384::new();
            for piece in data.chunks(chunk) {
                state.update(piece).unwrap();
            }
            assert!(state.finalize().unwrap() == expected);
        }

        // Empty updates change nothing.
        let mut state = Sha384::new();
        state.update(&[]).unwrap();
        state.update(&data).unwrap();
        state.update(&[]).unwrap();
        assert!(state.finalize().unwrap() == expected);

        // Terminal flag: update and finalize fail after finalize.
        assert!(state.update(&[0u8]).is_err());
        assert!(state.finalize().is_err());

        // Reset brings back the initial state and accepts input again.
        state.reset();
        assert!(compare_sha384_states(&state, &Sha384::new()));
        state.update(&data).unwrap();
        assert!(state.finalize().unwrap() == expected);

        // Reset after updates without finalize.
        let mut state = Sha384::new();
        state.update(&data).unwrap();
        state.reset();
        assert!(compare_sha384_states(&state, &Sha384::new()));
    }
}

#[test]
fn test_mlen_increase_values() {
    let mut context = Sha384::new();

    context.increment_mlen(1);
    assert!(context.message_len() == [0u64, 8u64]);
    context.increment_mlen(17);
    assert!(context.message_len() == [0u64, 144u64]);
    context.increment_mlen(12);
    assert!(context.message_len() == [0u64, 240u64]);
    // Overflow
    context.increment_mlen(u64::MAX / 8);
    assert!(context.message_len() == [1u64, 232u64]);
}

#[test]
fn counter_counts_absorbed_bits() {
    let mut state = Sha384::new();
    state.update(&[7u8; 300]).unwrap();
    assert_eq!(state.message_len(), [0u64, 2400u64]);
    assert_eq!(state.leftover(), 300 - 2 * BLOCKSIZE);
    state.update(&[7u8; 5]).unwrap();
    assert_eq!(state.message_len(), [0u64, 2440u64]);
}

#[test]
fn sha384_empty() {
    assert_eq!(
        one_shot_hex(b""),
        "38b060a751ac96384cd9327eb1b1e36a21fdb71114be07434c0cc7bf63f6e1da274edebfe76f65fbd51ad2f14898b95b"
    );
}

#[test]
fn sha384_abc() {
    assert_eq!(
        one_shot_hex(b"abc"),
        "cb00753f45a35e8bb5a03d699ac65007272c32ab0eded1631a8b605a43ff5bed8086072ba1e7cc2358baeca134c825a7"
    );
}

#[test]
fn sha384_two_block_message() {
    assert_eq!(
        one_shot_hex(b"abcdbcdecdefdefgefghfghighijhijkijkljklmklmnlmnomnopnopq"),
        "3391fdddfc8dc7393707a65b1b4709397cf8b1d162af05abfe8f450de5f36bc6b0455a8520bc4e6f5fe95b1fe3c8452b"
    );
}

#[test]
fn sha384_fips_896_bit_message() {
    assert_eq!(
        one_shot_hex(b"abcdefghbcdefghicdefghijdefghijkefghijklfghijklmghijklmnhijklmnoijklmnopjklmnopqklmnopqrlmnopqrsmnopqrstnopqrstu"),
        "09330c33f71147e83d192fc782cd1b4753111b173b3b05d22fa08086e3b0f712fcc7c71a557e2db966c3e9fa91746039"
    );
}

#[test]
fn digest_from_slice_checks_length() {
    assert!(Digest::from_slice(&[0u8; 47]).is_err());
    assert!(Digest::from_slice(&[0u8; 49]).is_err());
    let d = Digest::from_slice(&[3u8; 48]).unwrap();
    assert_eq!(d.as_ref(), &[3u8; 48][..]);
    assert_eq!(d.len(), 48);
}

fn patterned(len: usize) -> Vec<u8> {
    (0..len).map(|i| ((i * 7 + 3) % 256) as u8).collect()
}

#[test]
fn padding_boundary_lengths() {
    let cases: [(usize, &str); 11] = [
        (0, "38b060a751ac96384cd9327eb1b1e36a21fdb71114be07434c0cc7bf63f6e1da274edebfe76f65fbd51ad2f14898b95b"),
        (1, "8a6c69af6fb6247635f837958446fb8f10e39bd5fbc244f7e635176339a3be614f6394247f01dbe1126c178c7bd48cb5"),
        (111, "341388a9dc2275074e90cf394323761919761c805fd9e370977c9966a0e8c81a52135f02577670b0071638a4a26dbc31"),
        (112, "619cc5d06138526d70659eccf602d197e63e1050e22039a7feb40a30a5b2b08fb03729e291df12f8c576e6f1cd8af22a"),
        (119, "9c284d266fc91c33a7f6ecbb0326646b3ed15cc33fd8bf968267c21991ca1a434dd65c64ee22c7dd6f5423950f605560"),
        (120, "96faef865acb7c55ae34422444b4380e520de69f373ddb14c7ee2420c3f93cc220fca9952c0a4fe9dbfddf350ac40127"),
        (127, "f8234ab81f5f9641c656680825a9bbb3c2616bcc80b65d5e479a4d96742e1b8742330c9e8256ef5f03caa932487044ca"),
        (128, "e8480e9c4dd90f88104a79cbaccec48edbd798a142b4f241d726dc252f1502350e824c7d18dadd59d7d716919fb8f9bf"),
        (129, "430173387764874661acba1e914e50f6d0fbac534809e859b1da4396fad3d5f24c25c6a2d02486d8fbda3994713d981a"),
        (239, "fc75ded15c6080ff96ac03391fc1302ca180128e4b6a4a2f17782f2ec016fc3f79b48b5fed3305fb7fdff9fd29434525"),
        (240, "4c4bc5dae174dd68cb5a62e066e01e339e4980e4a35531b732dcf88e9c579e66f7c0d044779e2eda8a597684ca7cffd6"),
    ];
    for (len, expected) in cases.iter() {
        let data = patterned(*len);
        assert_eq!(one_shot_hex(&data), *expected, "length {}", len);
        let mut state = Sha384::new();
        for byte in data.iter() {
            state.update(&[*byte]).unwrap();
        }
        assert_eq!(hex(state.finalize().unwrap().as_ref()), *expected, "length {}", len);
    }
}
