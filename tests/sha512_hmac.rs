use orion_hash::hmac::HmacSha512;
use orion_hash::sha512::Sha512;

fn hex(bytes: &[u8]) -> String {
    bytes.iter().map(|b| format!("{:02x}", b)).collect()
}

#[test]
fn sha512_known_answers() {
    assert_eq!(
        hex(Sha512::digest(b"").unwrap().as_ref()),
        "cf83e1357eefb8bdf1542850d66d8007d620e4050b5715dc83f4a921d36ce9ce47d0d13c5d85f2b0ff8318d2877eec2f63b931bd47417a81a538327af927da3e"
    );
    assert_eq!(
        hex(Sha512::digest(b"abc").unwrap().as_ref()),
        "ddaf35a193617abacc417349ae20413112e6fa4e89a97ea20a9eeee64b55d39a2192992a274fc1a836ba3c23a3feebbd454d4423643ce80e2a9ac94fa54ca49f"
    );
}

#[test]
fn sha512_streaming_and_terminal_flag() {
    let mut state = Sha512::new();
    state.update(b"a").unwrap();
    state.update(b"bc").unwrap();
    let d = state.finalize().unwrap();
    assert!(d == Sha512::digest(b"abc").unwrap());
    assert!(state.finalize().is_err());
    assert!(state.update(b"x").is_err());
    state.reset();
    state.update(b"abc").unwrap();
    assert!(state.finalize().unwrap() == d);
}

#[test]
fn hmac_short_key() {
    let mac = HmacSha512::new(&[0x0bu8; 20]);
    assert_eq!(
        hex(&mac.mac(b"Hi There")),
        "87aa7cdea5ef619d4ff0b4241a1d6cb02379f4e2ce4ec2787ad0b30545e17cdedaa833b7d6b8a702038b274eaea3f4e4be9d914eeb61f1702e696c203a126854"
    );
    let mac = HmacSha512::new(b"Jefe");
    assert_eq!(
        hex(&mac.mac(b"what do ya want for nothing?")),
        "164b7a7bfcf819e2e395fbe73b56e0a387bd64222e831fd610270cd7ea2505549758bf75c05a994a6d034f65f8f0e6fdcaeab1a34d4a6b4b636e070a38bce737"
    );
}

#[test]
fn hmac_key_longer_than_block() {
    let mac = HmacSha512::new(&[0xaau8; 131]);
    assert_eq!(
        hex(&mac.mac(b"Test Using Larger Than Block-Size Key - Hash Key First")),
        "80b24263c7c1a3ebb71493c1dd7be8b49b46d1f41b4aeec1121b013783f8f3526b56d037e05f2598bd0fd2215d6a1e5295e64f73f63f0aec8b915a985d786598"
    );
}
