use xmip_core_transport_mysql::handshake::{
    decode_auth_switch, decode_handshake, decode_response, encode_handshake, encode_response,
    scramble, verify, HandshakeResponse41, HandshakeV10, Login, CAPABILITIES, CLIENT_PROTOCOL_41,
    CLIENT_SECURE_CONNECTION, NATIVE_PASSWORD, PROTOCOL_VERSION,
};
use xmip_core_transport_mysql::sha1::{hex, sha1, DIGEST_LENGTH};
use xmip_core_transport_mysql::wire::cstring;

#[test]
fn the_native_password_is_the_documented_scramble() {
    let nonce: Vec<u8> = (1..=20).collect();
    let scrambled = scramble("secret", &nonce);
    assert_eq!(scrambled.len(), DIGEST_LENGTH);
    let mut salted = nonce.clone();
    salted.extend_from_slice(&sha1(&sha1(b"secret")));
    let expected: Vec<u8> = sha1(b"secret")
        .iter()
        .zip(sha1(&salted))
        .map(|(a, b)| a ^ b)
        .collect();
    assert_eq!(hex(&scrambled), hex(&expected));
    assert!(verify("secret", &nonce, &scrambled));
    assert!(!verify("wrong", &nonce, &scrambled));
    assert!(!verify("secret", &[0; 20], &scrambled), "another nonce");
    assert!(scramble("", &nonce).is_empty());
    assert!(verify("", &nonce, &[]));
}

#[test]
fn the_greeting_and_the_response_round_trip() {
    let greeting = HandshakeV10 {
        server_version: "8.4.0 (xmip)".into(),
        connection_id: 42,
        nonce: (b'a'..=b't').collect(),
        capabilities: CAPABILITIES,
        plugin: NATIVE_PASSWORD.into(),
    };
    let bytes = encode_handshake(&greeting);
    assert_eq!(bytes[0], PROTOCOL_VERSION);
    assert_eq!(decode_handshake(&bytes).expect("greeting"), greeting);
    assert!(decode_handshake(&[9, 0]).is_err(), "version 9");
    assert!(decode_handshake(&bytes[..12]).is_err(), "breaks off");

    let response = HandshakeResponse41 {
        capabilities: CAPABILITIES,
        user: "xmip".into(),
        auth_response: scramble("secret", &greeting.nonce),
        database: "orders".into(),
        plugin: NATIVE_PASSWORD.into(),
    };
    let bytes = encode_response(&response);
    assert_eq!(decode_response(&bytes).expect("response"), response);
    assert!(decode_response(&[0, 0, 0, 0]).is_err(), "not 4.1");
    assert!(decode_response(&bytes[..40]).is_err(), "breaks off");

    let no_database = HandshakeResponse41 {
        capabilities: CLIENT_PROTOCOL_41 | CLIENT_SECURE_CONNECTION,
        database: String::new(),
        plugin: NATIVE_PASSWORD.into(),
        ..response
    };
    let bytes = encode_response(&no_database);
    assert_eq!(decode_response(&bytes).expect("older client"), no_database);
}

#[test]
fn an_auth_switch_names_its_plugin_and_nonce() {
    let mut payload = vec![0xfe];
    cstring(&mut payload, "caching_sha2_password");
    payload.extend_from_slice(b"nonce-nonce-nonce-no\0");
    let (plugin, nonce) = decode_auth_switch(&payload).expect("switch");
    assert_eq!(plugin, "caching_sha2_password");
    assert_eq!(nonce, b"nonce-nonce-nonce-no");
    assert!(decode_auth_switch(&[0xfe, b'x']).is_err());
}

#[test]
fn a_login_is_its_user_and_its_password() {
    let login = Login::new("xmip", "secret");
    assert_eq!(login.user, "xmip");
    assert_eq!(login.password, "secret");
}

#[test]
fn an_empty_answer_is_right_for_the_empty_password_alone() {
    assert!(!verify("secret", &[1; 20], &[]));
    assert!(!verify("", &[1; 20], &scramble("secret", &[1; 20])));
}

#[test]
fn the_scramble_of_a_known_nonce_is_these_bytes() {
    let nonce: Vec<u8> = (1..=20).collect();
    let first = sha1(b"secret");
    assert_eq!(hex(&first), "e5e9fa1ba31ecd1ae84f75caaa474f3a663f05f4");
    let scrambled = scramble("secret", &nonce);
    let mut salted = nonce.clone();
    salted.extend_from_slice(&sha1(&first));
    let mask = sha1(&salted);
    let undone: Vec<u8> = scrambled.iter().zip(mask).map(|(a, b)| a ^ b).collect();
    assert_eq!(undone, first);
}

#[test]
fn a_greeting_without_a_plugin_names_the_native_password() {
    let greeting = HandshakeV10 {
        server_version: "5.5".into(),
        connection_id: 7,
        nonce: vec![b'n'; 20],
        capabilities: CLIENT_PROTOCOL_41 | CLIENT_SECURE_CONNECTION,
        plugin: NATIVE_PASSWORD.into(),
    };
    let read = decode_handshake(&encode_handshake(&greeting)).expect("greeting");
    assert_eq!(read.capabilities & CLIENT_PROTOCOL_41, CLIENT_PROTOCOL_41);
    assert_eq!(read.nonce, greeting.nonce);
}
