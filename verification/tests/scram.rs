//! SCRAM-SHA-256 exchanges.

use base64::Engine as _;
use proximadb::scram::exchange::{ScramExchange, constant_time_eq};
use proximadb::scram::messages::{
    ScramError, decode_username, parse_client_final, parse_client_first_bare, parse_gs2_header,
};
use proximadb::scram::password::{
    DEFAULT_ITERATIONS, MECHANISM, NONCE_LEN, ScramVerifier, generate_nonce, nonce_from_bytes,
};
use ring::rand::SystemRandom;

fn base64_encode(data: &[u8]) -> String {
    base64::engine::general_purpose::STANDARD.encode(data)
}

/// RFC 7677 §3 server-side test vector (user `user`, password `pencil`).
const RFC7677_SALT_B64: &str = "W22ZaJ0SNY7soEsUEjb6gQ==";
const RFC7677_CLIENT_FIRST: &str = "n,,n=user,r=rOprNGfwEbeRWgbNEkqO";
const RFC7677_SERVER_FIRST: &str =
    "r=rOprNGfwEbeRWgbNEkqO%hvYDpWUa2RaTCAfuxFIlj)hNlF$k0,s=W22ZaJ0SNY7soEsUEjb6gQ==,i=4096";
const RFC7677_SERVER_NONCE: &str = "%hvYDpWUa2RaTCAfuxFIlj)hNlF$k0";
const RFC7677_CLIENT_FINAL: &str = "c=biws,r=rOprNGfwEbeRWgbNEkqO%hvYDpWUa2RaTCAfuxFIlj)hNlF$k0,p=dHzbZapWIk4jUhN+Ute9ytag9zjfMHgsqmmiz7AndVQ=";
const RFC7677_SERVER_FINAL: &str = "v=6rriTRBi23WpRR/wtup+mMhUZUn/dB5nLTJRsjl95G4=";

fn rfc7677_verifier() -> ScramVerifier {
    let salt = base64::engine::general_purpose::STANDARD
        .decode(RFC7677_SALT_B64)
        .expect("vector salt");
    ScramVerifier::from_password("pencil", &salt, 4096).expect("vector verifier")
}

#[test]
fn rfc7677_full_exchange_verifies() {
    let (exchange, server_first) = ScramExchange::start(
        rfc7677_verifier(),
        RFC7677_CLIENT_FIRST.as_bytes(),
        RFC7677_SERVER_NONCE,
    )
    .expect("client-first parses");
    assert_eq!(server_first, RFC7677_SERVER_FIRST);
    let server_final = exchange
        .finish(RFC7677_CLIENT_FINAL.as_bytes())
        .expect("proof must verify");
    assert_eq!(server_final, RFC7677_SERVER_FINAL);
}

#[test]
fn wrong_password_fails_client_final() {
    let verifier =
        ScramVerifier::from_password("pencil!", &rfc7677_verifier().salt, 4096).unwrap();
    let (exchange, _) = ScramExchange::start(
        verifier,
        RFC7677_CLIENT_FIRST.as_bytes(),
        RFC7677_SERVER_NONCE,
    )
    .expect("client-first parses");
    assert_eq!(
        exchange.finish(RFC7677_CLIENT_FINAL.as_bytes()),
        Err(ScramError::AuthenticationFailed)
    );
}

#[test]
fn tampered_proof_fails() {
    let (exchange, _) = ScramExchange::start(
        rfc7677_verifier(),
        RFC7677_CLIENT_FIRST.as_bytes(),
        RFC7677_SERVER_NONCE,
    )
    .expect("client-first parses");
    // Flip one base64 character in the proof (stays valid base64 — a
    // malformed message is a different failure class).
    let tampered = RFC7677_CLIENT_FINAL.replace("AndVQ=", "AndWA=");
    assert_ne!(tampered, RFC7677_CLIENT_FINAL);
    assert_eq!(
        exchange.finish(tampered.as_bytes()),
        Err(ScramError::AuthenticationFailed)
    );
}

#[test]
fn nonce_mismatch_is_malformed() {
    let (exchange, _) = ScramExchange::start(
        rfc7677_verifier(),
        RFC7677_CLIENT_FIRST.as_bytes(),
        "different-server-nonce",
    )
    .expect("client-first parses");
    assert_eq!(
        exchange.finish(RFC7677_CLIENT_FINAL.as_bytes()),
        Err(ScramError::Malformed)
    );
}

#[test]
fn channel_binding_flag_is_rejected() {
    let result = ScramExchange::start(
        rfc7677_verifier(),
        b"p=tls-server-end-point,,n=user,r=abc",
        "srv",
    );
    assert_eq!(result.err(), Some(ScramError::ChannelBindingUnsupported));
}

#[test]
fn mandatory_extension_is_rejected() {
    let result = ScramExchange::start(
        rfc7677_verifier(),
        b"n,,m=required-thing,n=user,r=abc",
        "srv",
    );
    assert_eq!(result.err(), Some(ScramError::Unsupported));
}

#[test]
fn gs2_y_flag_and_binding_echo_are_accepted() {
    // `y,` (client supports binding but uses none) plus the base64 of the
    // exact gs2 header in `c=`.
    let client_first = "y,,n=user,r=nonceabc";
    let (exchange, _) = ScramExchange::start(
        ScramVerifier::from_password("pw", b"0123456789abcdef", 4096).unwrap(),
        client_first.as_bytes(),
        "srvnonce",
    )
    .expect("client-first parses");
    let c = base64_encode("y,,".as_bytes());
    let proof = base64_encode(&[0u8; 32]);
    let client_final = format!("c={c},r=nonceabcsrvnonce,p={proof}");
    // Wrong proof → AuthenticationFailed (NOT Malformed): the shape was fine.
    assert_eq!(
        exchange.finish(client_final.as_bytes()),
        Err(ScramError::AuthenticationFailed)
    );
}

#[test]
fn mock_verifier_rejects_like_wrong_password() {
    let rng = SystemRandom::new();
    let (exchange, _) = ScramExchange::start(
        ScramVerifier::mock(&rng).expect("mock verifier"),
        RFC7677_CLIENT_FIRST.as_bytes(),
        RFC7677_SERVER_NONCE,
    )
    .expect("client-first parses");
    assert_eq!(
        exchange.finish(RFC7677_CLIENT_FINAL.as_bytes()),
        Err(ScramError::AuthenticationFailed)
    );
}

#[test]
fn generated_nonce_is_printable_and_comma_free() {
    for _ in 0..64 {
        let nonce = generate_nonce().expect("nonce");
        assert_eq!(nonce.len(), NONCE_LEN);
        assert!(!nonce.contains(','));
        assert!(nonce.bytes().all(|b| (0x21..=0x7e).contains(&b)));
    }
}

#[test]
fn malformed_messages_are_malformed() {
    // No gs2 header.
    assert_eq!(
        ScramExchange::start(rfc7677_verifier(), b"n=user,r=abc", "srv").err(),
        Some(ScramError::Malformed)
    );
    // Missing nonce.
    assert_eq!(
        ScramExchange::start(rfc7677_verifier(), b"n,,n=user", "srv").err(),
        Some(ScramError::Malformed)
    );
    // Missing proof.
    let (exchange, _) = ScramExchange::start(
        rfc7677_verifier(),
        RFC7677_CLIENT_FIRST.as_bytes(),
        RFC7677_SERVER_NONCE,
    )
    .unwrap();
    assert_eq!(
        exchange.finish(b"c=biws,r=rOprNGfwEbeRWgbNEkqO%hvYDpWUa2RaTCAfuxFIlj)hNlF$k0"),
        Err(ScramError::Malformed)
    );
}

#[test]
fn the_right_password_is_accepted_whatever_the_salt() {
    let verifier = ScramVerifier::generate("pencil", DEFAULT_ITERATIONS).expect("verifier");
    assert_eq!(verifier.iterations, 4096);
    let again = ScramVerifier::from_password("pencil", &verifier.salt, 4096).expect("verifier");
    assert_eq!(again, verifier);
    let other = ScramVerifier::from_password("pencil", &verifier.salt, 4097).expect("verifier");
    assert_ne!(other.stored_key, verifier.stored_key);
    assert_ne!(other.server_key, other.stored_key);
}

#[test]
fn a_proof_must_be_as_long_as_a_key() {
    let (exchange, _) = ScramExchange::start(
        rfc7677_verifier(),
        RFC7677_CLIENT_FIRST.as_bytes(),
        RFC7677_SERVER_NONCE,
    )
    .expect("client-first parses");
    let client_final = format!(
        "c=biws,r=rOprNGfwEbeRWgbNEkqO{RFC7677_SERVER_NONCE},p={}",
        base64_encode(&[0u8; 31])
    );
    assert_eq!(exchange.finish(client_final.as_bytes()), Err(ScramError::Malformed));
}

#[test]
fn a_wrong_binding_echo_is_refused() {
    let (exchange, _) = ScramExchange::start(
        rfc7677_verifier(),
        RFC7677_CLIENT_FIRST.as_bytes(),
        RFC7677_SERVER_NONCE,
    )
    .expect("client-first parses");
    let tampered = RFC7677_CLIENT_FINAL.replace("c=biws", "c=eSws");
    assert!(exchange.finish(tampered.as_bytes()).is_err());
}

#[test]
fn messages_are_taken_apart() {
    assert_eq!(
        parse_gs2_header("n,,n=u,r=x"),
        Ok(("n,,".to_string(), "n=u,r=x".to_string()))
    );
    assert_eq!(parse_gs2_header("p=x,,n=u"), Err(ScramError::ChannelBindingUnsupported));
    assert_eq!(parse_gs2_header("z,,n=u"), Err(ScramError::Malformed));
    assert_eq!(
        parse_client_first_bare("n=a=2Cb=3Dc,r=x"),
        Ok(("a,b=c".to_string(), "x".to_string()))
    );
    assert_eq!(decode_username("a=2Cb=3Dc"), "a,b=c");
    let proof: Vec<u8> = (0..32).collect();
    let parsed = parse_client_final(&format!("c=biws,r=xy,p={}", base64_encode(&proof)))
        .expect("client-final");
    assert_eq!(parsed.channel_binding, "biws");
    assert_eq!(parsed.nonce, "xy");
    assert_eq!(parsed.proof_bytes, proof);
    assert_eq!(parsed.without_proof, "c=biws,r=xy");
    assert_eq!(parse_client_final("c=biws,r=xy,p=!").err(), Some(ScramError::Malformed));
    assert_eq!(parse_client_final("c=biws,r=xy,p=AAEC").err(), Some(ScramError::Malformed));
    assert_eq!(
        parse_client_final(&format!("m=x,c=biws,r=xy,p={}", base64_encode(&proof))).err(),
        Some(ScramError::Unsupported)
    );
}

#[test]
fn nonces_hold_one_character_for_each_byte() {
    let nonce = nonce_from_bytes(&vec![0, 1, 92, 93, 255]);
    assert_eq!(nonce.len(), 5);
    assert_eq!(nonce.as_bytes()[0], nonce.as_bytes()[3]);
    assert!(!nonce.contains(','));
    assert_eq!(MECHANISM, "SCRAM-SHA-256");
}

#[test]
fn equal_bytes_compare_equal() {
    assert!(constant_time_eq(b"abc", b"abc"));
    assert!(!constant_time_eq(b"abc", b"abd"));
    assert!(!constant_time_eq(b"abc", b"abcd"));
    assert!(constant_time_eq(b"", b""));
}

#[test]
fn mock_verifiers_hold_the_bytes() {
    let (stored, server) = (vec![1u8; 32], vec![2u8; 32]);
    let v = ScramVerifier::mock_from_bytes(vec![3u8; 16], &stored, &server);
    assert_eq!(v.salt, vec![3u8; 16]);
    assert_eq!(v.stored_key, [1u8; 32]);
    assert_eq!(v.server_key, [2u8; 32]);
    assert_eq!(v.iterations, 4096);
}

#[test]
fn mock_verifiers_differ() {
    let rng = SystemRandom::new();
    let a = ScramVerifier::mock(&rng).expect("mock verifier");
    let b = ScramVerifier::mock(&rng).expect("mock verifier");
    assert_ne!(a, b);
    assert_ne!(a.stored_key, a.server_key);
}

#[test]
fn last_messages_are_held_to_every_condition() {
    let finish = |message: &str| {
        let (exchange, _) = ScramExchange::start(
            rfc7677_verifier(),
            RFC7677_CLIENT_FIRST.as_bytes(),
            RFC7677_SERVER_NONCE,
        )
        .expect("client-first parses");
        exchange.finish(message.as_bytes())
    };
    let proof = &RFC7677_CLIENT_FINAL[RFC7677_CLIENT_FINAL.rfind(",p=").unwrap()..];
    let nonce = &RFC7677_SERVER_FIRST[..RFC7677_SERVER_FIRST.find(",s=").unwrap()];
    assert!(finish(&format!("c=biws,{nonce}{proof}")).is_ok());
    assert_eq!(finish(&format!("c=biws,{nonce}")), Err(ScramError::Malformed));
    assert_eq!(finish(&format!("c=biws,{nonce},p=AAAA")), Err(ScramError::Malformed));
    assert_eq!(finish(&format!("c=biws,x,{nonce}{proof}")), Err(ScramError::Malformed));
    assert_eq!(finish(&format!("c=biws,m=1,{nonce}{proof}")), Err(ScramError::Unsupported));
    assert_eq!(finish(&format!("c=biws,{nonce}x{proof}")), Err(ScramError::Malformed));
    assert_eq!(finish(&format!("{nonce}{proof}")), Err(ScramError::Malformed));
    assert_eq!(
        finish(&format!("c=eSws,{nonce}{proof}")),
        Err(ScramError::AuthenticationFailed)
    );
    // An attribute more is signed too.
    assert_eq!(
        finish(&format!("c=biws,{nonce},x=1{proof}")),
        Err(ScramError::AuthenticationFailed)
    );
}
