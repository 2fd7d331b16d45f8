//! The bootstrap handshake, line by line.

use portmanager::crypto::{Fingerprint, Identity};
use portmanager::handshake::{
    error_line, take_line, HandshakeError, Hello, RandomError, Ready, SessionId, Token,
};

/// Reads a stream of lines as the peer does: blank lines are skipped.
fn first_line(stream: &str, tag: &str) -> Result<String, HandshakeError> {
    for line in stream.split_inclusive('\n') {
        if let Some(l) = take_line(line, tag)? {
            return Ok(l);
        }
    }
    take_line("", tag).map(|_| String::new())
}

#[test]
fn hello_roundtrip() {
    let id = Identity::generate().unwrap();
    let hello = Hello {
        client_fp: id.fingerprint,
        token: Token::random().unwrap(),
    };
    let line = first_line(&hello.to_line(), "HELLO").unwrap();
    let got = Hello::parse_line(&line).unwrap();
    assert_eq!(got.client_fp, hello.client_fp);
    assert!(got.token.ct_eq(&hello.token));
}

#[test]
fn ready_roundtrip() {
    let id = Identity::generate().unwrap();
    let ready = Ready {
        udp_port: 51820,
        agent_fp: id.fingerprint,
        session_id: SessionId::random().unwrap(),
        version: "0.1.0".to_string(),
    };
    let line = first_line(&ready.to_line(), "READY").unwrap();
    let got = Ready::parse_line(&line).unwrap();
    assert_eq!(got.udp_port, 51820);
    assert_eq!(got.version, "0.1.0");
    assert!(got.session_id.ct_eq(&ready.session_id));
}

#[test]
fn error_line_surfaces_message() {
    let line = first_line(&error_line("inbound UDP blocked"), "READY").unwrap();
    let err = Ready::parse_line(&line).unwrap_err();
    assert!(err.message().contains("inbound UDP blocked"));
}

#[test]
fn an_error_message_is_surfaced_without_the_space_around_it() {
    for (message, shown) in [("  no  port \t", "no  port"), ("", ""), (" \n ", "")] {
        let line = error_line(message);
        assert_eq!(
            Ready::parse_line(&line).unwrap_err(),
            HandshakeError::Reported(shown.to_string())
        );
        assert_eq!(
            Hello::parse_line(&line).unwrap_err(),
            HandshakeError::Reported(shown.to_string())
        );
    }
}

#[test]
fn secrets_and_fingerprints_are_shown_in_hexadecimal() {
    let hex = "0123456789abcdef".repeat(4);
    let hello = Hello {
        client_fp: Fingerprint::from_hex(&hex).unwrap(),
        token: Token::from_hex(&hex).unwrap(),
    };
    assert_eq!(format!("{:?}", hello.client_fp), format!("Fingerprint({hex})"));
    assert_eq!(format!("{:?}", hello.token), format!("Token({hex})"));
    let id = SessionId::from_hex(&hex[..32]).unwrap();
    assert_eq!(format!("{id:?}"), format!("SessionId({})", &hex[..32]));
    assert_eq!(
        format!("{hello:?}"),
        format!("Hello {{ client_fp: Fingerprint({hex}), token: Token({hex}) }}")
    );
}

#[test]
fn skips_blank_lines_before_tag() {
    let id = Identity::generate().unwrap();
    let ready = Ready {
        udp_port: 1234,
        agent_fp: id.fingerprint,
        session_id: SessionId::random().unwrap(),
        version: "9.9.9".to_string(),
    };
    let line = first_line(&format!("\n\n{}", ready.to_line()), "READY").unwrap();
    assert_eq!(Ready::parse_line(&line).unwrap().udp_port, 1234);
}

#[test]
fn a_closed_pipe_is_an_error() {
    let e = first_line("\n\n", "READY").unwrap_err();
    assert!(matches!(e, HandshakeError::Closed(_)));
    assert!(e.message().contains("READY"));
}

fn hello_line() -> String {
    let fp = Fingerprint::of(&b"cert".to_vec());
    let token = Token::from_bytes([7; 32]);
    Hello { client_fp: fp, token }.to_line()
}

#[test]
fn faults_are_told_apart() {
    let good = hello_line();
    assert!(Hello::parse_line(&good).is_ok());
    assert!(matches!(Ready::parse_line(&good), Err(HandshakeError::WrongTag(..))));
    let other = good.replace(" v2 ", " v1 ");
    assert!(matches!(Hello::parse_line(&other), Err(HandshakeError::VersionMismatch(_))));
    let longer = format!("{good} more");
    assert!(matches!(Hello::parse_line(&longer), Err(HandshakeError::FieldCount(_))));
    let words: Vec<&str> = good.split_whitespace().collect();
    let bad_fp = good.replace(words[2], "00");
    assert!(matches!(Hello::parse_line(&bad_fp), Err(HandshakeError::BadFingerprint(_))));
    let bad_token = good.replace(words[3], "00");
    assert!(matches!(Hello::parse_line(&bad_token), Err(HandshakeError::BadSecret(_, 32))));
}

#[test]
fn a_ready_line_needs_a_port() {
    let ready = Ready {
        udp_port: 51820,
        agent_fp: Fingerprint::of(&b"cert".to_vec()),
        session_id: SessionId::random().unwrap(),
        version: "0.1.0".into(),
    };
    let line = ready.to_line().replace(" 51820 ", " many ");
    assert!(matches!(Ready::parse_line(&line), Err(HandshakeError::BadPort(_))));
}

#[test]
fn secrets_differ_and_roundtrip() {
    let a = Token::random().unwrap();
    let b = Token::random().unwrap();
    assert!(!a.ct_eq(&b));
    assert!(Token::from_hex(&a.to_hex()).unwrap().ct_eq(&a));
    let s = SessionId::random().unwrap();
    assert!(SessionId::from_hex(&s.to_hex()).unwrap().ct_eq(&s));
    assert_eq!(Token::from_bytes([1; 32]).as_bytes(), &[1; 32]);
}

#[test]
fn secrets_are_made_of_what_was_drawn() {
    let t = Token::drawn(Ok(vec![7; 32])).unwrap();
    assert_eq!(t.as_bytes(), &[7u8; 32]);
    assert_eq!(Token::drawn(Err(getrandom::Error::UNSUPPORTED)), Err(RandomError));
    let id = SessionId::drawn(Ok(vec![0xab; 16])).unwrap();
    assert_eq!(id.to_hex(), "ab".repeat(16));
    assert_eq!(SessionId::drawn(Err(getrandom::Error::UNSUPPORTED)), Err(RandomError));
}
