//! The SOCKS5 handshake, byte by byte.

use portmanager::socks::rep;
use portmanager::socks::{
    negotiate, reply, SocksError, SocksProgress, ATYP_DOMAIN, ATYP_IPV6, METHOD_NONE,
    METHOD_NO_AUTH, VERSION,
};

/// The target that the bytes of a client ask for, and what it is sent back.
fn run(client_to_server: Vec<u8>) -> (Result<(String, u16), SocksError>, Vec<u8>) {
    let (sent, progress) = negotiate(&client_to_server);
    match progress {
        SocksProgress::Target(host, port) => (Ok((host, port)), sent),
        SocksProgress::Failed(e) => (Err(e), sent),
        SocksProgress::Need(n) => panic!("{n} bytes needed"),
    }
}

#[test]
fn connect_ipv4() {
    // greeting: v5, 1 method, no-auth. request: connect, ipv4 127.0.0.1:8080.
    let bytes = vec![
        0x05, 0x01, 0x00, // greeting
        0x05, 0x01, 0x00, 0x01, 127, 0, 0, 1, 0x1f, 0x90, // connect 127.0.0.1:8080
    ];
    let (target, sent) = run(bytes);
    let (host, port) = target.unwrap();
    assert_eq!(host, "127.0.0.1");
    assert_eq!(port, 8080);
    assert_eq!(sent, vec![VERSION, METHOD_NO_AUTH]);
}

#[test]
fn connect_domain_passes_name_through() {
    let name = b"db.internal";
    let mut bytes = vec![
        0x05,
        0x01,
        0x00,
        0x05,
        0x01,
        0x00,
        ATYP_DOMAIN,
        name.len() as u8,
    ];
    bytes.extend_from_slice(name);
    bytes.extend_from_slice(&5432u16.to_be_bytes());
    let (host, port) = run(bytes).0.unwrap();
    assert_eq!(
        host, "db.internal",
        "domain must pass through for remote DNS"
    );
    assert_eq!(port, 5432);
}

#[test]
fn connect_ipv6() {
    let mut bytes = vec![0x05, 0x01, 0x00, 0x05, 0x01, 0x00, ATYP_IPV6];
    bytes.extend_from_slice(&[0, 0, 0, 0, 0, 0, 0, 0, 0, 0, 0, 0, 0, 0, 0, 1]);
    bytes.extend_from_slice(&443u16.to_be_bytes());
    let (host, port) = run(bytes).0.unwrap();
    assert_eq!(host, "::1");
    assert_eq!(port, 443);
}

#[test]
fn rejects_non_connect_command() {
    // BIND (0x02) must be refused with command-not-supported.
    let bytes = vec![0x05, 0x01, 0x00, 0x05, 0x02, 0x00, 0x01, 0, 0, 0, 0, 0, 0];
    let (target, buf) = run(bytes);
    assert!(target.is_err());
    // First two bytes are the method selection, then the 10-byte error reply.
    assert_eq!(buf.len(), 12);
    assert_eq!(&buf[0..2], &[VERSION, METHOD_NO_AUTH]);
    assert_eq!(buf[3], rep::COMMAND_NOT_SUPPORTED);
}

#[test]
fn rejects_no_acceptable_method() {
    // Greeting offers only GSSAPI (0x01), no no-auth.
    let (target, buf) = run(vec![0x05, 0x01, 0x01]);
    assert!(target.is_err());
    assert_eq!(buf, vec![VERSION, METHOD_NONE]);
}

#[test]
fn asks_for_more_until_the_request_is_whole() {
    let bytes = [0x05, 0x01, 0x00, 0x05, 0x01, 0x00, 0x01, 127, 0, 0, 1, 0x1f, 0x90];
    for n in 0..bytes.len() {
        match negotiate(&bytes[..n]).1 {
            SocksProgress::Need(k) => assert!(k > n && k <= bytes.len()),
            other => panic!("{other:?}"),
        }
    }
}

#[test]
fn faults_have_messages() {
    assert_eq!(
        run(vec![0x04, 0x01, 0x00]).0.unwrap_err().message(),
        "unsupported SOCKS version 0x4 (only SOCKS5)"
    );
    let e = run(vec![0x05, 0x01, 0x00, 0x04, 0x01, 0x00, 0x01]).0.unwrap_err();
    assert_eq!(e, SocksError::RequestVersion(4));
    let e = run(vec![0x05, 0x01, 0x00, 0x05, 0x01, 0x00, 0x09]).0.unwrap_err();
    assert_eq!(e.message(), "unsupported SOCKS address type 0x9");
    let e = run(vec![0x05, 0x01, 0x00, 0x05, 0x01, 0x00, 0x03, 1, 0xff, 0, 80]).0.unwrap_err();
    assert!(matches!(e, SocksError::Domain(_)));
    assert_eq!(reply(rep::SUCCESS), vec![5, 0, 0, 1, 0, 0, 0, 0, 0, 0]);
}
