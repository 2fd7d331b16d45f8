//! The header that opens every stream.

use portmanager::proto::{HeaderError, HeaderProgress, StreamHeader, VERSION};

#[test]
fn header_layout_is_stable() {
    // Spot-check the byte layout for a known header.
    let h = StreamHeader {
        ns: String::new(),
        host: "127.0.0.1".into(),
        port: 8888,
    };
    let buf = h.encode().unwrap();
    let mut want = Vec::new();
    want.push(VERSION);
    want.extend_from_slice(&h.port.to_be_bytes());
    want.push(h.host.len() as u8);
    want.extend_from_slice(h.host.as_bytes());
    want.push(0); // empty ns
    assert_eq!(buf, want);
    assert_eq!(buf[0], 1);
    assert_eq!(&buf[1..3], &[0x22, 0xb8]); // 8888
    assert_eq!(buf[3], 9); // len("127.0.0.1")
}

#[test]
fn headers_read_back() {
    let h = StreamHeader {
        ns: "podman:wöb".into(),
        host: "db.internal".into(),
        port: 5432,
    };
    let buf = h.encode().unwrap();
    for n in 0..buf.len() {
        match StreamHeader::decode(&buf[..n]) {
            HeaderProgress::Need(k) => assert!(k > n && k <= buf.len()),
            other => panic!("{other:?}"),
        }
    }
    let mut more = buf.clone();
    more.extend_from_slice(b"payload");
    match StreamHeader::decode(&more) {
        HeaderProgress::Got(got, n) => {
            assert_eq!(got, h);
            assert_eq!(n, buf.len());
        }
        other => panic!("{other:?}"),
    }
}

#[test]
fn faulty_headers_are_refused() {
    let long = StreamHeader {
        ns: String::new(),
        host: "x".repeat(256),
        port: 1,
    };
    assert_eq!(long.encode(), Err(HeaderError::FieldTooLong));
    assert!(matches!(
        StreamHeader::decode(&[9, 0, 0, 0, 0]),
        HeaderProgress::Bad(HeaderError::UnsupportedVersion(9))
    ));
    assert!(matches!(
        StreamHeader::decode(&[1, 0, 80, 1, 0xff, 0]),
        HeaderProgress::Bad(HeaderError::NotUtf8(_))
    ));
    assert_eq!(
        HeaderError::UnsupportedVersion(9).message(),
        "unsupported stream protocol version 9"
    );
    assert_eq!(HeaderError::FieldTooLong.message(), "header field exceeds 255 bytes");
}
