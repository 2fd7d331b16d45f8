//! Fingerprints, identities and secrets.

use portmanager::crypto::{
    check_pin, ct_eq_bytes, CertError, Fingerprint, HexFault, Identity, Timing, DEFAULT_KEEP_ALIVE,
    DEFAULT_MAX_IDLE,
};

#[test]
fn fingerprint_roundtrip_and_match() {
    let id = Identity::generate().unwrap();
    let hex = id.fingerprint.to_hex();
    assert_eq!(hex.len(), 64);
    let parsed = Fingerprint::from_hex(&hex).unwrap();
    assert!(parsed.ct_eq(&id.fingerprint));
}

#[test]
fn distinct_identities_differ() {
    let a = Identity::generate().unwrap();
    let b = Identity::generate().unwrap();
    assert!(!a.fingerprint.ct_eq(&b.fingerprint));
}

#[test]
fn from_hex_rejects_bad_length() {
    assert!(Fingerprint::from_hex("abcd").is_err());
    assert!(Fingerprint::from_hex("zz").is_err());
}

#[test]
fn hex_faults_are_told_apart() {
    let short = "ab".repeat(31);
    assert!(matches!(Fingerprint::from_hex(&short), Err(HexFault::WrongLength)));
    let bad = "zz".repeat(32);
    assert!(matches!(Fingerprint::from_hex(&bad), Err(HexFault::NotHex)));
    // Both cases of digits are read; lower case is written.
    let upper = "AB".repeat(32);
    assert_eq!(Fingerprint::from_hex(&upper).unwrap().to_hex(), "ab".repeat(32));
}

#[test]
fn fingerprints_are_sha256() {
    let empty: Vec<u8> = Vec::new();
    assert_eq!(
        Fingerprint::of(&empty).to_hex(),
        "e3b0c44298fc1c149afbf4c8996fb92427ae41e4649b934ca495991b7852b855"
    );
    let abc = b"abc".to_vec();
    assert_eq!(
        Fingerprint::of(&abc).to_hex(),
        "ba7816bf8f01cfea414140de5dae2223b00361a396177a9cb410ff61f20015ad"
    );
}

#[test]
fn a_pinned_certificate_is_told_from_others() {
    let cert = b"cert".to_vec();
    let other = b"other".to_vec();
    let pin = Fingerprint::of(&cert);
    assert!(check_pin(&pin, &cert));
    assert!(!check_pin(&pin, &other));
    let id = Identity::from_parts(cert.clone(), b"key".to_vec());
    assert!(check_pin(&id.fingerprint, &cert));
    assert_eq!(id.key, b"key");
}

#[test]
fn a_generated_identity_is_bound_to_its_certificate() {
    let id = Identity::generate().unwrap();
    assert!(!id.cert.is_empty() && !id.key.is_empty());
    assert!(check_pin(&id.fingerprint, &id.cert));
}

#[test]
fn bytes_compare_by_content() {
    assert!(ct_eq_bytes(b"abc", b"abc"));
    assert!(!ct_eq_bytes(b"abc", b"abd"));
}

#[test]
fn default_timing_notices_a_dead_path() {
    let t = Timing::default();
    assert_eq!((t.keep_alive, t.max_idle), (DEFAULT_KEEP_ALIVE, DEFAULT_MAX_IDLE));
    assert_eq!((t.keep_alive, t.max_idle), (3000, 20000));
}

#[test]
fn an_identity_is_made_of_what_came_back() {
    let id = Identity::made(Ok((b"cert".to_vec(), b"key".to_vec()))).ok().unwrap();
    assert_eq!((id.cert, id.key), (b"cert".to_vec(), b"key".to_vec()));
    assert!(id.fingerprint.ct_eq(&Fingerprint::of(&b"cert".to_vec())));
    assert_eq!(
        Identity::made(Err(rcgen::Error::CouldNotParseCertificate)).err(),
        Some(CertError)
    );
}
