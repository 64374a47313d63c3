use flax::tls::{
    check_certs, check_config, check_private_key, load_certs, load_private_key, server_config, tls_config,
    KeyFormat, PrivateKey, TlsError,
};

/// A certificate for an Ed25519 key, with a blank signature.
const CERT: [u8; 241] = [
    0x30, 0x81, 0xee, 0x30, 0x81, 0xa1, 0xa0, 0x03, 0x02, 0x01, 0x02, 0x02,
    0x01, 0x01, 0x30, 0x05, 0x06, 0x03, 0x2b, 0x65, 0x70, 0x30, 0x14, 0x31,
    0x12, 0x30, 0x10, 0x06, 0x03, 0x55, 0x04, 0x03, 0x0c, 0x09, 0x6c, 0x6f,
    0x63, 0x61, 0x6c, 0x68, 0x6f, 0x73, 0x74, 0x30, 0x1e, 0x17, 0x0d, 0x32,
    0x30, 0x30, 0x31, 0x30, 0x31, 0x30, 0x30, 0x30, 0x30, 0x30, 0x30, 0x5a,
    0x17, 0x0d, 0x34, 0x39, 0x31, 0x32, 0x33, 0x31, 0x32, 0x33, 0x35, 0x39,
    0x35, 0x39, 0x5a, 0x30, 0x14, 0x31, 0x12, 0x30, 0x10, 0x06, 0x03, 0x55,
    0x04, 0x03, 0x0c, 0x09, 0x6c, 0x6f, 0x63, 0x61, 0x6c, 0x68, 0x6f, 0x73,
    0x74, 0x30, 0x2a, 0x30, 0x05, 0x06, 0x03, 0x2b, 0x65, 0x70, 0x03, 0x21,
    0x00, 0xd7, 0x5a, 0x98, 0x01, 0x82, 0xb1, 0x0a, 0xb7, 0xd5, 0x4b, 0xfe,
    0xd3, 0xc9, 0x64, 0x07, 0x3a, 0x0e, 0xe1, 0x72, 0xf3, 0xda, 0xa6, 0x23,
    0x25, 0xaf, 0x02, 0x1a, 0x68, 0xf7, 0x07, 0x51, 0x1a, 0xa3, 0x18, 0x30,
    0x16, 0x30, 0x14, 0x06, 0x03, 0x55, 0x1d, 0x11, 0x04, 0x0d, 0x30, 0x0b,
    0x82, 0x09, 0x6c, 0x6f, 0x63, 0x61, 0x6c, 0x68, 0x6f, 0x73, 0x74, 0x30,
    0x05, 0x06, 0x03, 0x2b, 0x65, 0x70, 0x03, 0x41, 0x00, 0x00, 0x00, 0x00,
    0x00, 0x00, 0x00, 0x00, 0x00, 0x00, 0x00, 0x00, 0x00, 0x00, 0x00, 0x00,
    0x00, 0x00, 0x00, 0x00, 0x00, 0x00, 0x00, 0x00, 0x00, 0x00, 0x00, 0x00,
    0x00, 0x00, 0x00, 0x00, 0x00, 0x00, 0x00, 0x00, 0x00, 0x00, 0x00, 0x00,
    0x00, 0x00, 0x00, 0x00, 0x00, 0x00, 0x00, 0x00, 0x00, 0x00, 0x00, 0x00,
    0x00, 0x00, 0x00, 0x00, 0x00, 0x00, 0x00, 0x00, 0x00, 0x00, 0x00, 0x00,
    0x00,
];

/// The key that the certificate is for, in PKCS #8.
const KEY: [u8; 48] = [
    0x30, 0x2e, 0x02, 0x01, 0x00, 0x30, 0x05, 0x06, 0x03, 0x2b, 0x65, 0x70,
    0x04, 0x22, 0x04, 0x20, 0x9d, 0x61, 0xb1, 0x9d, 0xef, 0xfd, 0x5a, 0x60,
    0xba, 0x84, 0x4a, 0xf4, 0x92, 0xec, 0x2c, 0xc4, 0x44, 0x49, 0xc5, 0x69,
    0x7b, 0x32, 0x69, 0x19, 0x70, 0x3b, 0xac, 0x03, 0x1c, 0xae, 0x7f, 0x60,
];

/// The same certificate in Base64.
const CERT_TEXT: &str = "MIHuMIGhoAMCAQICAQEwBQYDK2VwMBQxEjAQBgNVBAMMCWxvY2FsaG9zdDAeFw0yMDAxMDEwMDAwMDBaFw00OTEyMzEyMzU5NTlaMBQxEjAQBgNVBAMMCWxvY2FsaG9zdDAqMAUGAytlcAMhANdamAGCsQq31Uv+08lkBzoO4XLz2qYjJa8CGmj3B1EaoxgwFjAUBgNVHREEDTALgglsb2NhbGhvc3QwBQYDK2VwA0EAAAAAAAAAAAAAAAAAAAAAAAAAAAAAAAAAAAAAAAAAAAAAAAAAAAAAAAAAAAAAAAAAAAAAAAAAAAAAAAAAAAAAAA==";

/// The same key in Base64.
const KEY_TEXT: &str = "MC4CAQAwBQYDK2VwBCIEIJ1hsZ3v/VpguoRK9JLsLMREScVpezJpGXA7rAMcrn9g";

fn key(pem: &str) -> PrivateKey {
    match load_private_key(pem.as_bytes()) {
        Ok(key) => key,
        Err(_) => panic!("expected a key"),
    }
}

fn section(label: &str, content: &str) -> String {
    format!("-----BEGIN {}-----\n{}\n-----END {}-----\n", label, content, label)
}

#[test]
fn certificates_in_order() {
    let pem = format!(
        "some text\n{}{}{}",
        section("CERTIFICATE", "aGVsbG8="),
        section("PRIVATE KEY", "a2V5"),
        section("CERTIFICATE", "d29ybGQ="),
    );
    match load_certs(pem.as_bytes()) {
        Ok(certs) => assert_eq!(certs, vec![b"hello".to_vec(), b"world".to_vec()]),
        Err(_) => panic!("expected certificates"),
    }
}

#[test]
fn no_certificates_at_all() {
    match load_certs(b"nothing here") {
        Ok(certs) => assert!(certs.is_empty()),
        Err(_) => panic!("expected no error"),
    }
}

#[test]
fn malformed_certificates() {
    let pem = section("CERTIFICATE", "not base64!");
    assert!(matches!(load_certs(pem.as_bytes()), Err(TlsError::InvalidCertificates(_))));
    let unfinished = "-----BEGIN CERTIFICATE-----\naGVsbG8=\n";
    assert!(matches!(load_certs(unfinished.as_bytes()), Err(TlsError::InvalidCertificates(_))));
}

#[test]
fn private_keys_in_three_formats() {
    for (label, format) in [
        ("RSA PRIVATE KEY", KeyFormat::Pkcs1),
        ("PRIVATE KEY", KeyFormat::Pkcs8),
        ("EC PRIVATE KEY", KeyFormat::Sec1),
    ] {
        let pem = format!("{}{}", section("CERTIFICATE", "aGVsbG8="), section(label, "a2V5"));
        let key = key(&pem);
        assert_eq!(key.format, format);
        assert_eq!(key.der, b"key");
    }
}

#[test]
fn the_first_private_key_counts() {
    let pem = format!("{}{}", section("EC PRIVATE KEY", "a2V5"), section("PRIVATE KEY", "aGVsbG8="));
    let key = key(&pem);
    assert_eq!(key.format, KeyFormat::Sec1);
    assert_eq!(key.der, b"key");
}

#[test]
fn missing_and_malformed_private_keys() {
    let pem = section("CERTIFICATE", "aGVsbG8=");
    assert!(matches!(load_private_key(pem.as_bytes()), Err(TlsError::NoPrivateKey)));
    assert!(matches!(load_private_key(b""), Err(TlsError::NoPrivateKey)));
    let malformed = section("PRIVATE KEY", "not base64!");
    assert!(matches!(load_private_key(malformed.as_bytes()), Err(TlsError::InvalidPrivateKey(_))));
}

fn hex(bytes: &[u8]) -> String {
    let mut out = "0x".to_string();
    for b in bytes {
        out.push_str(&format!("{:02x}", b));
    }
    out
}

#[test]
fn a_matching_pair_is_accepted_and_presented() {
    let key = PrivateKey { format: KeyFormat::Pkcs8, der: KEY.to_vec() };
    match server_config(vec![CERT.to_vec(), b"hello".to_vec()], key) {
        Ok(listener) => {
            let presented = format!("{:?}", listener.into_config().cert_resolver);
            let first = presented.find(&hex(&CERT)).unwrap();
            let second = presented.find(&hex(b"hello")).unwrap();
            assert!(first < second);
        }
        Err(TlsError::Rejected(e)) => panic!("rejected: {}", e),
        Err(_) => panic!("expected a configuration"),
    }
}

#[test]
fn a_mismatched_pair_is_rejected() {
    let mut der = KEY.to_vec();
    der[47] ^= 1;
    let key = PrivateKey { format: KeyFormat::Pkcs8, der };
    assert!(matches!(server_config(vec![CERT.to_vec()], key), Err(TlsError::Rejected(_))));
}

#[test]
fn the_format_of_a_key_matters() {
    let key = PrivateKey { format: KeyFormat::Pkcs1, der: KEY.to_vec() };
    assert!(matches!(server_config(vec![CERT.to_vec()], key), Err(TlsError::Rejected(_))));
}

#[test]
fn a_chain_is_needed() {
    let key = PrivateKey { format: KeyFormat::Pkcs8, der: KEY.to_vec() };
    assert!(matches!(server_config(Vec::new(), key), Err(TlsError::Rejected(_))));
}

#[test]
fn junk_is_rejected() {
    let key = PrivateKey { format: KeyFormat::Sec1, der: b"key".to_vec() };
    assert!(matches!(server_config(vec![b"hello".to_vec()], key), Err(TlsError::Rejected(_))));
}

#[test]
fn files_are_looked_at_in_order() {
    let certs = section("CERTIFICATE", CERT_TEXT);
    let key = section("PRIVATE KEY", KEY_TEXT);
    let broken_certs = section("CERTIFICATE", "not base64!");
    let broken_key = section("PRIVATE KEY", "not base64!");
    assert!(tls_config(certs.as_bytes(), key.as_bytes()).is_ok());
    for key in [key.as_str(), broken_key.as_str(), ""] {
        assert!(matches!(
            tls_config(broken_certs.as_bytes(), key.as_bytes()),
            Err(TlsError::InvalidCertificates(_))
        ));
    }
    assert!(matches!(
        tls_config(certs.as_bytes(), broken_key.as_bytes()),
        Err(TlsError::InvalidPrivateKey(_))
    ));
    assert!(matches!(tls_config(certs.as_bytes(), b""), Err(TlsError::NoPrivateKey)));
    assert!(matches!(tls_config(b"", key.as_bytes()), Err(TlsError::Rejected(_))));
}

#[test]
fn checks_pass_results_on() {
    match check_certs(Ok(vec![b"hello".to_vec()])) {
        Ok(certs) => assert_eq!(certs, vec![b"hello".to_vec()]),
        Err(_) => panic!("expected certificates"),
    }
    let error = || std::io::Error::new(std::io::ErrorKind::InvalidData, "broken");
    match check_certs(Err(error())) {
        Err(TlsError::InvalidCertificates(e)) => assert_eq!(e.to_string(), "broken"),
        _ => panic!("expected an error"),
    }
    assert!(matches!(check_private_key(Ok(None)), Err(TlsError::NoPrivateKey)));
    match check_private_key(Err(error())) {
        Err(TlsError::InvalidPrivateKey(e)) => assert_eq!(e.to_string(), "broken"),
        _ => panic!("expected an error"),
    }
    match check_config(Err(rustls::Error::NoCertificatesPresented)) {
        Err(TlsError::Rejected(e)) => assert_eq!(e, rustls::Error::NoCertificatesPresented),
        _ => panic!("expected an error"),
    }
}
