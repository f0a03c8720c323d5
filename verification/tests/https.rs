//! HTTPS set-up, with a certificate that is put together here.

use std::sync::Arc;

use rustls::pki_types::{CertificateDer, ServerName, UnixTime};
use tis::tls::{finish, load_tls_config, TlsError};

/// A seed for an Ed25519 key, and the public key that belongs to it.
const SEED: [u8; 32] = [7; 32];
const PUBLIC: [u8; 32] = [
    234, 74, 108, 99, 226, 156, 82, 10, 190, 245, 80, 123, 19, 46, 197, 249, 149, 71, 118, 174, 190,
    190, 123, 146, 66, 30, 234, 105, 20, 70, 210, 44,
];

fn der(tag: u8, contents: &[&[u8]]) -> Vec<u8> {
    let body = contents.concat();
    let mut out = vec![tag];
    if body.len() < 128 {
        out.push(body.len() as u8);
    } else {
        assert!(body.len() < 256);
        out.extend([0x81, body.len() as u8]);
    }
    out.extend(body);
    out
}

fn certificate() -> Vec<u8> {
    let alg = der(0x30, &[&der(0x06, &[&[43, 101, 112]])]);
    let name = der(0x30, &[]);
    let validity = der(0x30, &[&der(0x17, &[b"250101000000Z"]), &der(0x17, &[b"450101000000Z"])]);
    let spki = der(0x30, &[&alg, &der(0x03, &[&[0], &PUBLIC])]);
    let tbs = der(
        0x30,
        &[
            &der(0xa0, &[&der(0x02, &[&[2]])]),
            &der(0x02, &[&[1]]),
            &alg,
            &name,
            &validity,
            &name,
            &spki,
        ],
    );
    der(0x30, &[&tbs, &alg, &der(0x03, &[&[0], &[0; 64]])])
}

fn key(seed: &[u8; 32]) -> Vec<u8> {
    let alg = der(0x30, &[&der(0x06, &[&[43, 101, 112]])]);
    der(0x30, &[&der(0x02, &[&[0]]), &alg, &der(0x04, &[&der(0x04, &[seed])])])
}

fn base64(data: &[u8]) -> String {
    let digits = b"ABCDEFGHIJKLMNOPQRSTUVWXYZabcdefghijklmnopqrstuvwxyz0123456789+/";
    let mut out = String::new();
    for chunk in data.chunks(3) {
        let n = chunk.iter().fold(0u32, |n, b| (n << 8) | *b as u32) << (8 * (3 - chunk.len()));
        for i in 0..4 {
            if i <= chunk.len() {
                out.push(digits[(n >> (18 - 6 * i)) as usize & 63] as char);
            } else {
                out.push('=');
            }
        }
    }
    out
}

fn pem(label: &str, data: &[u8]) -> Vec<u8> {
    let mut out = format!("-----BEGIN {label}-----\n");
    for line in base64(data).as_bytes().chunks(64) {
        out.push_str(std::str::from_utf8(line).unwrap());
        out.push('\n');
    }
    out.push_str(&format!("-----END {label}-----\n"));
    out.into_bytes()
}

fn cert_pem() -> Vec<u8> {
    pem("CERTIFICATE", &certificate())
}

fn key_pem() -> Vec<u8> {
    pem("PRIVATE KEY", &key(&SEED))
}

fn error(cert: &[u8], key: &[u8]) -> TlsError {
    match load_tls_config(cert, key) {
        Ok(_) => panic!("set up"),
        Err(e) => e,
    }
}

#[test]
fn certificate_and_key_are_taken() {
    let r = load_tls_config(&cert_pem(), &key_pem());
    assert_eq!(r.err().map(|e| e.message()), None);
}

#[test]
fn both_may_stand_in_one_file() {
    let both = [key_pem(), cert_pem()].concat();
    assert!(load_tls_config(&both, &both).is_ok());
}

#[test]
fn key_of_another_certificate() {
    let other = pem("PRIVATE KEY", &key(&[8; 32]));
    let e = error(&cert_pem(), &other);
    assert!(matches!(e, TlsError::Config(_)));
    assert!(!e.message().is_empty());
}

#[test]
fn key_that_is_none() {
    let e = error(&cert_pem(), &pem("PRIVATE KEY", b"nonsense"));
    assert!(matches!(e, TlsError::Config(_)));
}

#[test]
fn no_certificate() {
    assert!(matches!(error(b"", &key_pem()), TlsError::Config(_)));
}

#[test]
fn no_private_key() {
    for file in [Vec::new(), cert_pem(), b"no PEM".to_vec()] {
        let e = error(&cert_pem(), &file);
        assert!(matches!(e, TlsError::NoPrivateKey));
        assert_eq!(e.message(), "no private key found in key file");
    }
}

#[test]
fn broken_certificate_file() {
    let broken = b"-----BEGIN CERTIFICATE-----\n!!!!\n-----END CERTIFICATE-----\n";
    let e = error(broken, &key_pem());
    let expected = rustls_pemfile::certs(&mut &broken[..]).next().unwrap().unwrap_err().to_string();
    assert_eq!(e.message(), expected);
    assert!(matches!(e, TlsError::Certificates(_)));
}

#[test]
fn broken_key_file() {
    let mut broken = key_pem();
    broken[30] = b'!';
    let e = error(&cert_pem(), &broken);
    assert!(matches!(e, TlsError::Key(_)));
}

#[test]
fn the_certificate_file_is_looked_at_first() {
    let broken = b"-----BEGIN CERTIFICATE-----\n!!!!\n-----END CERTIFICATE-----\n";
    assert!(matches!(error(broken, b""), TlsError::Certificates(_)));
}

#[test]
fn what_was_built_is_handed_on() {
    let acceptor = load_tls_config(&cert_pem(), &key_pem()).ok().unwrap();
    let config = acceptor.config().clone();
    let r = finish(Ok(acceptor)).ok().unwrap();
    assert!(Arc::ptr_eq(r.config(), &config));
    match finish(Err("no luck".to_string())) {
        Err(TlsError::Config(e)) => assert_eq!(e, "no luck"),
        _ => panic!("not the error"),
    }
}

/// A client that takes any certificate but looks at the signature, and notes
/// whether it is asked for a certificate of its own.
#[derive(Debug)]
struct Client {
    asked: std::sync::atomic::AtomicBool,
}

fn algorithms() -> rustls::crypto::WebPkiSupportedAlgorithms {
    rustls::crypto::ring::default_provider().signature_verification_algorithms
}

impl rustls::client::danger::ServerCertVerifier for Client {
    fn verify_server_cert(
        &self,
        _: &CertificateDer<'_>,
        _: &[CertificateDer<'_>],
        _: &ServerName<'_>,
        _: &[u8],
        _: UnixTime,
    ) -> Result<rustls::client::danger::ServerCertVerified, rustls::Error> {
        Ok(rustls::client::danger::ServerCertVerified::assertion())
    }

    fn verify_tls12_signature(
        &self,
        message: &[u8],
        cert: &CertificateDer<'_>,
        dss: &rustls::DigitallySignedStruct,
    ) -> Result<rustls::client::danger::HandshakeSignatureValid, rustls::Error> {
        rustls::crypto::verify_tls12_signature(message, cert, dss, &algorithms())
    }

    fn verify_tls13_signature(
        &self,
        message: &[u8],
        cert: &CertificateDer<'_>,
        dss: &rustls::DigitallySignedStruct,
    ) -> Result<rustls::client::danger::HandshakeSignatureValid, rustls::Error> {
        rustls::crypto::verify_tls13_signature(message, cert, dss, &algorithms())
    }

    fn supported_verify_schemes(&self) -> Vec<rustls::SignatureScheme> {
        algorithms().supported_schemes()
    }
}

impl rustls::client::ResolvesClientCert for Client {
    fn resolve(
        &self,
        _: &[&[u8]],
        _: &[rustls::SignatureScheme],
    ) -> Option<Arc<rustls::sign::CertifiedKey>> {
        self.asked.store(true, std::sync::atomic::Ordering::SeqCst);
        None
    }

    fn has_certs(&self) -> bool {
        true
    }
}

#[test]
fn clients_get_the_chain_and_are_asked_for_none() {
    let chain = [cert_pem(), pem("CERTIFICATE", b"first"), pem("CERTIFICATE", b"second")].concat();
    let acceptor = load_tls_config(&chain, &key_pem()).ok().unwrap();
    let client = Arc::new(Client { asked: std::sync::atomic::AtomicBool::new(false) });
    let provider = Arc::new(rustls::crypto::ring::default_provider());
    let config = rustls::ClientConfig::builder_with_provider(provider)
        .with_safe_default_protocol_versions()
        .unwrap()
        .dangerous()
        .with_custom_certificate_verifier(client.clone())
        .with_client_cert_resolver(client.clone());
    let name = ServerName::try_from("localhost").unwrap();
    let mut there = rustls::ClientConnection::new(Arc::new(config), name).unwrap();
    let mut here = rustls::ServerConnection::new(acceptor.config().clone()).unwrap();
    while there.is_handshaking() || here.is_handshaking() {
        let mut sent: Vec<u8> = Vec::new();
        while there.wants_write() {
            there.write_tls(&mut sent).unwrap();
        }
        let mut left: &[u8] = &sent;
        while !left.is_empty() {
            here.read_tls(&mut left).unwrap();
            here.process_new_packets().unwrap();
        }
        let mut sent: Vec<u8> = Vec::new();
        while here.wants_write() {
            here.write_tls(&mut sent).unwrap();
        }
        let mut left: &[u8] = &sent;
        while !left.is_empty() {
            there.read_tls(&mut left).unwrap();
            there.process_new_packets().unwrap();
        }
    }
    let got: Vec<Vec<u8>> =
        there.peer_certificates().unwrap().iter().map(|c| c.to_vec()).collect();
    assert_eq!(got, [certificate(), b"first".to_vec(), b"second".to_vec()]);
    assert!(!client.asked.load(std::sync::atomic::Ordering::SeqCst));
}
