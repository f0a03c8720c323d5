//! HTTPS set-up from PEM files.

use vstd::prelude::*;

verus! {

/// A certificate.
#[verifier::external_type_specification]
#[verifier::external_body]
pub struct ExCertificateDer<'a>(rustls::pki_types::CertificateDer<'a>);

/// A private key.
#[verifier::external_type_specification]
#[verifier::external_body]
pub struct ExPrivateKeyDer<'a>(rustls::pki_types::PrivateKeyDer<'a>);

/// What takes TLS connections for a server, holding its configuration.
#[verifier::external_type_specification]
#[verifier::external_body]
pub struct ExTlsAcceptor(tokio_rustls::TlsAcceptor);

/// What `rustls_pemfile::certs` yields for the contents of a PEM file: the
/// certificates in it, or the text of the first error.
pub uninterp spec fn certificates_in(pem: Seq<u8>) -> Result<
    Seq<rustls::pki_types::CertificateDer<'static>>,
    Seq<char>,
>;

/// What `rustls_pemfile::private_key` gives for the contents of a PEM file: the
/// first private key in it, none, or the text of the error.
pub uninterp spec fn private_key_in(pem: Seq<u8>) -> Result<
    Option<rustls::pki_types::PrivateKeyDer<'static>>,
    Seq<char>,
>;

/// Whether an acceptor presents the given chain and signs with the given key, as
/// `ConfigBuilder::with_single_cert` sets it up for a key of a supported kind
/// that is not one of another certificate.
pub uninterp spec fn serves_with(
    acceptor: tokio_rustls::TlsAcceptor,
    chain: Seq<rustls::pki_types::CertificateDer<'static>>,
    key: rustls::pki_types::PrivateKeyDer<'static>,
) -> bool;

/// Whether an acceptor asks clients for a certificate. One that is set up by
/// `ConfigBuilder::with_no_client_auth` does not.
pub uninterp spec fn asks_for_client_certificate(acceptor: tokio_rustls::TlsAcceptor) -> bool;

/// Whether building an acceptor from the given chain and key may come to this: an
/// acceptor, or an error with this text. There may be more than one such outcome,
/// for loading some kinds of keys asks the system for random bytes.
pub uninterp spec fn may_build(
    chain: Seq<rustls::pki_types::CertificateDer<'static>>,
    key: rustls::pki_types::PrivateKeyDer<'static>,
    built: Result<tokio_rustls::TlsAcceptor, Seq<char>>,
) -> bool;

/// An acceptor in specifications, or the text of the error.
pub open spec fn built_view(r: Result<tokio_rustls::TlsAcceptor, String>) -> Result<
    tokio_rustls::TlsAcceptor,
    Seq<char>,
> {
    match r {
        Ok(acceptor) => Ok(acceptor),
        Err(e) => Err(e@),
    }
}

/// Why HTTPS could not be set up.
pub enum TlsError {
    /// The certificate file could not be read as PEM.
    Certificates(String),
    /// The key file could not be read as PEM.
    Key(String),
    /// There is no private key in the key file.
    NoPrivateKey,
    /// The certificates and the key make no configuration.
    Config(String),
}

impl TlsError {
    /// What went wrong, in words.
    pub open spec fn text(self) -> Seq<char> {
        match self {
            TlsError::Certificates(e) => e@,
            TlsError::Key(e) => e@,
            TlsError::NoPrivateKey => "no private key found in key file"@,
            TlsError::Config(e) => e@,
        }
    }

    /// What went wrong, in words.
    pub fn message(&self) -> (r: String)
        ensures
            r@ == self.text(),
    {
        match self {
            TlsError::Certificates(e) => e.clone(),
            TlsError::Key(e) => e.clone(),
            TlsError::NoPrivateKey => "no private key found in key file".to_string(),
            TlsError::Config(e) => e.clone(),
        }
    }
}

/// Calls `rustls_pemfile::certs` on the contents of a file and collects what it
/// yields up to the first error.
#[verifier::external_body]
fn read_certificates(pem: &[u8]) -> (r: Result<
    Vec<rustls::pki_types::CertificateDer<'static>>,
    String,
>)
    ensures
        match r {
            Ok(chain) => certificates_in(pem@) == Ok::<
                Seq<rustls::pki_types::CertificateDer<'static>>,
                Seq<char>,
            >(chain@),
            Err(e) => certificates_in(pem@) == Err::<
                Seq<rustls::pki_types::CertificateDer<'static>>,
                Seq<char>,
            >(e@),
        },
{
    let mut rd: &[u8] = pem;
    rustls_pemfile::certs(&mut rd).collect::<Result<Vec<_>, _>>().map_err(|e| e.to_string())
}

/// Calls `rustls_pemfile::private_key` on the contents of a file.
#[verifier::external_body]
fn read_private_key(pem: &[u8]) -> (r: Result<
    Option<rustls::pki_types::PrivateKeyDer<'static>>,
    String,
>)
    ensures
        match r {
            Ok(key) => private_key_in(pem@) == Ok::<
                Option<rustls::pki_types::PrivateKeyDer<'static>>,
                Seq<char>,
            >(key),
            Err(e) => private_key_in(pem@) == Err::<
                Option<rustls::pki_types::PrivateKeyDer<'static>>,
                Seq<char>,
            >(e@),
        },
{
    let mut rd: &[u8] = pem;
    rustls_pemfile::private_key(&mut rd).map_err(|e| e.to_string())
}

/// Builds a `rustls::ServerConfig` over the ring provider, with the default
/// protocol versions and without client authentication, by
/// `ConfigBuilder::with_single_cert`, and puts it into a
/// `tokio_rustls::TlsAcceptor`, which then serves with the chain and the key and
/// asks clients for no certificate. What comes back is an outcome that the chain
/// and the key may have. Which one is not said: loading some kinds of keys asks
/// the system for random bytes, which may fail.
#[verifier::external_body]
fn build_acceptor(
    chain: Vec<rustls::pki_types::CertificateDer<'static>>,
    key: rustls::pki_types::PrivateKeyDer<'static>,
) -> (r: Result<tokio_rustls::TlsAcceptor, String>)
    ensures
        may_build(chain@, key, built_view(r)),
        r matches Ok(acceptor) ==> serves_with(acceptor, chain@, key),
        r matches Ok(acceptor) ==> !asks_for_client_certificate(acceptor),
{
    rustls::ServerConfig::builder_with_provider(rustls::crypto::ring::default_provider().into())
        .with_safe_default_protocol_versions()
        .map_err(|e| e.to_string())?
        .with_no_client_auth()
        .with_single_cert(chain, key)
        .map(|config| tokio_rustls::TlsAcceptor::from(std::sync::Arc::new(config)))
        .map_err(|e| e.to_string())
}

/// Hands on the acceptor that was built, or says why there is none.
pub fn finish(built: Result<tokio_rustls::TlsAcceptor, String>) -> (r: Result<
    tokio_rustls::TlsAcceptor,
    TlsError,
>)
    ensures
        match built {
            Ok(acceptor) => r == Ok::<tokio_rustls::TlsAcceptor, TlsError>(acceptor),
            Err(e) => r matches Err(TlsError::Config(text)) && text@ == e@,
        },
{
    match built {
        Ok(acceptor) => Ok(acceptor),
        Err(e) => Err(TlsError::Config(e)),
    }
}

/// Whether `r` is the outcome for the contents of the two files: the error of the
/// first file that cannot be used, or else what building an acceptor from the
/// chain and the key may come to, an acceptor being one that serves with them, the
/// certificates in the order of the file, and asks clients for no certificate.
pub open spec fn is_outcome(
    cert_pem: Seq<u8>,
    key_pem: Seq<u8>,
    r: Result<tokio_rustls::TlsAcceptor, TlsError>,
) -> bool {
    match certificates_in(cert_pem) {
        Err(e) => r matches Err(TlsError::Certificates(t)) && t@ == e,
        Ok(chain) => match private_key_in(key_pem) {
            Err(e) => r matches Err(TlsError::Key(t)) && t@ == e,
            Ok(None) => r matches Err(TlsError::NoPrivateKey),
            Ok(Some(key)) => match r {
                Ok(acceptor) => {
                    &&& may_build(chain, key, Ok(acceptor))
                    &&& serves_with(acceptor, chain, key)
                    &&& !asks_for_client_certificate(acceptor)
                },
                Err(TlsError::Config(e)) => may_build(chain, key, Err(e@)),
                Err(_) => false,
            },
        },
    }
}

/// Sets HTTPS up from the contents of the certificate file and the key file.
pub fn load_tls_config(cert_pem: &[u8], key_pem: &[u8]) -> (r: Result<
    tokio_rustls::TlsAcceptor,
    TlsError,
>)
    ensures
        is_outcome(cert_pem@, key_pem@, r),
{
    let chain = match read_certificates(cert_pem) {
        Ok(chain) => chain,
        Err(e) => {
            return Err(TlsError::Certificates(e));
        },
    };
    let key = match read_private_key(key_pem) {
        Ok(Some(key)) => key,
        Ok(None) => {
            return Err(TlsError::NoPrivateKey);
        },
        Err(e) => {
            return Err(TlsError::Key(e));
        },
    };
    finish(build_acceptor(chain, key))
}

// --- Laws ---

/// HTTPS is set up just from both files. The certificate file's error comes first,
/// then the key file's; a key file without a key is an error too. Where both can be
/// used, what building gave is handed on: an acceptor that serves with the chain, in
/// the order of the file, and the key, and asks clients for no certificate; or why
/// there is none.
pub proof fn https_is_set_up_from_both_files(
    cert_pem: Seq<u8>,
    key_pem: Seq<u8>,
    r: Result<tokio_rustls::TlsAcceptor, TlsError>,
)
    requires
        is_outcome(cert_pem, key_pem, r),
    ensures
        certificates_in(cert_pem) matches Err(e) ==> (r matches Err(TlsError::Certificates(t)) && t@
            == e),
        certificates_in(cert_pem) is Ok ==> {
            &&& private_key_in(key_pem) matches Err(e) ==> (r matches Err(TlsError::Key(t)) && t@
                == e)
            &&& private_key_in(key_pem) matches Ok(None) ==> (r matches Err(
                TlsError::NoPrivateKey,
            ))
        },
        certificates_in(cert_pem) matches Ok(chain) ==> private_key_in(key_pem) matches Ok(
            Some(key),
        ) ==> match r {
            Ok(a) => may_build(chain, key, Ok(a)) && serves_with(a, chain, key)
                && !asks_for_client_certificate(a),
            Err(e) => e is Config && may_build(chain, key, Err(e.text())),
        },
{
}

/// An error says in words what the outside code said; that there is no key is said in
/// words of its own.
pub proof fn errors_say_what_was_wrong(e: String)
    ensures
        TlsError::Certificates(e).text() == e@,
        TlsError::Key(e).text() == e@,
        TlsError::Config(e).text() == e@,
        TlsError::NoPrivateKey.text() == "no private key found in key file"@,
{
}

} // verus!
