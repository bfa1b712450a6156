//! Certificates and private keys out of PEM files.
//!
//! The caller reads the file; this module takes its bytes. A certificate
//! file may hold several certificates and must hold one. A key file must
//! hold a PKCS#8 private key; of several, the first is taken.

use vstd::prelude::*;

verus! {

/// A certificate in DER encoding.
#[derive(Debug)]
pub struct Certificate(pub Vec<u8>);

/// A PKCS#8 private key in DER encoding.
#[derive(Debug)]
pub struct PrivateKey(pub Vec<u8>);

/// Why a PEM file gave no certificate or key.
#[derive(Debug, Clone, Copy, PartialEq, Eq, Structural)]
pub enum CertificateError {
    /// The file is not well-formed PEM.
    Malformed,
    /// The file holds no certificate.
    NoCertificates,
    /// The file holds no PKCS#8 private key.
    NoPrivateKey,
}

/// The private key taken from a key file.
#[derive(Debug)]
pub struct KeyChoice {
    /// The first key of the file.
    pub key: PrivateKey,
    /// Whether the file held further keys, which were passed over; the
    /// caller may warn of it.
    pub others_ignored: bool,
}

/// The DER contents of the `CERTIFICATE` sections that
/// `rustls_pemfile::certs` finds in `pem`, in order, or `None` where it
/// reports an error.
pub uninterp spec fn pem_certificates(pem: Seq<u8>) -> Option<Seq<Seq<u8>>>;

/// The DER contents of the `PRIVATE KEY` sections that
/// `rustls_pemfile::pkcs8_private_keys` finds in `pem`, in order, or
/// `None` where it reports an error.
pub uninterp spec fn pem_private_keys(pem: Seq<u8>) -> Option<Seq<Seq<u8>>>;

/// The models of the byte blocks of `blocks`, in order.
pub open spec fn blocks_view(blocks: Seq<Vec<u8>>) -> Seq<Seq<u8>> {
    Seq::new(blocks.len(), |i: int| blocks[i]@)
}

/// The model of optional byte blocks.
pub open spec fn blocks_option_view(blocks: Option<Vec<Vec<u8>>>) -> Option<Seq<Seq<u8>>> {
    match blocks {
        Some(b) => Some(blocks_view(b@)),
        None => None,
    }
}

/// The DER encodings of `certificates`, in order.
pub open spec fn certificates_view(certificates: Seq<Certificate>) -> Seq<Seq<u8>> {
    Seq::new(certificates.len(), |i: int| certificates[i].0@)
}

/// Calls `rustls_pemfile::certs` on the bytes of a PEM file.
///
/// Trusted: what it extracts is a function of the bytes alone.
#[verifier::external_body]
fn extract_certificates(pem: &[u8]) -> (blocks: Option<Vec<Vec<u8>>>)
    ensures
        blocks_option_view(blocks) == pem_certificates(pem@),
{
    let mut reader = pem;
    rustls_pemfile::certs(&mut reader).ok()
}

/// Calls `rustls_pemfile::pkcs8_private_keys` on the bytes of a PEM file.
///
/// Trusted: what it extracts is a function of the bytes alone.
#[verifier::external_body]
fn extract_private_keys(pem: &[u8]) -> (blocks: Option<Vec<Vec<u8>>>)
    ensures
        blocks_option_view(blocks) == pem_private_keys(pem@),
{
    let mut reader = pem;
    rustls_pemfile::pkcs8_private_keys(&mut reader).ok()
}

/// The certificates that a parsed certificate file gives.
pub open spec fn spec_certificates_from(parsed: Option<Seq<Seq<u8>>>) -> Result<
    Seq<Seq<u8>>,
    CertificateError,
> {
    match parsed {
        None => Err(CertificateError::Malformed),
        Some(blocks) => if blocks.len() == 0 {
            Err(CertificateError::NoCertificates)
        } else {
            Ok(blocks)
        },
    }
}

/// The key that a parsed key file gives, and whether further keys were
/// passed over.
pub open spec fn spec_private_key_from(parsed: Option<Seq<Seq<u8>>>) -> Result<
    (Seq<u8>, bool),
    CertificateError,
> {
    match parsed {
        None => Err(CertificateError::Malformed),
        Some(blocks) => if blocks.len() == 0 {
            Err(CertificateError::NoPrivateKey)
        } else {
            Ok((blocks[0], blocks.len() > 1))
        },
    }
}

/// The model of what `load_cert` returns.
pub open spec fn loaded_certificates_view(
    loaded: Result<Vec<Certificate>, CertificateError>,
) -> Result<Seq<Seq<u8>>, CertificateError> {
    match loaded {
        Ok(certificates) => Ok(certificates_view(certificates@)),
        Err(e) => Err(e),
    }
}

/// The model of what `load_private_key` returns.
pub open spec fn loaded_key_view(loaded: Result<KeyChoice, CertificateError>) -> Result<
    (Seq<u8>, bool),
    CertificateError,
> {
    match loaded {
        Ok(choice) => Ok((choice.key.0@, choice.others_ignored)),
        Err(e) => Err(e),
    }
}

/// Turns the sections extracted from a certificate file into
/// certificates.
///
/// `None`, for a file that is not well-formed PEM, is `Malformed`; no
/// section at all is `NoCertificates`; otherwise every section is a
/// certificate, in the order of the file.
pub fn certificates_from(parsed: Option<Vec<Vec<u8>>>) -> (loaded: Result<
    Vec<Certificate>,
    CertificateError,
>)
    ensures
        loaded_certificates_view(loaded) == spec_certificates_from(blocks_option_view(parsed)),
{
    match parsed {
        None => Err(CertificateError::Malformed),
        Some(blocks) => {
            if blocks.len() == 0 {
                return Err(CertificateError::NoCertificates);
            }
            let mut certificates: Vec<Certificate> = Vec::new();
            let mut i: usize = 0;
            while i < blocks.len()
                invariant
                    i <= blocks.len(),
                    certificates.len() == i,
                    forall|j: int| 0 <= j < i ==> (#[trigger] certificates@[j]).0@ == blocks@[j]@,
                decreases blocks.len() - i,
            {
                let der = blocks[i].clone();
                assert(der@ =~= blocks@[i as int]@);
                certificates.push(Certificate(der));
                i += 1;
            }
            assert(certificates_view(certificates@) =~= blocks_view(blocks@));
            Ok(certificates)
        },
    }
}

/// Turns the sections extracted from a key file into the private key to
/// use.
///
/// `None`, for a file that is not well-formed PEM, is `Malformed`; no
/// section at all is `NoPrivateKey`; otherwise the first section is the
/// key, and `others_ignored` tells whether there were more.
pub fn private_key_from(parsed: Option<Vec<Vec<u8>>>) -> (loaded: Result<
    KeyChoice,
    CertificateError,
>)
    ensures
        loaded_key_view(loaded) == spec_private_key_from(blocks_option_view(parsed)),
{
    match parsed {
        None => Err(CertificateError::Malformed),
        Some(blocks) => {
            if blocks.len() == 0 {
                return Err(CertificateError::NoPrivateKey);
            }
            let others_ignored = blocks.len() > 1;
            let mut blocks = blocks;
            let first = blocks.remove(0);
            Ok(KeyChoice { key: PrivateKey(first), others_ignored })
        },
    }
}

/// Reads the certificates of a PEM file from its bytes.
pub fn load_cert(pem: &[u8]) -> (loaded: Result<Vec<Certificate>, CertificateError>)
    ensures
        loaded_certificates_view(loaded) == spec_certificates_from(pem_certificates(pem@)),
{
    certificates_from(extract_certificates(pem))
}

/// Reads the private key of a PEM file from its bytes.
pub fn load_private_key(pem: &[u8]) -> (loaded: Result<KeyChoice, CertificateError>)
    ensures
        loaded_key_view(loaded) == spec_private_key_from(pem_private_keys(pem@)),
{
    private_key_from(extract_private_keys(pem))
}

} // verus!
