//! Key pinning for mutually authenticated TLS: a peer is trusted iff the
//! raw public key in its certificate is one recorded during pairing. No CA,
//! no trust on first use, no name checking.

use vstd::prelude::*;
use crate::crypto::ct_eq;
use crate::roster::{has_key, RosterInner};

verus! {

/// The subject-public-key bits of a DER certificate, or `None` when the
/// bytes do not parse as an X.509 certificate.
pub uninterp spec fn x509_subject_key(der: Seq<u8>) -> Option<Seq<u8>>;

/// `x509_parser::parse_x509_certificate`, keeping only the certificate's
/// subject-public-key bits: the value named `x509_subject_key` of the DER
/// bytes.
#[verifier::external_body]
fn subject_key_bits(der: &[u8]) -> (r: Option<Vec<u8>>)
    ensures
        match r {
            Some(v) => x509_subject_key(der@) == Some(v@),
            None => x509_subject_key(der@) is None,
        },
{
    match x509_parser::parse_x509_certificate(der) {
        Ok((_, cert)) => Some(cert.public_key().subject_public_key.data.to_vec()),
        Err(_) => None,
    }
}

/// Why a certificate does not yield a pinned key.
#[derive(Debug, Clone, PartialEq, Eq)]
pub enum CertKeyError {
    /// The bytes are not an X.509 certificate.
    Unparsable,
    /// The key is not a 32-byte Ed25519 key; its length.
    WrongLength(usize),
}

/// The raw Ed25519 public key a certificate carries.
pub open spec fn spec_cert_key(der: Seq<u8>) -> Result<Seq<u8>, CertKeyError> {
    match x509_subject_key(der) {
        None => Err(CertKeyError::Unparsable),
        Some(k) => if k.len() == 32 { Ok(k) } else { Err(CertKeyError::WrongLength(k.len() as usize)) },
    }
}

/// Extract the raw Ed25519 public key from a DER certificate.
pub fn peer_key_from_cert(der: &[u8]) -> (r: Result<[u8; 32], CertKeyError>)
    ensures
        match r {
            Ok(k) => spec_cert_key(der@) == Ok::<Seq<u8>, CertKeyError>(k@),
            Err(e) => spec_cert_key(der@) == Err::<Seq<u8>, CertKeyError>(e),
        },
{
    let bits = match subject_key_bits(der) {
        Some(b) => b,
        None => return Err(CertKeyError::Unparsable),
    };
    if bits.len() != 32 {
        return Err(CertKeyError::WrongLength(bits.len()));
    }
    let mut out = [0u8; 32];
    let mut i: usize = 0;
    while i < 32
        invariant
            bits@.len() == 32,
            i <= 32,
            forall|j: int| 0 <= j < i ==> out@[j] == bits@[j],
        decreases 32 - i,
    {
        out[i] = bits[i];
        i += 1;
    }
    assert(out@ =~= bits@);
    Ok(out)
}

/// A pinning verifier's decision about a presented certificate.
#[derive(Debug, Clone, Copy, PartialEq, Eq, Structural)]
pub enum CertVerdict {
    /// The certificate carries a pinned key.
    Trusted,
    /// The certificate carries a key that is not pinned.
    NotPinned,
    /// No usable key could be read from the certificate.
    BadEncoding,
}

/// The dialer's check of the server certificate: trusted iff it carries
/// exactly the key pinned for the peer being dialed.
pub open spec fn spec_server_verdict(der: Seq<u8>, expect: Seq<u8>) -> CertVerdict {
    match spec_cert_key(der) {
        Ok(k) => if k == expect { CertVerdict::Trusted } else { CertVerdict::NotPinned },
        Err(_) => CertVerdict::BadEncoding,
    }
}

/// Decide whether a server certificate matches the key we pinned for it.
pub fn verify_server_cert(der: &[u8], expect: &[u8; 32]) -> (v: CertVerdict)
    ensures v == spec_server_verdict(der@, expect@),
{
    match peer_key_from_cert(der) {
        Ok(k) => if ct_eq(&k, expect) { CertVerdict::Trusted } else { CertVerdict::NotPinned },
        Err(_) => CertVerdict::BadEncoding,
    }
}

/// The acceptor's check of a client certificate: trusted iff it carries a
/// key in the roster.
pub open spec fn spec_client_verdict(der: Seq<u8>, roster: RosterInner) -> CertVerdict {
    match spec_cert_key(der) {
        Ok(k) => if has_key(roster.peers@, k) { CertVerdict::Trusted } else { CertVerdict::NotPinned },
        Err(_) => CertVerdict::BadEncoding,
    }
}

/// Decide whether a client certificate carries a trusted key.
pub fn verify_client_cert(der: &[u8], roster: &RosterInner) -> (v: CertVerdict)
    ensures v == spec_client_verdict(der@, *roster),
{
    match peer_key_from_cert(der) {
        Ok(k) => if roster.is_trusted_key(&k) { CertVerdict::Trusted } else { CertVerdict::NotPinned },
        Err(_) => CertVerdict::BadEncoding,
    }
}

/// After an accepted handshake, a presented key is still trusted only if
/// the (possibly reloaded) roster still lists it.
pub fn still_trusted(key: &[u8; 32], roster: &RosterInner) -> (b: bool)
    ensures b == has_key(roster.peers@, key@),
{
    roster.is_trusted_key(key)
}

} // verus!
