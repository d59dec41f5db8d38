//! Long-term device identity: trust is pinned to the raw 32-byte Ed25519
//! public key; people compare keys by a short fingerprint.

use vstd::prelude::*;
use crate::crypto::{hex_byte, push_hex_byte, sha256, sha256_digest};
use crate::text::string_from;

verus! {

/// DNS name embedded in every qdrop certificate. The pinning verifier
/// ignores it, but TLS clients require some name.
pub const CERT_DNS_NAME: &'static str = "qdrop.local";

/// The fingerprint text of a digest: its first eight bytes as lowercase
/// hex, in four dash-separated groups of two bytes (`a1b2-c3d4-e5f6-0718`).
pub open spec fn fingerprint_text(d: Seq<u8>) -> Seq<char> {
    hex_byte(d[0]) + hex_byte(d[1]) + seq!['-'] + hex_byte(d[2]) + hex_byte(d[3]) + seq!['-']
        + hex_byte(d[4]) + hex_byte(d[5]) + seq!['-'] + hex_byte(d[6]) + hex_byte(d[7])
}

/// Short human-facing fingerprint of a public key: the fingerprint text of
/// its SHA-256 digest. Shared by `qdrop peers` output and pairing prompts.
pub fn fingerprint_of(public_key: &[u8; 32]) -> (s: String)
    ensures s@ == fingerprint_text(sha256_digest(public_key@)),
{
    let d = sha256(public_key.as_slice());
    let mut v: Vec<char> = Vec::new();
    push_hex_byte(&mut v, d[0]);
    push_hex_byte(&mut v, d[1]);
    v.push('-');
    push_hex_byte(&mut v, d[2]);
    push_hex_byte(&mut v, d[3]);
    v.push('-');
    push_hex_byte(&mut v, d[4]);
    push_hex_byte(&mut v, d[5]);
    v.push('-');
    push_hex_byte(&mut v, d[6]);
    push_hex_byte(&mut v, d[7]);
    proof { assert(v@ =~= fingerprint_text(d@)); }
    string_from(v.as_slice())
}

/// The key pair type of `rcgen`.
#[verifier::external_type_specification]
#[verifier::external_body]
pub struct ExKeyPair(rcgen::KeyPair);

/// The raw public key of the key pair that `rcgen::KeyPair::from_pem`
/// parses out of this text, or `None` when it parses none.
pub uninterp spec fn pem_public_key(pem: Seq<char>) -> Option<Seq<u8>>;

/// `rcgen::KeyPair::from_pem`, and `public_key_raw` of the key pair it
/// parsed: `None` when the text holds no key pair `rcgen` accepts (a
/// PKCS#8 `PRIVATE KEY`), else the key pair with its raw public key.
#[verifier::external_body]
fn key_from_pem(pem: &str) -> (r: Option<(rcgen::KeyPair, Vec<u8>)>)
    ensures
        match r {
            Some((_, raw)) => pem_public_key(pem@) == Some(raw@),
            None => pem_public_key(pem@) is None,
        },
{
    match rcgen::KeyPair::from_pem(pem) {
        Ok(kp) => {
            let raw = kp.public_key_raw().to_vec();
            Some((kp, raw))
        },
        Err(_) => None,
    }
}

/// Why a key file does not make an identity.
#[derive(Debug, Clone, Copy, PartialEq, Eq, Structural)]
pub enum IdentityError {
    /// The text holds no private key that can be parsed.
    Unparsable,
    /// The key is not an Ed25519 key (its raw public key is not 32 bytes).
    NotEd25519,
}

/// A loaded identity: the key pair and its raw 32-byte Ed25519 public key.
pub struct Identity {
    key_pair: rcgen::KeyPair,
    public_key: [u8; 32],
}

impl Identity {
    /// The raw public key, as a sequence.
    pub closed spec fn key(self) -> Seq<u8> {
        self.public_key@
    }

    /// The identity held by a PEM key file's text: an Ed25519 private key.
    pub fn from_pem(pem: &str) -> (r: Result<Identity, IdentityError>)
        ensures
            match pem_public_key(pem@) {
                None => r == Err::<Identity, IdentityError>(IdentityError::Unparsable),
                Some(k) => if k.len() == 32 {
                    r matches Ok(id) && id.key() == k
                } else {
                    r == Err::<Identity, IdentityError>(IdentityError::NotEd25519)
                },
            },
    {
        let (key_pair, raw) = match key_from_pem(pem) {
            Some(p) => p,
            None => return Err(IdentityError::Unparsable),
        };
        if raw.len() != 32 {
            return Err(IdentityError::NotEd25519);
        }
        let mut public_key: [u8; 32] = [0u8; 32];
        let mut i: usize = 0;
        while i < 32
            invariant
                i <= 32,
                raw@.len() == 32,
                forall|j: int| 0 <= j < i ==> public_key@[j] == raw@[j],
            decreases 32 - i,
        {
            public_key[i] = raw[i];
            i += 1;
        }
        proof { assert(public_key@ =~= raw@); }
        Ok(Identity { key_pair, public_key })
    }

    /// The raw 32-byte Ed25519 public key: the pinned identity.
    pub fn public_key(&self) -> (k: [u8; 32])
        ensures k@ == self.key(),
    {
        self.public_key
    }

    /// Short human-facing fingerprint of the public key.
    pub fn fingerprint(&self) -> (s: String)
        ensures s@ == fingerprint_text(sha256_digest(self.key())),
    {
        fingerprint_of(&self.public_key)
    }

    /// The key pair, to sign the certificate built around it.
    pub fn key_pair(&self) -> &rcgen::KeyPair {
        &self.key_pair
    }
}

} // verus!
