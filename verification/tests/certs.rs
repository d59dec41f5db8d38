use qdrop::cli::shell_quote;
use qdrop::identity::CERT_DNS_NAME;
use qdrop::peers::{Peer, Peers};
use qdrop::roster::Roster;
use qdrop::tls::{peer_key_from_cert, still_trusted, verify_client_cert, verify_server_cert, CertKeyError, CertVerdict};

fn ed25519_cert() -> (Vec<u8>, [u8; 32]) {
    let kp = rcgen::KeyPair::generate_for(&rcgen::PKCS_ED25519).unwrap();
    let params = rcgen::CertificateParams::new(vec!["qdrop.local".to_string()]).unwrap();
    let cert = params.self_signed(&kp).unwrap();
    let mut key = [0u8; 32];
    key.copy_from_slice(kp.public_key_raw());
    (cert.der().as_ref().to_vec(), key)
}

#[test]
fn certificate_key_is_the_pinned_identity() {
    let (der, key) = ed25519_cert();
    assert_eq!(peer_key_from_cert(&der), Ok(key));
    assert_eq!(verify_server_cert(&der, &key), CertVerdict::Trusted);
    let mut other = key;
    other[0] ^= 1;
    assert_eq!(verify_server_cert(&der, &other), CertVerdict::NotPinned);
}

#[test]
fn unusable_certificates_are_refused() {
    assert_eq!(peer_key_from_cert(&[1, 2, 3]), Err(CertKeyError::Unparsable));
    assert_eq!(verify_server_cert(&[1, 2, 3], &[0u8; 32]), CertVerdict::BadEncoding);

    let kp = rcgen::KeyPair::generate_for(&rcgen::PKCS_ECDSA_P256_SHA256).unwrap();
    let cert = rcgen::CertificateParams::new(vec!["x".to_string()]).unwrap().self_signed(&kp).unwrap();
    assert_eq!(peer_key_from_cert(cert.der().as_ref()), Err(CertKeyError::WrongLength(65)));
}

#[test]
fn client_certificates_are_checked_against_the_roster() {
    let (der, key) = ed25519_cert();
    let peers = Peers { peers: vec![Peer::new("laptop", "dev-a", &key)] };
    let roster = Roster::from_peers(&peers);
    assert_eq!(verify_client_cert(&der, roster.read()), CertVerdict::Trusted);
    assert!(still_trusted(&key, roster.read()));

    let empty = Roster::new();
    assert_eq!(verify_client_cert(&der, empty.read()), CertVerdict::NotPinned);
    assert!(!still_trusted(&key, empty.read()));
}

#[test]
fn shell_quote_keeps_unicode_letters_bare() {
    assert_eq!(shell_quote("café"), "café");
    assert_eq!(shell_quote("a b"), "'a b'");
}

#[test]
fn cert_embeds_the_identity_key() {
    let created = rcgen::KeyPair::generate_for(&rcgen::PKCS_ED25519).unwrap();
    let pem = created.serialize_pem();
    let kp = rcgen::KeyPair::from_pem(&pem).unwrap();
    let cert = rcgen::CertificateParams::new(vec![CERT_DNS_NAME.to_string()]).unwrap().self_signed(&kp).unwrap();
    let key = peer_key_from_cert(cert.der().as_ref()).unwrap();
    assert_eq!(&key[..], kp.public_key_raw());
    assert_eq!(&key[..], created.public_key_raw());
}

#[test]
fn unpairing_revokes_trust() {
    let (der, key) = ed25519_cert();
    let mut peers = Peers::new();
    peers.upsert(Peer::new("laptop", "dev-a", &key));
    peers.upsert(Peer::new("phone", "dev-b", &[9u8; 32]));
    assert!(Roster::from_peers(&peers).read().is_trusted_key(&key));
    assert!(peers.remove_by_name("laptop"));
    let roster = Roster::from_peers(&peers);
    assert!(!roster.read().is_trusted_key(&key));
    assert!(roster.read().is_trusted_key(&[9u8; 32]));
    assert_eq!(verify_client_cert(&der, roster.read()), CertVerdict::NotPinned);
}
