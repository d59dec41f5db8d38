use qdrop::base64::{b64_char_of, decode_key, encode_key};
use qdrop::config::{needs_confirm, Config, ConfirmPolicy, DEFAULT_PORT};
use qdrop::crypto::{ct_eq, gen_pin, hex, hmac_sha256, pin_from_sample, pin_step, sha256, CryptoError, Digester};
use qdrop::device::{generate, is_valid, load_or_create, IdFileOutcome, IdFileRead};
use qdrop::frame::{encode_frame, parse_frame, FrameError, FrameParse, MAX_FRAME_LEN};
use qdrop::identity::{fingerprint_of, Identity, IdentityError};
use qdrop::paths::{config_dir, downloads_dir, socket_path};
use qdrop::peers::{Peer, Peers};
use qdrop::proto::{is_allowed_url, safe_blob_name, Caps, ClipEntry};
use qdrop::roster::{Roster, RosterInner, RosterPeer};
use qdrop::state::{ago, ago_at, now_unix, DaemonState};
use qdrop::store::FileRead;
use qdrop::sysinfo::{mac_string, macs_still_match, normalize_macs};

#[test]
fn pin_is_six_digits() {
    for _ in 0..50 {
        let pin = gen_pin().unwrap();
        assert_eq!(pin.len(), 6);
        assert!(pin.chars().all(|c| c.is_ascii_digit()));
    }
}

#[test]
fn pin_from_sample_keeps_leading_zeros_and_rejects_the_biased_tail() {
    assert_eq!(pin_from_sample(42).as_deref(), Some("000042"));
    assert_eq!(pin_from_sample(1_234_567).as_deref(), Some("234567"));
    assert_eq!(pin_from_sample(4_294_000_000), None);
}

#[test]
fn hmac_detects_tamper() {
    let k = b"key";
    let a = hmac_sha256(k, b"message");
    let b = hmac_sha256(k, b"messagf");
    assert!(!ct_eq(&a, &b));
    assert!(ct_eq(&a, &hmac_sha256(k, b"message")));
}

#[test]
fn sha256_known_answer_and_streaming_agrees() {
    assert_eq!(
        hex(&sha256(b"abc")),
        "ba7816bf8f01cfea414140de5dae2223b00361a396177a9cb410ff61f20015ad"
    );
    let mut d = Digester::start();
    d.feed(b"a");
    d.feed(b"bc");
    assert_eq!(d.finish(), sha256(b"abc"));
}

#[test]
fn caps_intersection() {
    let a = Caps { clipboard_text: true, file_send: true, ..Caps::none() };
    let b = Caps { clipboard_text: true, open_url: true, ..Caps::none() };
    let got = a.intersect(b);
    assert!(got.clipboard_text);
    assert!(!got.file_send);
    assert!(!got.open_url);
}

#[test]
fn caps_intersection_commutes_on_values() {
    let a = Caps { clipboard_text: true, file_send: true, ..Caps::none() };
    let b = Caps { clipboard_text: true, open_url: true, auth: true, ..Caps::none() };
    assert_eq!(a.intersect(b), b.intersect(a));
    assert_eq!(a.intersect(Caps::all()), a);
}

#[test]
fn blob_name_sanitisation() {
    assert_eq!(safe_blob_name("report.pdf").as_deref(), Some("report.pdf"));
    assert_eq!(safe_blob_name("  a b.txt ").as_deref(), Some("a b.txt"));
    for bad in ["../../etc/passwd", "/etc/passwd", "a/b.txt", "..", ".", "", "foo/../bar", r"..\windows"] {
        assert_eq!(safe_blob_name(bad), None, "{bad:?} should be rejected");
    }
}

#[test]
fn url_allowlist() {
    for ok in ["https://example.com", "http://192.168.1.5:8080/path?q=1", "HTTPS://EXAMPLE.COM", "mailto:a@b.com"] {
        assert!(is_allowed_url(ok), "{ok:?} should be allowed");
    }
    for bad in [
        "javascript:alert(1)",
        "file:///etc/passwd",
        "data:text/html,<script>",
        "http:/nohost",
        "https://exa mple.com",
        "https://example.com/\"; rm -rf /",
        "ftp://example.com",
        "",
        "not a url",
        "vbscript:msgbox",
    ] {
        assert!(!is_allowed_url(bad), "{bad:?} should be rejected");
    }
}

#[test]
fn clip_entry_text_helpers() {
    let e = ClipEntry::text("hi");
    assert_eq!(e.as_text(), Some("hi"));
    let bin = ClipEntry { mime: "image/png".into(), data: vec![1, 2, 3] };
    assert_eq!(bin.as_text(), None);
    assert_eq!(bin.as_image(), Some(&[1u8, 2, 3][..]));
}

#[test]
fn builds_both_indexes_and_reloads() {
    let mut peers = Peers::new();
    peers.upsert(Peer::new("a", "id-a", &[1u8; 32]));
    peers.upsert(Peer::new("b", "id-b", &[2u8; 32]));

    let mut roster = Roster::from_peers(&peers);
    {
        let r = roster.read();
        assert_eq!(r.len(), 2);
        assert!(r.is_trusted_id("id-a"));
        assert!(r.is_trusted_key(&[2u8; 32]));
        assert_eq!(r.key_for_id("id-b"), Some([2u8; 32]));
        assert_eq!(r.peer_for_key(&[1u8; 32]).unwrap().name, "a");
    }

    peers.remove_by_name("a");
    roster.load(&peers);
    let r = roster.read();
    assert_eq!(r.len(), 1);
    assert!(!r.is_trusted_id("id-a"));
    assert!(!r.is_trusted_key(&[1u8; 32]));
}

#[test]
fn ago_buckets() {
    let now = now_unix();
    assert!(ago(now.saturating_sub(5)).ends_with("s ago"));
    assert!(ago(now.saturating_sub(120)).ends_with("m ago"));
    assert_eq!(ago(0), "unknown");
}

#[test]
fn ago_at_exact_values() {
    assert_eq!(ago_at(1000, 995), "5s ago");
    assert_eq!(ago_at(1000, 880), "2m ago");
    assert_eq!(ago_at(10_000, 2_800), "2h ago");
    assert_eq!(ago_at(200_000, 0), "unknown");
}

#[test]
fn soft_mac_match() {
    assert!(macs_still_match(&vec![], &vec!["a".into()]));
    assert!(macs_still_match(&vec!["aa:bb".into(), "cc:dd".into()], &vec!["cc:dd".into()]));
    assert!(!macs_still_match(&vec!["aa:bb".into()], &vec![" zz:zz".into()]));
}

#[test]
fn macs_are_sorted_deduplicated_and_zero_free() {
    let raw = vec![[0xaa, 0, 0, 0, 0, 1], [0, 0, 0, 0, 0, 0], [0x0b, 1, 2, 3, 4, 5], [0xaa, 0, 0, 0, 0, 1]];
    assert_eq!(normalize_macs(&raw), vec!["0b:01:02:03:04:05".to_string(), "aa:00:00:00:00:01".to_string()]);
    assert_eq!(mac_string(&[0xde, 0xad, 0xbe, 0xef, 0, 0x10]), "de:ad:be:ef:00:10");
}

#[test]
fn transitions_and_roundtrip() {
    let mut st = DaemonState::new();
    st.mark_online("dev1");
    assert!(st.is_online("dev1"));
    st.mark_offline("dev1");
    assert!(!st.is_online("dev1"));
    assert!(st.last_seen.contains_key("dev1"));
}

#[test]
fn generate_is_well_formed() {
    let id = generate();
    assert!(is_valid(&id), "{id:?}");
}

#[test]
fn persists_and_reloads_same_id() {
    let first = match load_or_create(IdFileRead::Missing) {
        IdFileOutcome::Create(id) => id,
        other => panic!("expected a new id, got {other:?}"),
    };
    let second = load_or_create(IdFileRead::Text(format!("{first}\n")));
    assert_eq!(second, IdFileOutcome::Existing(first));
}

#[test]
fn rejects_corrupt_file() {
    assert_eq!(load_or_create(IdFileRead::Text("not-a-valid-id".into())), IdFileOutcome::Corrupt);
}

#[test]
fn missing_file_yields_defaults() {
    let cfg = Config::load(FileRead::Missing, "host".into()).unwrap();
    assert_eq!(cfg, Config::with_device_name("host".into()));
    assert_eq!(cfg.port, DEFAULT_PORT);
}

#[test]
fn missing_file_is_empty_registry() {
    let peers = Peers::load(FileRead::Missing).unwrap();
    assert!(peers.is_empty());
}

#[test]
fn confirm_policy_gates() {
    assert!(!needs_confirm(ConfirmPolicy::Off, false));
    assert!(needs_confirm(ConfirmPolicy::On, false));
    assert!(!needs_confirm(ConfirmPolicy::On, true));
    assert!(needs_confirm(ConfirmPolicy::Strict, true));
    assert_eq!(ConfirmPolicy::from_flag(true), ConfirmPolicy::On);
}

#[test]
fn key_roundtrips_through_base64() {
    let k = [7u8; 32];
    let s = encode_key(&k);
    assert_eq!(s, "BwcHBwcHBwcHBwcHBwcHBwcHBwcHBwcHBwcHBwcHBwc");
    assert_eq!(decode_key(&s), Some(k));
    assert_eq!(decode_key("not base64"), None);
    let p = Peer::new("n", "id", &k);
    assert_eq!(p.key_bytes().ok(), Some(k));
}

#[test]
fn fingerprint_is_hex_of_digest_prefix() {
    assert_eq!(fingerprint_of(&[0u8; 32]), "6668-7aad-f862-bd77");
}

#[test]
fn roundtrip_over_duplex() {
    let body = vec![1u8, 2, 3, 4, 5];
    let framed = encode_frame(&body).unwrap();
    assert_eq!(&framed[..4], &[0, 0, 0, 5]);
    assert_eq!(parse_frame(&framed), FrameParse::Complete { len: 5 });
    assert_eq!(&framed[4..], &body[..]);
}

#[test]
fn multiple_frames_stay_aligned() {
    let mut buf = Vec::new();
    for seq in 0..5u8 {
        buf.extend(encode_frame(&vec![seq; seq as usize + 1]).unwrap());
    }
    let mut off = 0;
    for seq in 0..5u8 {
        match parse_frame(&buf[off..]) {
            FrameParse::Complete { len } => {
                assert_eq!(&buf[off + 4..off + 4 + len], &vec![seq; seq as usize + 1][..]);
                off += 4 + len;
            }
            other => panic!("frame {seq}: {other:?}"),
        }
    }
    assert_eq!(off, buf.len());
}

#[test]
fn clean_eof_reports_closed() {
    assert_eq!(parse_frame(&[]), FrameParse::NeedMore);
    assert_eq!(parse_frame(&[0, 0, 0, 9, 1]), FrameParse::NeedMore);
    assert!(FrameError::Closed.is_disconnect());
}

#[test]
fn oversize_length_is_rejected() {
    assert_eq!(parse_frame(&u32::MAX.to_be_bytes()), FrameParse::TooLarge(u32::MAX as usize));
    assert!(matches!(parse_frame(&((MAX_FRAME_LEN as u32) + 1).to_be_bytes()), FrameParse::TooLarge(_)));
}

#[test]
fn config_and_socket_locations() {
    assert_eq!(config_dir(Some("/q".into()), None, None).unwrap(), "/q");
    assert_eq!(config_dir(None, Some("/x".into()), None).unwrap(), "/x/qdrop");
    assert!(config_dir(None, None, None).is_err());
    assert_eq!(socket_path(Some("/s.sock".into()), Some("/run".into()), "/c"), "/s.sock");
    assert_eq!(socket_path(None, Some("/run".into()), "/c"), "/run/qdropd.sock");
    assert_eq!(socket_path(None, None, "/c"), "/c/qdropd.sock");
    assert!(downloads_dir(None, None).is_err());
}

#[test]
fn arbitrary_bytes_never_panic() {
    let mut seed = 0x9e3779b97f4a7c15u64;
    for _ in 0..2000 {
        seed = seed.wrapping_mul(6364136223846793005).wrapping_add(1);
        let len = (seed >> 24) as usize % 512;
        let bytes: Vec<u8> = (0..len)
            .map(|i| {
                let x = seed.wrapping_add(i as u64).wrapping_mul(0xff51afd7ed558ccd);
                (x >> 33) as u8
            })
            .collect();
        let mut off = 0usize;
        for _ in 0..8 {
            match parse_frame(&bytes[off..]) {
                FrameParse::Complete { len } => {
                    assert!(off + 4 + len <= bytes.len());
                    off += 4 + len;
                }
                FrameParse::NeedMore => break,
                FrameParse::TooLarge(n) => {
                    assert!(n > MAX_FRAME_LEN);
                    break;
                }
            }
        }
    }
}

#[test]
fn fresh_ids_and_pins_are_drawn_anew() {
    assert_ne!(generate(), generate());
    let pins: Vec<String> = (0..20).map(|_| gen_pin().unwrap()).collect();
    assert!(pins.iter().any(|p| p != &pins[0]));
}

#[test]
fn pin_step_reads_a_little_endian_draw() {
    assert_eq!(pin_step(None), Some(Err(CryptoError::Rng)));
    assert_eq!(pin_step(Some([0x40, 0x42, 0x0f, 0x00])), Some(Ok("000000".to_string())));
    assert_eq!(pin_step(Some([0x15, 0xcd, 0x5b, 0x07])), Some(Ok("456789".to_string())));
    assert_eq!(pin_step(Some([0xff, 0xff, 0xff, 0xff])), None);
    // 4_294_000_000 is the first rejected sample
    assert_eq!(pin_step(Some([0x80, 0x3d, 0xf1, 0xff])), None);
    assert_eq!(pin_step(Some([0x7f, 0x3d, 0xf1, 0xff])), Some(Ok("999999".to_string())));
}

/// Base64 (with padding) of `bytes`.
fn b64(bytes: &[u8]) -> String {
    let mut out = String::new();
    for chunk in bytes.chunks(3) {
        let b = [chunk[0], *chunk.get(1).unwrap_or(&0), *chunk.get(2).unwrap_or(&0)];
        let n = ((b[0] as u32) << 16) | ((b[1] as u32) << 8) | (b[2] as u32);
        for i in 0..4 {
            if i <= chunk.len() {
                out.push(b64_char_of(((n >> (18 - 6 * i)) & 63) as u8));
            } else {
                out.push('=');
            }
        }
    }
    out
}

/// A PKCS#8 key file's text around `der`.
fn key_file_text(der: &[u8]) -> String {
    let kind = "PRIVATE KEY";
    let body: Vec<String> = b64(der).as_bytes().chunks(64).map(|c| String::from_utf8(c.to_vec()).unwrap()).collect();
    format!("-----BEGIN {kind}-----\n{}\n-----END {kind}-----\n", body.join("\n"))
}

/// A PKCS#8 Ed25519 key with the secret seed of the first RFC 8032 test vector.
fn ed25519_key_text() -> String {
    let seed: [u8; 32] = [
        157, 97, 177, 157, 239, 253, 90, 96, 186, 132, 74, 244, 146, 236, 44, 196,
        68, 73, 197, 105, 123, 50, 105, 25, 112, 59, 172, 3, 28, 174, 127, 96,
    ];
    let mut der: Vec<u8> = vec![48, 46, 2, 1, 0, 48, 5, 6, 3, 43, 101, 112, 4, 34, 4, 32];
    der.extend_from_slice(&seed);
    key_file_text(&der)
}

/// A PKCS#8 P-256 key whose scalar is 1 (so its public point is the base point).
fn p256_key_text() -> String {
    let mut der: Vec<u8> = vec![
        48, 129, 135, 2, 1, 0, 48, 19, 6, 7, 42, 134, 72, 206, 61, 2, 1, 6, 8, 42, 134, 72, 206, 61, 3, 1, 7,
        4, 109, 48, 107, 2, 1, 1, 4, 32,
    ];
    der.extend_from_slice(&[0u8; 31]);
    der.push(1);
    der.extend_from_slice(&[161, 68, 3, 66, 0, 4]);
    let gx: [u8; 32] = [
        0x6b, 0x17, 0xd1, 0xf2, 0xe1, 0x2c, 0x42, 0x47, 0xf8, 0xbc, 0xe6, 0xe5, 0x63, 0xa4, 0x40, 0xf2,
        0x77, 0x03, 0x7d, 0x81, 0x2d, 0xeb, 0x33, 0xa0, 0xf4, 0xa1, 0x39, 0x45, 0xd8, 0x98, 0xc2, 0x96,
    ];
    let gy: [u8; 32] = [
        0x4f, 0xe3, 0x42, 0xe2, 0xfe, 0x1a, 0x7f, 0x9b, 0x8e, 0xe7, 0xeb, 0x4a, 0x7c, 0x0f, 0x9e, 0x16,
        0x2b, 0xce, 0x33, 0x57, 0x6b, 0x31, 0x5e, 0xce, 0xcb, 0xb6, 0x40, 0x68, 0x37, 0xbf, 0x51, 0xf5,
    ];
    der.extend_from_slice(&gx);
    der.extend_from_slice(&gy);
    key_file_text(&der)
}

#[test]
fn identity_from_pem_pins_the_ed25519_public_key() {
    let id = Identity::from_pem(&ed25519_key_text()).unwrap();
    let expected: [u8; 32] = [
        0xd7, 0x5a, 0x98, 0x01, 0x82, 0xb1, 0x0a, 0xb7, 0xd5, 0x4b, 0xfe, 0xd3, 0xc9, 0x64, 0x07, 0x3a,
        0x0e, 0xe1, 0x72, 0xf3, 0xda, 0xa6, 0x23, 0x25, 0xaf, 0x02, 0x1a, 0x68, 0xf7, 0x07, 0x51, 0x1a,
    ];
    assert_eq!(id.public_key(), expected);
    assert_eq!(id.fingerprint(), fingerprint_of(&expected));
    let again = Identity::from_pem(&ed25519_key_text()).unwrap();
    assert_eq!(again.public_key(), id.public_key());
}

#[test]
fn identity_from_pem_rejects_other_keys() {
    assert_eq!(Identity::from_pem("not a key").err(), Some(IdentityError::Unparsable));
    assert_eq!(Identity::from_pem("").err(), Some(IdentityError::Unparsable));
    assert_eq!(Identity::from_pem(&p256_key_text()).err(), Some(IdentityError::NotEd25519));
}

#[test]
fn roster_views_agree_with_each_other() {
    let rp = |id: &str, name: &str, k: u8| RosterPeer { device_id: id.into(), name: name.into(), public_key: [k; 32], address: None };
    let r = RosterInner { peers: vec![rp("a", "one", 1), rp("b", "two", 2), rp("a", "three", 3)] };
    let ids = r.ids();
    assert_eq!(ids, vec!["a".to_string(), "b".to_string()]);
    assert_eq!(r.len(), ids.len());
    assert!(!r.is_empty());
    for id in ["a", "b", "c"] {
        assert_eq!(ids.iter().any(|x| x == id), r.is_trusted_id(id));
        assert_eq!(r.is_trusted_id(id), r.key_for_id(id).is_some());
        if let Some(k) = r.key_for_id(id) {
            assert!(r.is_trusted_key(&k));
            assert_eq!(r.peer_for_key(&k).unwrap().public_key, k);
        }
    }
    assert_eq!(r.key_for_id("a"), Some([3u8; 32]));
    assert_eq!(r.peer_for_key(&[1u8; 32]).unwrap().name, "one");
    let empty = RosterInner { peers: Vec::new() };
    assert!(empty.is_empty());
    assert_eq!(empty.len(), 0);
}

#[test]
fn loading_a_registry_replaces_the_roster() {
    let mut doc = Peers::new();
    doc.upsert(Peer::new("laptop", "id-laptop", &[7u8; 32]));
    doc.upsert(Peer::new("phone", "id-phone", &[8u8; 32]));
    let mut bad = Peer::new("broken", "id-broken", &[9u8; 32]);
    bad.public_key = "not base64".to_string();
    doc.upsert(bad);
    let mut roster = Roster::new();
    roster.load(&doc);
    let r = roster.read();
    assert!(r.is_trusted_id("id-laptop"));
    assert!(!r.is_trusted_id("id-broken"));
    assert_eq!(r.key_for_id("id-phone"), Some([8u8; 32]));
    let p = r.peer_for_key(&[7u8; 32]).unwrap();
    assert_eq!((p.device_id.as_str(), p.name.as_str()), ("id-laptop", "laptop"));
    roster.load(&Peers::new());
    assert!(!roster.read().is_trusted_id("id-laptop"));
    assert!(roster.read().is_empty());
}
