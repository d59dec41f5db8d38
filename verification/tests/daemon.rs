use qdrop::auth::{check_connected, exchange_outcome, on_request, record, recheck_notice, recorded_macs, ReplyWait};
use qdrop::backoff::Backoff;
use qdrop::bus::broadcast_targets;
use qdrop::cli::{clip_command, peer_status, pin_ok, shell_quote, ClipAction, ClipArgs};
use qdrop::clipboard::{content_token, paste_text, ClipWatcher, Snapshot};
use qdrop::connection::{check_hello, DisconnectReason, HandshakeError, KeepAlive, Link, LinkAction, LinkEvent};
use qdrop::control::{applescript_quote, apply_request, notification_command, request_line, send_ok, ControlAction, ControlRequest, Controls};
use qdrop::discovery::{instance_of, peer_from_record, removed_peer};
use qdrop::doctor::{assemble, config_check, daemon_check, downloads_check, identity_check, mdns_check, peer_check, port_check, Check, IdentityProbe, Status};
use qdrop::filexfer::{ack_outcome, dest_candidate, peer_label, retry_after, send_targets, AckWait, EndVerdict, Receiver};
use qdrop::history::{dir, image_number, preview, Body, Entry, HistoryRing, Restored};
use qdrop::peers::{Peer, Peers};
use qdrop::proto::{Caps, ClipEntry, DeviceInfo, Hello, Message, PROTOCOL_VERSION};
use qdrop::state::DaemonState;
use qdrop::sync::{ClipSync, LocalClip, LocalOutcome, RemoteOutcome};
use qdrop::weblink::{dispatch_targets, handle_inbound, InboundLink};
use qdrop::config::ConfirmPolicy;
use qdrop::crypto::sha256;

fn hello(id: &str, caps: Caps) -> Hello {
    Hello { protocol_version: PROTOCOL_VERSION, device_id: id.into(), device_name: id.into(), caps }
}

#[test]
fn instance_parsing() {
    assert_eq!(instance_of("deadbeef._qdrop._tcp.local.").as_deref(), Some("deadbeef"));
    assert_eq!(instance_of("something-else.local.").as_deref(), None);
}

#[test]
fn discovery_filters_self_and_fills_in_names() {
    assert!(peer_from_record(Some("me".into()), None, None, vec!["1.2.3.4:5".into()], "me").is_none());
    assert!(peer_from_record(Some("x".into()), None, None, vec![], "me").is_none());
    assert!(peer_from_record(None, Some("n".into()), None, vec!["1.2.3.4:5".into()], "me").is_none());
    let p = peer_from_record(Some("x".into()), None, Some("fp".into()), vec!["1.2.3.4:5".into()], "me").unwrap();
    assert_eq!(p.device_name, "x");
    assert_eq!(p.fingerprint, "fp");
    assert_eq!(removed_peer("me._qdrop._tcp.local.", "me"), None);
    assert_eq!(removed_peer("you._qdrop._tcp.local.", "me").as_deref(), Some("you"));
}

#[test]
fn grows_then_caps() {
    let mut b = Backoff::new(1000, 8000);
    for _ in 0..10 {
        let d = b.next_delay();
        assert!(d <= 8000);
    }
    assert_eq!(b.current_ms, 8000);
}

#[test]
fn reset_returns_to_base() {
    let mut b = Backoff::new(1000, 60000);
    for _ in 0..5 {
        b.next_delay();
    }
    b.reset();
    assert_eq!(b.current_ms, 1000);
}

#[test]
fn backoff_delay_stays_under_the_ceiling() {
    let mut b = Backoff::new(100, 1000);
    for ceiling in [100u64, 200, 400, 800, 1000, 1000] {
        assert_eq!(b.current_ms, ceiling);
        assert!(b.next_delay() <= ceiling);
    }
    let mut z = Backoff::new(0, 10);
    assert!(z.next_delay() <= 1);
}

#[test]
fn backoff_delays_are_spread_below_the_ceiling() {
    let mut b = Backoff::new(1000, 1000);
    let delays: Vec<u64> = (0..100).map(|_| b.next_delay()).collect();
    assert!(delays.iter().all(|d| *d <= 1000));
    assert!(delays.iter().any(|d| *d < 1000));
    assert!(delays.iter().any(|d| *d > 0));
}

#[test]
fn handshake_pairs_up_and_negotiates_caps() {
    let a_local = hello("a", Caps { open_url: false, ..Caps::all() });
    let b_local = hello("b", Caps::all());
    let ha = check_hello(&a_local, Message::Hello(b_local.clone()), Some("b")).unwrap();
    let hb = check_hello(&b_local, Message::Hello(a_local.clone()), Some("a")).unwrap();
    assert_eq!(ha.peer.device_id, "b");
    assert_eq!(hb.peer.device_id, "a");
    assert!(!ha.effective_caps.open_url);
    assert!(!hb.effective_caps.open_url);
    assert!(ha.effective_caps.clipboard_text);
}

#[test]
fn handshake_rejects_wrong_identity() {
    let a_local = hello("a", Caps::all());
    let b_local = hello("b", Caps::all());
    let err = check_hello(&b_local, Message::Hello(a_local), Some("not-a")).unwrap_err();
    assert!(matches!(err, HandshakeError::IdentityMismatch));
    let mut old = hello("c", Caps::all());
    old.protocol_version = PROTOCOL_VERSION + 1;
    assert!(matches!(check_hello(&b_local, Message::Hello(old), None), Err(HandshakeError::VersionMismatch { .. })));
    assert!(matches!(check_hello(&b_local, Message::Ping { seq: 1 }, None), Err(HandshakeError::Frame(_))));
}

#[test]
fn run_exchanges_keepalive_then_notices_idle() {
    let ka = KeepAlive { interval_ms: 1000, idle_timeout_ms: 3000, handshake_timeout_ms: 1000 };
    let mut l = Link::new(&ka, 0);
    assert_eq!(l.step(LinkEvent::PingDue, 1000), LinkAction::Send(Message::Ping { seq: 1 }));
    assert_eq!(l.step(LinkEvent::Received(Message::Pong { seq: 1 }), 1100), LinkAction::Nothing);
    assert_eq!(l.idle_deadline, 4100);
    assert_eq!(l.step(LinkEvent::PingDue, 2000), LinkAction::Send(Message::Ping { seq: 2 }));
    assert_eq!(l.idle_deadline, 4100);
    assert_eq!(l.step(LinkEvent::Received(Message::Ping { seq: 9 }), 2500), LinkAction::Send(Message::Pong { seq: 9 }));
    assert_eq!(l.step(LinkEvent::IdleExpired, 5500), LinkAction::Close(DisconnectReason::IdleTimeout));
}

#[test]
fn run_reports_peer_closed() {
    let mut l = Link::new(&KeepAlive::default_timing(), 0);
    assert_eq!(l.step(LinkEvent::ReadClosed, 1), LinkAction::Close(DisconnectReason::PeerClosed));
    assert_eq!(DisconnectReason::PeerClosed.describe(), "peer closed the connection");
    assert_eq!(DisconnectReason::ProtocolError("x".into()).describe(), "protocol error: x");
}

#[test]
fn run_relays_application_frames_both_ways() {
    let mut l = Link::new(&KeepAlive::default_timing(), 0);
    let inbound = Message::Clipboard { seq: 1, origin_id: "x".into(), entries: vec![ClipEntry::text("hi")] };
    assert_eq!(l.step(LinkEvent::Received(inbound.clone()), 5), LinkAction::Deliver(inbound));
    let outbound = Message::Clipboard { seq: 2, origin_id: "y".into(), entries: vec![] };
    assert_eq!(l.step(LinkEvent::Outbound(outbound.clone()), 6), LinkAction::Send(outbound));
    assert_eq!(l.step(LinkEvent::Received(Message::Hello(hello("z", Caps::all()))), 7), LinkAction::Nothing);
}

#[test]
fn clipboard_sync_broadcasts_then_suppresses_repeats() {
    let mut s = ClipSync::new("me".into(), 10);
    match s.on_local(1000, false, true, LocalClip::Text("hello".into())) {
        LocalOutcome::Broadcast(Message::Clipboard { seq, origin_id, entries }) => {
            assert_eq!(seq, 1);
            assert_eq!(origin_id, "me");
            assert_eq!(entries[0].as_text(), Some("hello"));
        }
        other => panic!("expected a broadcast, got {other:?}"),
    }
    // the same content again, after the rate limit: not re-sent
    assert!(matches!(s.on_local(2000, false, true, LocalClip::Text("hello".into())), LocalOutcome::Ignored));
    // within the rate limit: dropped
    assert!(matches!(s.on_local(2100, false, true, LocalClip::Text("other".into())), LocalOutcome::Ignored));
    // over the size limit
    assert!(matches!(s.on_local(3000, false, true, LocalClip::Text("0123456789ab".into())), LocalOutcome::Ignored));
    // paused
    assert!(matches!(s.on_local(4000, true, true, LocalClip::Text("new".into())), LocalOutcome::Ignored));
    assert!(matches!(s.on_local(5000, false, true, LocalClip::Text("new".into())), LocalOutcome::Broadcast(_)));
    assert_eq!(s.seq, 2);
    // images: off, inline, blob
    assert!(matches!(s.on_local(6000, false, false, LocalClip::Image(vec![1, 2])), LocalOutcome::Ignored));
    assert!(matches!(s.on_local(7000, false, true, LocalClip::Image(vec![1, 2])), LocalOutcome::Broadcast(_)));
    let big = vec![7u8; 262_145];
    assert!(matches!(s.on_local(8000, false, true, LocalClip::Image(big)), LocalOutcome::SendBlob(_)));
    assert_eq!(s.seq, 3);
}

#[test]
fn clipboard_sync_does_not_echo_between_peers() {
    let mut s = ClipSync::new("me".into(), 100);
    let theirs = Message::Clipboard { seq: 4, origin_id: "you".into(), entries: vec![ClipEntry::text("copied there")] };
    assert!(matches!(s.on_remote(false, true, true, theirs), RemoteOutcome::ApplyText(_)));
    // the applied text shows up as a local change: not sent back
    assert!(matches!(s.on_local(1000, false, true, LocalClip::Text("copied there".into())), LocalOutcome::Ignored));
    // a text copied here goes out, and is not applied again when it comes back
    assert!(matches!(s.on_local(2000, false, true, LocalClip::Text("copied here".into())), LocalOutcome::Broadcast(_)));
    let back = Message::Clipboard { seq: 9, origin_id: "you".into(), entries: vec![ClipEntry::text("copied here")] };
    assert!(matches!(s.on_remote(false, true, true, back), RemoteOutcome::Ignored));
    // the same for an image
    assert!(matches!(s.on_local(3000, false, true, LocalClip::Image(vec![5, 6])), LocalOutcome::Broadcast(_)));
    let img = Message::Clipboard { seq: 10, origin_id: "you".into(), entries: vec![ClipEntry::png(vec![5, 6])] };
    assert!(matches!(s.on_remote(false, true, true, img), RemoteOutcome::Ignored));
    let other = Message::Clipboard { seq: 11, origin_id: "you".into(), entries: vec![ClipEntry::png(vec![7])] };
    assert!(matches!(s.on_remote(false, true, true, other), RemoteOutcome::ApplyImage(_)));
    assert!(matches!(s.on_local(4000, false, true, LocalClip::Image(vec![7])), LocalOutcome::Ignored));
}

#[test]
fn clipboard_sync_ignores_own_echo_and_applies_remote() {
    let mut s = ClipSync::new("me".into(), 100);
    let own = Message::Clipboard { seq: 1, origin_id: "me".into(), entries: vec![ClipEntry::text("x")] };
    assert!(matches!(s.on_remote(false, true, true, own), RemoteOutcome::Ignored));
    let theirs = Message::Clipboard { seq: 1, origin_id: "you".into(), entries: vec![ClipEntry::png(vec![9]), ClipEntry::text("x")] };
    match s.on_remote(false, true, true, theirs) {
        RemoteOutcome::ApplyText(t) => assert_eq!(t, "x"),
        other => panic!("expected text, got {other:?}"),
    }
    let again = Message::Clipboard { seq: 2, origin_id: "you".into(), entries: vec![ClipEntry::text("x")] };
    assert!(matches!(s.on_remote(false, true, true, again), RemoteOutcome::Ignored));
    let img = Message::Clipboard { seq: 3, origin_id: "you".into(), entries: vec![ClipEntry::png(vec![9])] };
    assert!(matches!(s.on_remote(false, false, true, img.clone()), RemoteOutcome::Ignored));
    assert!(matches!(s.on_remote(false, true, true, img), RemoteOutcome::ApplyImage(_)));
    assert!(matches!(s.on_remote(false, true, true, Message::Ping { seq: 1 }), RemoteOutcome::Ignored));
}

#[test]
fn clipboard_watcher_swallows_its_own_echo_once() {
    let mut w = ClipWatcher::new(Some(1));
    assert!(w.on_poll(Some(Snapshot { token: 1, concealed: false, text: Some("a".into()), image_png: None })).is_none());
    w.will_write_text("remote");
    w.wrote(Some(2));
    assert!(w.on_poll(Some(Snapshot { token: 3, concealed: false, text: Some("remote".into()), image_png: None })).is_none());
    assert!(w.suppress.is_none());
    match w.on_poll(Some(Snapshot { token: 4, concealed: false, text: Some("remote".into()), image_png: None })) {
        Some(LocalClip::Text(t)) => assert_eq!(t, "remote"),
        other => panic!("expected text, got {other:?}"),
    }
    assert!(w.on_poll(Some(Snapshot { token: 5, concealed: true, text: Some("pw".into()), image_png: None })).is_none());
    assert!(matches!(
        w.on_poll(Some(Snapshot { token: 6, concealed: false, text: Some("t".into()), image_png: Some(vec![1]) })),
        Some(LocalClip::Image(_))
    ));
    assert_eq!(paste_text(Some(String::new())), None);
    assert_eq!(paste_text(Some("x".into())).as_deref(), Some("x"));
}

#[test]
fn content_token_is_the_le_prefix_of_the_digest() {
    let d = sha256(b"tab");
    let expect = i64::from_le_bytes([d[0], d[1], d[2], d[3], d[4], d[5], d[6], d[7]]);
    assert_eq!(content_token(Some("ab"), None), expect);
    let d2 = sha256(&[b't', b'a', b'i', 1, 2]);
    assert_eq!(content_token(Some("a"), Some(&[1, 2])), i64::from_le_bytes([d2[0], d2[1], d2[2], d2[3], d2[4], d2[5], d2[6], d2[7]]));
}

fn text_entry(t: &str, origin: &str) -> Entry {
    Entry { body: Body::Text { text: t.into() }, when: 1, origin: origin.into(), hash: qdrop::crypto::hex(&sha256(t.as_bytes())) }
}

#[test]
fn ring_evicts_and_dedups() {
    let mut h = HistoryRing::from_loaded(vec![], 3);
    h.record_text_at("a", "me", 1);
    h.record_text_at("a", "me", 2);
    h.record_text_at("b", "peer", 3);
    h.record_text_at("c", "me", 4);
    h.record_text_at("d", "me", 5);

    let list = h.list(None);
    assert_eq!(list.len(), 3);
    assert_eq!(list[0].preview, "d");
    assert_eq!(list[2].preview, "b");
    assert_eq!(list[2].origin, "peer");
    match h.get(1).unwrap() {
        Restored::Text(t) => assert_eq!(t, "c"),
        _ => panic!("expected text"),
    }
    let again = HistoryRing::from_loaded(h.entries.clone(), 3);
    assert_eq!(again.list(None).len(), 3);
}

#[test]
fn disabled_when_max_zero() {
    let mut h = HistoryRing::from_loaded(vec![], 0);
    assert!(h.record_text_at("x", "me", 1).is_none());
    assert!(h.list(None).is_empty());
}

#[test]
fn history_images_number_files_and_report_evictions() {
    let stored = vec![Entry { body: Body::Image { file: "7.png".into(), w: 2, h: 3 }, when: 1, origin: "local".into(), hash: "h".into() }];
    let mut h = HistoryRing::from_loaded(stored, 1);
    assert_eq!(h.next_file, 8);
    let plan = h.plan_image(&[1, 2, 3]).unwrap();
    assert_eq!(plan.file, "8.png");
    assert_eq!((plan.w, plan.h), (0, 0));
    let gone = h.push_image(plan, "local", 9);
    assert_eq!(gone, vec!["7.png".to_string()]);
    assert!(h.plan_image(&[1, 2, 3]).is_none());
    assert_eq!(image_number("12.png"), Some(12));
    assert_eq!(image_number("x.png"), None);
    assert_eq!(image_number("+3.png"), Some(3));
    assert_eq!(dir(None), "qdrop-history");
    assert_eq!(dir(Some("/c")), "/c/history");
}

#[test]
fn history_preview_and_origin_names() {
    let e = text_entry("line1\nline2", "abcdefghijkl");
    assert_eq!(preview(&e), "line1\u{23ce}line2");
    let long: String = std::iter::repeat('x').take(70).collect();
    assert_eq!(preview(&text_entry(&long, "me")).chars().count(), 60);
    let img = Entry { body: Body::Image { file: "1.png".into(), w: 640, h: 480 }, when: 1, origin: "local".into(), hash: "h".into() };
    assert_eq!(preview(&img), "[image 640\u{d7}480]");
    let mut peers = Peers::new();
    peers.upsert(Peer::new("thor", "abcdefghijkl", &[3u8; 32]));
    let h = HistoryRing::from_loaded(vec![e, img], 5);
    let l = h.list(Some(&peers));
    assert_eq!(l[0].origin, "thor");
    assert_eq!(l[1].origin, "local");
    assert_eq!(l[1].kind, "image");
    assert_eq!(h.list(None)[0].origin, "abcdefgh");
}

#[test]
fn path_traversal_name_is_refused() {
    let r = Receiver::new(false);
    assert_eq!(r.plan_start(1, "../../etc/x"), Err("unsafe filename".to_string()));
}

#[test]
fn corrupted_transfer_is_rejected_and_leaves_no_file() {
    let mut r = Receiver::new(false);
    let plan = r.plan_start(7, "evil.txt").unwrap();
    assert_eq!(plan.tmp_name, ".evil.txt.7.part");
    r.register("A".into(), 7, plan, 3);
    assert!(r.on_chunk("A", 7, &[1, 2, 3]));
    match r.on_end("A", 7, &[0u8; 32]) {
        EndVerdict::Reject { detail, tmp_name, .. } => {
            assert_eq!(detail, "sha256 mismatch");
            assert_eq!(tmp_name, ".evil.txt.7.part");
        }
        other => panic!("expected a rejection, got {other:?}"),
    }
    assert!(r.incoming.is_empty());
}

#[test]
fn round_trips_multiple_files_and_verifies() {
    let mut r = Receiver::new(false);
    for (id, name, data) in [(1u64, "one.txt", b"hello world".to_vec()), (2, "two.bin", vec![0xAB; 300_000])] {
        let plan = r.plan_start(id, name).unwrap();
        r.register("A".into(), id, plan, data.len() as u64);
        for chunk in data.chunks(65536) {
            assert!(r.on_chunk("A", id, chunk));
        }
        match r.on_end("A", id, &sha256(&data)) {
            EndVerdict::Accept { name: n, written, pending, .. } => {
                assert_eq!(n, name);
                assert_eq!(written, data.len() as u64);
                assert!(!pending);
            }
            other => panic!("expected acceptance, got {other:?}"),
        }
    }
    let plan = r.plan_start(3, "short.bin").unwrap();
    r.register("A".into(), 3, plan, 10);
    r.on_chunk("A", 3, &[1, 2]);
    assert!(matches!(r.on_end("A", 3, &sha256(&[1, 2])), EndVerdict::Reject { .. }));
    assert!(matches!(r.on_end("A", 3, &sha256(&[1, 2])), EndVerdict::Unknown));
    assert!(!r.on_chunk("B", 9, &[1]));
}

#[test]
fn require_confirm_routes_to_pending() {
    let r = Receiver::new(true);
    assert!(r.plan_start(1, "doc.txt").unwrap().pending);
}

#[test]
fn destination_names_do_not_clash() {
    assert_eq!(dest_candidate("doc.txt", 0), "doc.txt");
    assert_eq!(dest_candidate("doc.txt", 2), "doc (2).txt");
    assert_eq!(dest_candidate("a.tar.gz", 1), "a.tar (1).gz");
    assert_eq!(dest_candidate("README", 3), "README (3)");
}

#[test]
fn send_targets_and_acks() {
    let mut peers = Peers::new();
    peers.upsert(Peer::new("thor", "id-thor", &[1u8; 32]));
    let connected = vec!["id-x".to_string()];
    assert_eq!(send_targets(Some("id-x"), true, &connected, Some(&peers)).unwrap(), vec!["id-x".to_string()]);
    assert_eq!(send_targets(Some("thor"), false, &connected, Some(&peers)).unwrap(), vec!["id-thor".to_string()]);
    let e = send_targets(Some("loki"), false, &connected, Some(&peers)).unwrap_err();
    assert_eq!((e.peer.as_str(), e.ok, e.detail.as_str()), ("loki", false, "no such paired peer"));
    assert_eq!(send_targets(None, false, &vec![], None).unwrap_err().detail, "no connected peers");
    assert_eq!(send_targets(None, false, &connected, None).unwrap(), connected);
    assert_eq!(peer_label(Some(&peers), "id-thor"), "thor");
    assert_eq!(peer_label(None, "id-thor"), "id-thor");
    assert_eq!(ack_outcome(AckWait::Ack { ok: true, detail: "f".into() }), Ok("f".into()));
    assert_eq!(ack_outcome(AckWait::Ack { ok: false, detail: "no".into() }), Err("peer rejected: no".into()));
    assert_eq!(ack_outcome(AckWait::TimedOut), Err("timed out waiting for peer ack".into()));
    assert!(retry_after(1, true));
    assert!(!retry_after(3, true));
    assert!(!retry_after(1, false));
}

fn info(host: &str, macs: &[&str]) -> DeviceInfo {
    DeviceInfo { hostname: host.into(), macs: macs.iter().map(|m| m.to_string()).collect(), os: "linux".into() }
}

#[test]
fn request_gets_a_reply_with_our_device_info() {
    let h = on_request(false, info("them", &[]), info("us", &["aa:bb"]));
    match h.reply {
        Message::AuthReply { ok, info } => {
            assert!(ok);
            assert_eq!(info.hostname, "us");
        }
        other => panic!("expected AuthReply, got {other:?}"),
    }
    assert!(h.record.is_none());
    assert_eq!(on_request(true, info("them", &[]), info("us", &[])).record.unwrap().hostname, "them");
}

#[test]
fn authorize_errors_when_peer_not_connected() {
    let err = check_connected(false).unwrap_err();
    assert!(err.contains("not connected"));
    assert!(check_connected(true).is_ok());
    assert_eq!(exchange_outcome(false, ReplyWait::TimedOut).unwrap_err(), "peer is not connected");
}

#[test]
fn authorization_is_recorded_and_rechecked() {
    let mut peers = Peers::new();
    peers.upsert(Peer::new("thor", "id-thor", &[1u8; 32]));
    assert!(record(&mut peers, "ghost", &info("h", &[]), true).is_err());
    record(&mut peers, "id-thor", &info("thorhost", &["aa:bb"]), true).unwrap();
    let p = peers.find_by_id("id-thor").unwrap();
    assert!(p.authorized);
    assert_eq!(p.hostname.as_deref(), Some("thorhost"));
    let rec = recorded_macs(&peers, "id-thor").unwrap();
    assert_eq!(rec, vec!["aa:bb".to_string()]);
    assert!(recheck_notice(&rec, &info("thorhost", &["aa:bb"])).is_none());
    let (_, body) = recheck_notice(&rec, &info("thorhost", &["cc:dd"])).unwrap();
    assert_eq!(body, "thorhost \u{2014} still trusted (its key is pinned)");
}

#[test]
fn links_are_gated_and_dispatched() {
    let mut peers = Peers::new();
    peers.upsert(Peer::new("thor", "id-thor", &[1u8; 32]));
    assert_eq!(handle_inbound("id-thor", "javascript:alert(1)", ConfirmPolicy::Off, Some(&peers)), InboundLink::Refuse);
    match handle_inbound("id-thor", "https://x.y", ConfirmPolicy::On, Some(&peers)) {
        InboundLink::Hold { body, .. } => assert_eq!(body, "thor wants to open: https://x.y"),
        other => panic!("expected hold, got {other:?}"),
    }
    match handle_inbound("id-thor", "https://x.y", ConfirmPolicy::Off, Some(&peers)) {
        InboundLink::Open { body, .. } => assert_eq!(body, "From thor: https://x.y"),
        other => panic!("expected open, got {other:?}"),
    }
    assert_eq!(
        dispatch_targets("ftp://x", None, false, &vec![], None).unwrap_err(),
        "URL scheme not allowed (permitted: http, https, mailto)"
    );
    assert_eq!(dispatch_targets("https://x", Some("loki"), false, &vec![], Some(&peers)).unwrap_err(), "no such paired peer: loki");
}

#[test]
fn control_requests_toggle_and_report() {
    let mut c = Controls::new();
    assert_eq!(apply_request(&mut c, ControlRequest::ClipPause), ControlAction::ReportStatus);
    assert!(c.clipboard_paused());
    apply_request(&mut c, ControlRequest::ClipResume);
    assert!(!c.clipboard_paused());
    assert_eq!(request_line("status"), "{\"cmd\":\"status\"}\n");
    assert_eq!(applescript_quote("a\"b\\c\nd"), "\"a\\\"b\\\\c d\"");
    let (prog, args) = notification_command(false, "T", "B");
    assert_eq!(prog, "notify-send");
    assert_eq!(args, vec!["--app-name=qdrop".to_string(), "T".into(), "B".into()]);
    let (prog, args) = notification_command(true, "T", "B");
    assert_eq!(prog, "osascript");
    assert_eq!(args[1], "display notification \"B\" with title \"T\"");
    assert!(!send_ok(&vec![]));
}

#[test]
fn clip_flags_pick_an_action() {
    let none = ClipArgs { pause: false, resume: false, toggle: false, status: false, history: false, restore: None, send: None, to: None };
    assert_eq!(none.action(), ClipAction::Status);
    assert_eq!(ClipArgs { restore: Some(2), send: Some(3), ..none.clone() }.action(), ClipAction::Restore(2));
    assert_eq!(ClipArgs { pause: true, resume: true, ..none.clone() }.action(), ClipAction::Pause);
    assert_eq!(clip_command(ClipAction::Resume).as_deref(), Some("clip_resume"));
    assert_eq!(clip_command(ClipAction::History), None);
    assert!(pin_ok(" 123456\n"));
    assert!(!pin_ok("12345a"));
    assert_eq!(shell_quote("my-laptop_1.local"), "my-laptop_1.local");
    assert_eq!(shell_quote("Bob's Mac"), "'Bob'\\''s Mac'");
}

#[test]
fn peers_listing_status_columns() {
    let mut st = DaemonState::new();
    assert_eq!(peer_status(&st, "x", 100), ("offline".to_string(), "never".to_string()));
    st.mark_online_at("x", 40);
    assert_eq!(peer_status(&st, "x", 100), ("online".to_string(), "since 1m ago".to_string()));
    st.mark_offline_at("x", 95);
    assert_eq!(peer_status(&st, "x", 100), ("offline".to_string(), "5s ago".to_string()));
}

#[test]
fn doctor_verdicts() {
    assert_eq!(mdns_check(0, true).status, Status::Warn);
    assert_eq!(mdns_check(2, true).detail, "2 _qdrop._tcp service(s) visible");
    let online = vec!["a".to_string()];
    let seen = vec!["b".to_string()];
    assert_eq!(peer_check("A", "a", &online, &seen, None).unwrap().status, Status::Pass);
    assert_eq!(peer_check("B", "b", &online, &seen, None).unwrap().detail, "discovered but not connected");
    assert!(peer_check("C", "c", &online, &seen, Some("c")).is_none());
    assert_eq!(peer_check("D", "d", &online, &seen, None).unwrap().name, "peer:D");
    assert_eq!(port_check(false, 47654, None).detail, "TCP 47654 is bindable");
    assert_eq!(port_check(false, 1, Some("busy".into())).status, Status::Fail);
}

#[test]
fn broadcast_skips_the_origin() {
    let c = vec!["a".to_string(), "b".to_string(), "c".to_string()];
    assert_eq!(broadcast_targets(&c, Some("b")), vec!["a".to_string(), "c".to_string()]);
    assert_eq!(broadcast_targets(&c, None), c);
}

#[test]
fn doctor_reports_config_identity_daemon_and_downloads() {
    let c = config_check(Ok(("laptop".to_string(), 47800)));
    assert_eq!((c.name.as_str(), c.status, c.detail.as_str(), c.fix), ("config", Status::Pass, "device \"laptop\", port 47800", None));
    let c = config_check(Err("bad toml".to_string()));
    assert_eq!(c.status, Status::Fail);
    assert_eq!(c.detail, "bad toml");
    assert_eq!(c.fix.as_deref(), Some("fix the syntax error in ~/.config/qdrop/config.toml"));

    let c = identity_check(IdentityProbe::Loaded("a1b2-c3d4-e5f6-0718".to_string()));
    assert_eq!((c.name.as_str(), c.status, c.detail.as_str()), ("identity", Status::Pass, "fingerprint a1b2-c3d4-e5f6-0718"));
    let c = identity_check(IdentityProbe::Missing);
    assert_eq!((c.status, c.detail.as_str()), (Status::Warn, "no key yet"));
    assert_eq!(c.fix.as_deref(), Some("it is created on the first `qdropd` start"));
    let c = identity_check(IdentityProbe::Corrupt("parse error".to_string()));
    assert_eq!((c.status, c.detail.as_str()), (Status::Fail, "parse error"));
    assert_eq!(c.fix.as_deref(), Some("the key file is corrupt \u{2014} stop the daemon, delete identity.pem, re-pair"));
    let c = identity_check(IdentityProbe::PathError("no home".to_string()));
    assert_eq!(c.fix.as_deref(), Some("check $HOME / $XDG_CONFIG_HOME"));

    let c = daemon_check(Some(Some("0.3.1".to_string())));
    assert_eq!((c.name.as_str(), c.status, c.detail.as_str()), ("daemon", Status::Pass, "running, version 0.3.1"));
    assert_eq!(daemon_check(Some(None)).detail, "running, version ?");
    let c = daemon_check(None);
    assert_eq!((c.status, c.detail.as_str()), (Status::Fail, "not reachable on the control socket"));
    assert_eq!(c.fix.as_deref(), Some("start it: `qdropd` (or `systemctl --user start qdropd` / launchd)"));

    let c = downloads_check(Ok("/home/u/Downloads".to_string()), None);
    assert_eq!((c.name.as_str(), c.status, c.detail.as_str()), ("downloads", Status::Pass, "/home/u/Downloads is writable"));
    let c = downloads_check(Ok("/ro".to_string()), Some("Permission denied".to_string()));
    assert_eq!((c.status, c.detail.as_str()), (Status::Fail, "cannot write to /ro: Permission denied"));
    assert_eq!(c.fix.as_deref(), Some("fix permissions or set QDROP_DOWNLOAD_DIR"));
    let c = downloads_check(Err("HOME is not set".to_string()), None);
    assert_eq!((c.status, c.detail.as_str(), c.fix.as_deref()), (Status::Fail, "HOME is not set", Some("set QDROP_DOWNLOAD_DIR")));
}

#[test]
fn doctor_report_keeps_the_check_order() {
    let peer = |n: &str| Check::ok(n, "connected".to_string());
    let out = assemble(
        config_check(Err("x".to_string())),
        identity_check(IdentityProbe::Missing),
        daemon_check(None),
        port_check(false, 47800, None),
        mdns_check(0, false),
        vec![peer("peer:a"), peer("peer:b")],
        downloads_check(Err("y".to_string()), None),
    );
    let names: Vec<&str> = out.iter().map(|c| c.name.as_str()).collect();
    assert_eq!(names, vec!["config", "identity", "daemon", "port", "mDNS", "peer:a", "peer:b", "downloads"]);
    assert_eq!(out[0].status, Status::Fail);
}
