use qdrop::connection::DisconnectReason;
use qdrop::discovery::DiscoveredPeer;
use qdrop::pairing::{chunk_len, frame_chunk, paired_from, PairError, PairExchange, PairRead, PairStep, Role};
use qdrop::peers::{Peer, Peers};
use qdrop::proto::Caps;
use qdrop::roster::Roster;
use qdrop::state::DaemonState;
use qdrop::transport::{record_event, role_for, ManagerAction, Manager, Role as LinkRole, TransportEvent};

// ---------------------------------------------------------------- pairing

/// One direction of the in-memory pairing socket.
struct Pipe {
    bytes: Vec<u8>,
    pos: usize,
    chunks_read: usize,
}

impl Pipe {
    fn new() -> Self {
        Pipe { bytes: Vec::new(), pos: 0, chunks_read: 0 }
    }
    fn avail(&self) -> usize {
        self.bytes.len() - self.pos
    }
    fn take(&mut self, n: usize) -> Vec<u8> {
        let v = self.bytes[self.pos..self.pos + n].to_vec();
        self.pos += n;
        v
    }
}

enum SideState {
    Reading(PairRead),
    Over(Result<Vec<u8>, PairError>),
}

fn apply(step: PairStep, out: &mut Pipe) -> SideState {
    match step {
        PairStep::Continue { write, read } => {
            out.bytes.extend(write);
            SideState::Reading(read)
        }
        PairStep::Fail { write, error } => {
            out.bytes.extend(write);
            SideState::Over(Err(error))
        }
        PairStep::Done(p) => SideState::Over(Ok(p)),
    }
}

/// Feed one side whatever it can read now. `peer_over` means the other end
/// will write nothing more. `corrupt_second_chunk` flips a byte of the second
/// chunk read on this side (an attacker in the middle).
fn feed(ex: &mut PairExchange, st: SideState, input: &mut Pipe, out: &mut Pipe, peer_over: bool, corrupt_second_chunk: bool) -> (SideState, bool) {
    match st {
        SideState::Over(r) => (SideState::Over(r), false),
        SideState::Reading(PairRead::Chunk) => {
            if input.avail() < 2 {
                if peer_over {
                    return (SideState::Over(Err(PairError::PeerAborted)), true);
                }
                return (SideState::Reading(PairRead::Chunk), false);
            }
            let hdr = [input.bytes[input.pos], input.bytes[input.pos + 1]];
            let n = match chunk_len(hdr) {
                Ok(n) => n,
                Err(e) => return (SideState::Over(Err(e)), true),
            };
            if input.avail() < 2 + n {
                if peer_over {
                    return (SideState::Over(Err(PairError::PeerAborted)), true);
                }
                return (SideState::Reading(PairRead::Chunk), false);
            }
            input.take(2);
            let mut data = input.take(n);
            input.chunks_read += 1;
            if corrupt_second_chunk && input.chunks_read == 2 {
                data[0] ^= 0xff;
            }
            (apply(ex.on_chunk(data), out), true)
        }
        SideState::Reading(PairRead::Tag) => {
            if input.avail() < 32 {
                if peer_over {
                    return (SideState::Over(Err(PairError::PeerAborted)), true);
                }
                return (SideState::Reading(PairRead::Tag), false);
            }
            let t = input.take(32);
            let mut tag = [0u8; 32];
            tag.copy_from_slice(&t);
            (apply(ex.on_tag(tag), out), true)
        }
        SideState::Reading(PairRead::Ack) => {
            if input.avail() < 1 {
                if peer_over {
                    return (apply(ex.on_ack(None), out), true);
                }
                return (SideState::Reading(PairRead::Ack), false);
            }
            let b = input.take(1)[0];
            (apply(ex.on_ack(Some(b)), out), true)
        }
    }
}

/// Run both sides of a pairing over in-memory pipes until both are over.
fn pair(pin_a: &str, pin_b: &str, tamper: bool) -> (Result<Vec<u8>, PairError>, Result<Vec<u8>, PairError>) {
    let mut a2b = Pipe::new();
    let mut b2a = Pipe::new();
    let (mut a, sa) = PairExchange::start(Role::Offerer, pin_a, b"payload-of-a".to_vec());
    let (mut b, sb) = PairExchange::start(Role::Requester, pin_b, b"payload-of-b".to_vec());
    let mut sa = apply(sa, &mut a2b);
    let mut sb = apply(sb, &mut b2a);
    for _ in 0..100 {
        let b_over = matches!(sb, SideState::Over(_));
        let (na, pa) = feed(&mut a, sa, &mut b2a, &mut a2b, b_over, false);
        sa = na;
        let a_over = matches!(sa, SideState::Over(_));
        let (nb, pb) = feed(&mut b, sb, &mut a2b, &mut b2a, a_over, tamper);
        sb = nb;
        if let (SideState::Over(ra), SideState::Over(rb)) = (&sa, &sb) {
            return (ra.clone(), rb.clone());
        }
        if !pa && !pb && !matches!(sa, SideState::Over(_)) && !matches!(sb, SideState::Over(_)) {
            panic!("pairing deadlocked");
        }
    }
    panic!("pairing did not finish");
}

#[test]
fn matching_pins_pair_successfully() {
    let (ra, rb) = pair("123456", "123456", false);
    assert_eq!(rb.unwrap(), b"payload-of-a".to_vec());
    assert_eq!(ra.unwrap(), b"payload-of-b".to_vec());
}

#[test]
fn mismatched_pins_fail_closed() {
    let (ra, rb) = pair("111111", "222222", false);
    assert!(matches!(rb.unwrap_err(), PairError::BadPin | PairError::PeerAborted));
    assert!(ra.is_err());
}

#[test]
fn tampered_payload_fails_closed() {
    let (ra, rb) = pair("424242", "424242", true);
    assert!(rb.is_err(), "requester must reject a tampered payload");
    assert!(ra.is_err());
}

#[test]
fn pairing_chunks_are_length_prefixed_and_bounded() {
    assert_eq!(frame_chunk(&[9, 8, 7]).unwrap(), vec![0, 3, 9, 8, 7]);
    assert_eq!(frame_chunk(&vec![0u8; 70_000]).unwrap_err(), PairError::Protocol("chunk too large".into()));
    assert_eq!(chunk_len([0x10, 0x00]), Ok(4096));
    assert_eq!(chunk_len([0, 0]), Err(PairError::Protocol("bad chunk length 0".into())));
    assert_eq!(chunk_len([0x10, 0x01]), Err(PairError::Protocol("bad chunk length 4097".into())));
}

#[test]
fn paired_identity_needs_a_32_byte_key() {
    let p = paired_from("id".into(), "name".into(), vec![5u8; 32]).unwrap();
    assert_eq!(p.public_key, [5u8; 32]);
    assert_eq!(
        paired_from("id".into(), "name".into(), vec![5u8; 31]).unwrap_err(),
        PairError::Protocol("peer sent a malformed public key".into())
    );
}

// ---------------------------------------------------------------- transport

const LOW: &str = "aaaa0000000000000000000000000000";
const HIGH: &str = "ffff1111111111111111111111111111";

fn roster_with(id: &str, addr: Option<&str>) -> Roster {
    let mut doc = Peers::new();
    let mut p = Peer::new(&format!("name-{id}"), id, &[4u8; 32]);
    p.address = addr.map(|a| a.to_string());
    doc.upsert(p);
    Roster::from_peers(&doc)
}

fn found(id: &str, addr: &str) -> DiscoveredPeer {
    DiscoveredPeer { device_id: id.into(), device_name: "peer".into(), fingerprint: "fp".into(), addrs: vec![addr.into()] }
}

#[test]
fn arbitration_is_deterministic_and_opposite() {
    assert_eq!(role_for("aaaa", "ffff"), LinkRole::Dialer);
    assert_eq!(role_for("ffff", "aaaa"), LinkRole::Acceptor);
}

#[test]
fn arbitration_follows_str_order() {
    for (a, b) in [("a", "ab"), ("ab", "b"), ("", "x"), ("Z", "a"), ("é", "z")] {
        assert_eq!(role_for(a, b) == LinkRole::Dialer, a < b);
        assert_eq!(role_for(b, a) == LinkRole::Dialer, b < a);
    }
    assert_eq!(role_for("same", "same"), LinkRole::Acceptor);
}

#[test]
fn unpaired_peer_is_ignored() {
    let roster = Roster::new();
    let mut m = Manager::new(LOW.into());
    assert!(m.on_found(roster.read(), found(HIGH, "127.0.0.1:9")).is_none());
    assert!(m.peers.entries.is_empty());
    assert_eq!(m.discovered.entries.len(), 1);
}

#[test]
fn static_address_is_dialed_without_mdns() {
    let roster = roster_with(HIGH, Some("127.0.0.1:4242"));
    let mut m = Manager::new(LOW.into());
    let acts = m.start(roster.read());
    assert_eq!(acts.len(), 1);
    match &acts[0] {
        ManagerAction::StartDial { peer_id, addrs } => {
            assert_eq!(peer_id, HIGH);
            assert_eq!(addrs, &vec!["127.0.0.1:4242".to_string()]);
        }
        other => panic!("expected a dial, got {other:?}"),
    }
}

#[test]
fn dialer_connects_over_tls_and_reconnects() {
    let roster = roster_with(HIGH, Some("10.0.0.2:47654"));
    let mut m = Manager::new(LOW.into());
    match m.on_found(roster.read(), found(HIGH, "192.168.1.7:47654")) {
        Some(ManagerAction::StartDial { peer_id, addrs }) => {
            assert_eq!(peer_id, HIGH);
            assert_eq!(addrs, vec!["192.168.1.7:47654".to_string(), "10.0.0.2:47654".to_string()]);
        }
        other => panic!("expected a dial, got {other:?}"),
    }
    for _round in 0..2 {
        let up = m.on_conn_up(HIGH.into(), "peer".into(), Caps::all(), Some("192.168.1.7:47654".into()));
        assert!(matches!(&up[0], ManagerAction::BusInsert { peer_id } if peer_id == HIGH));
        assert!(matches!(&up[1], ManagerAction::Emit(TransportEvent::PeerConnected { device_id, .. }) if device_id == HIGH));
        let down = m.on_conn_down(HIGH.into(), &DisconnectReason::PeerClosed);
        assert!(matches!(&down[0], ManagerAction::BusRemove { peer_id } if peer_id == HIGH));
        assert!(matches!(&down[1], ManagerAction::Emit(TransportEvent::PeerDisconnected { reason, .. }) if reason == "peer closed the connection"));
    }
    // the dial loop is still running: a new sighting only refreshes its addresses
    assert!(matches!(m.on_found(roster.read(), found(HIGH, "192.168.1.8:47654")), Some(ManagerAction::SetAddrs { .. })));
    // the mDNS record goes away: fall back to the static address
    match m.on_lost(roster.read(), HIGH) {
        Some(ManagerAction::SetAddrs { addrs, .. }) => assert_eq!(addrs, vec!["10.0.0.2:47654".to_string()]),
        other => panic!("expected an address update, got {other:?}"),
    }
}

#[test]
fn inbound_from_a_peer_we_dial_is_refused() {
    let mut m = Manager::new(LOW.into());
    let acts = m.on_inbound(HIGH.into(), "peer".into(), Caps::all());
    assert!(matches!(&acts[..], [ManagerAction::RejectInbound { peer_id }] if peer_id == HIGH));
    let mut acceptor = Manager::new(HIGH.into());
    let first = acceptor.on_inbound(LOW.into(), "low".into(), Caps::all());
    assert!(matches!(&first[..], [ManagerAction::RunInbound { .. }]));
    acceptor.on_conn_up(LOW.into(), "low".into(), Caps::all(), None);
    let second = acceptor.on_inbound(LOW.into(), "low".into(), Caps::all());
    assert_eq!(second.len(), 3);
    assert!(matches!(&second[0], ManagerAction::AbortTask { .. }));
    assert!(matches!(&second[1], ManagerAction::Emit(TransportEvent::PeerDisconnected { reason, .. }) if reason == "replaced by a newer inbound connection"));
    assert!(matches!(&second[2], ManagerAction::RunInbound { .. }));
}

#[test]
fn unpairing_drops_the_connection() {
    let roster = roster_with(HIGH, None);
    let mut m = Manager::new(LOW.into());
    m.on_found(roster.read(), found(HIGH, "192.168.1.7:1"));
    m.on_conn_up(HIGH.into(), "peer".into(), Caps::all(), None);
    let empty = Roster::new();
    let acts = m.on_roster_changed(empty.read());
    assert!(m.peers.entries.is_empty());
    assert!(acts.iter().any(|a| matches!(a, ManagerAction::BusRemove { peer_id } if peer_id == HIGH)));
    assert!(acts.iter().any(|a| matches!(a, ManagerAction::AbortTask { .. })));
    assert!(acts.iter().any(|a| matches!(a, ManagerAction::Emit(TransportEvent::PeerDisconnected { reason, .. }) if reason == "peer unpaired")));
    // re-pairing starts dialing the remembered peer again
    let acts = m.on_roster_changed(roster.read());
    assert!(matches!(&acts[..], [ManagerAction::StartDial { peer_id, .. }] if peer_id == HIGH));
}

#[test]
fn published_state_follows_transport_events() {
    let mut st = DaemonState::new();
    let up = TransportEvent::PeerConnected { device_id: "d".into(), device_name: "n".into(), caps: Caps::all(), addr: Some("1.2.3.4:5".into()) };
    assert_eq!(record_event(&mut st, &up, 10).as_deref(), Some("d"));
    assert!(st.is_online("d"));
    let down = TransportEvent::PeerDisconnected { device_id: "d".into(), reason: "idle timeout".into() };
    assert_eq!(record_event(&mut st, &down, 20), None);
    assert!(!st.is_online("d"));
    assert!(st.last_seen.contains_key("d"));
}

#[test]
fn a_spake_message_from_the_wrong_side_ends_pairing() {
    let (mut a, _) = PairExchange::start(Role::Offerer, "123456", b"payload-of-a".to_vec());
    let (_b, sb) = PairExchange::start(Role::Offerer, "123456", b"payload-of-b".to_vec());
    let msg = match sb {
        PairStep::Continue { write, .. } => write[2..].to_vec(),
        _ => panic!("start must send the first message"),
    };
    match a.on_chunk(msg) {
        PairStep::Fail { write, error } => {
            assert!(write.is_empty());
            assert_eq!(error, PairError::Protocol("SPAKE2 finish failed".to_string()));
        }
        _ => panic!("an offerer's message must not finish an offerer's SPAKE2"),
    }
    let (mut r, _) = PairExchange::start(Role::Requester, "123456", Vec::new());
    assert!(matches!(r.on_chunk(vec![0x41; 10]), PairStep::Fail { .. }));
}
