//! A single live peer connection: the `Hello` handshake check, then the
//! keepalive and relay decisions of the connection loop. The caller owns
//! the socket and the timers; it feeds each thing that happens to
//! [`Link::step`] and performs the action it returns.

use vstd::prelude::*;
use crate::proto::{Caps, Hello, Message, PROTOCOL_VERSION};
use crate::strmap::str_eq;
use crate::text::string_from;

verus! {

/// Keepalive tuning, in milliseconds.
#[derive(Debug, Clone, Copy, PartialEq, Eq, Structural)]
pub struct KeepAlive {
    /// How often to send a `Ping`.
    pub interval_ms: u64,
    /// Drop the connection if no frame arrives within this window.
    pub idle_timeout_ms: u64,
    /// Cap on how long the `Hello` exchange may take.
    pub handshake_timeout_ms: u64,
}

impl KeepAlive {
    /// Ping every 15 s, drop after 45 s of silence, 10 s to say `Hello`.
    pub fn default_timing() -> (k: KeepAlive)
        ensures k.interval_ms == 15000 && k.idle_timeout_ms == 45000 && k.handshake_timeout_ms == 10000,
    {
        KeepAlive { interval_ms: 15000, idle_timeout_ms: 45000, handshake_timeout_ms: 10000 }
    }
}

/// Outcome of a completed connection.
#[derive(Debug, Clone, PartialEq, Eq)]
pub enum DisconnectReason {
    PeerClosed,
    IdleTimeout,
    WriteError,
    ProtocolError(String),
}

impl DisconnectReason {
    /// Human-readable description.
    pub open spec fn spec_describe(&self) -> Seq<char> {
        match self {
            DisconnectReason::PeerClosed => seq!['p', 'e', 'e', 'r', ' ', 'c', 'l', 'o', 's', 'e', 'd', ' ', 't', 'h', 'e', ' ',
                'c', 'o', 'n', 'n', 'e', 'c', 't', 'i', 'o', 'n'],
            DisconnectReason::IdleTimeout => seq!['i', 'd', 'l', 'e', ' ', 't', 'i', 'm', 'e', 'o', 'u', 't'],
            DisconnectReason::WriteError => seq!['w', 'r', 'i', 't', 'e', ' ', 'e', 'r', 'r', 'o', 'r'],
            DisconnectReason::ProtocolError(e) => seq!['p', 'r', 'o', 't', 'o', 'c', 'o', 'l', ' ', 'e', 'r', 'r', 'o', 'r', ':', ' '] + e@,
        }
    }

    /// Human-readable description (what the log shows).
    pub fn describe(&self) -> (s: String)
        ensures s@ == self.spec_describe(),
    {
        match self {
            DisconnectReason::PeerClosed => {
                let c: [char; 26] = ['p', 'e', 'e', 'r', ' ', 'c', 'l', 'o', 's', 'e', 'd', ' ', 't', 'h', 'e', ' ',
                    'c', 'o', 'n', 'n', 'e', 'c', 't', 'i', 'o', 'n'];
                proof { assert(c@ =~= self.spec_describe()); }
                string_from(c.as_slice())
            },
            DisconnectReason::IdleTimeout => {
                let c: [char; 12] = ['i', 'd', 'l', 'e', ' ', 't', 'i', 'm', 'e', 'o', 'u', 't'];
                proof { assert(c@ =~= self.spec_describe()); }
                string_from(c.as_slice())
            },
            DisconnectReason::WriteError => {
                let c: [char; 11] = ['w', 'r', 'i', 't', 'e', ' ', 'e', 'r', 'r', 'o', 'r'];
                proof { assert(c@ =~= self.spec_describe()); }
                string_from(c.as_slice())
            },
            DisconnectReason::ProtocolError(e) => {
                let c: [char; 16] = ['p', 'r', 'o', 't', 'o', 'c', 'o', 'l', ' ', 'e', 'r', 'r', 'o', 'r', ':', ' '];
                let mut v: Vec<char> = Vec::new();
                let mut i: usize = 0;
                while i < 16
                    invariant i <= 16, v@ == c@.subrange(0, i as int),
                    decreases 16 - i,
                {
                    v.push(c[i]);
                    i += 1;
                    proof { assert(v@ =~= c@.subrange(0, i as int)); }
                }
                let es = crate::text::chars_of(e.as_str());
                let mut j: usize = 0;
                while j < es.len()
                    invariant j <= es@.len(), v@ == c@ + es@.subrange(0, j as int),
                    decreases es@.len() - j,
                {
                    v.push(es[j]);
                    j += 1;
                    proof { assert(v@ =~= c@ + es@.subrange(0, j as int)); }
                }
                proof {
                    assert(es@.subrange(0, es@.len() as int) =~= es@);
                    assert(c@.subrange(0, 16) =~= c@);
                    assert(v@ =~= self.spec_describe());
                }
                string_from(v.as_slice())
            },
        }
    }
}

/// What we learned during the handshake.
#[derive(Debug, Clone)]
pub struct Handshake {
    pub peer: Hello,
    /// Capabilities both sides support.
    pub effective_caps: Caps,
}

/// Why a `Hello` exchange failed.
#[derive(Debug, Clone, PartialEq, Eq)]
pub enum HandshakeError {
    Timeout,
    VersionMismatch { ours: u32, their: u32 },
    /// The peer reported a different device id than expected.
    IdentityMismatch,
    Io(String),
    /// The first frame was not a `Hello`, or did not decode.
    Frame(String),
}

/// What judging the peer's first frame gives: a version mismatch, then an
/// identity mismatch against the expected id, else the peer's hello with
/// the capabilities both sides share; a frame other than a hello is refused.
pub open spec fn hello_outcome(local: Hello, first: Message, expect: Option<Seq<char>>, r: Result<Handshake, HandshakeError>) -> bool {
    match first {
        Message::Hello(peer) => {
            if peer.protocol_version != PROTOCOL_VERSION {
                r == Err::<Handshake, HandshakeError>(HandshakeError::VersionMismatch { ours: PROTOCOL_VERSION, their: peer.protocol_version })
            } else if expect matches Some(id) && peer.device_id@ != id {
                r == Err::<Handshake, HandshakeError>(HandshakeError::IdentityMismatch)
            } else {
                r matches Ok(h) && h.peer == peer && h.effective_caps == local.caps.meet(peer.caps)
            }
        },
        _ => r matches Err(HandshakeError::Frame(_)),
    }
}

/// Two devices of this protocol version exchanging hellos: each end that
/// expects nothing or the other's id completes the handshake, learns the
/// other's hello, and both settle on the same capabilities; an end that
/// expects another id refuses with an identity mismatch.
pub proof fn lemma_handshake_pairs_up(
    a: Hello, b: Hello, expect_a: Option<Seq<char>>, expect_b: Option<Seq<char>>,
    ra: Result<Handshake, HandshakeError>, rb: Result<Handshake, HandshakeError>,
)
    requires
        a.protocol_version == PROTOCOL_VERSION,
        b.protocol_version == PROTOCOL_VERSION,
        hello_outcome(a, Message::Hello(b), expect_a, ra),
        hello_outcome(b, Message::Hello(a), expect_b, rb),
    ensures
        (expect_a is None || expect_a == Some(b.device_id@)) ==> (ra matches Ok(h) && h.peer == b),
        (expect_b is None || expect_b == Some(a.device_id@)) ==> (rb matches Ok(h) && h.peer == a),
        (ra is Ok && rb is Ok) ==> ra->Ok_0.effective_caps == rb->Ok_0.effective_caps,
        (expect_b matches Some(x) && x != a.device_id@) ==> rb == Err::<Handshake, HandshakeError>(HandshakeError::IdentityMismatch),
        (expect_a matches Some(x) && x != b.device_id@) ==> ra == Err::<Handshake, HandshakeError>(HandshakeError::IdentityMismatch),
{
}

/// Judge the peer's first frame: it must be a `Hello` of our protocol
/// version from the device we expect (when we know whom to expect); the
/// effective capabilities are the intersection of both sides'.
pub fn check_hello(local: &Hello, first: Message, expect_id: Option<&str>) -> (r: Result<Handshake, HandshakeError>)
    ensures
        hello_outcome(*local, first, match expect_id { Some(id) => Some(id@), None => None }, r),
{
    match first {
        Message::Hello(peer) => {
            if peer.protocol_version != PROTOCOL_VERSION {
                return Err(HandshakeError::VersionMismatch { ours: PROTOCOL_VERSION, their: peer.protocol_version });
            }
            if let Some(id) = expect_id {
                if !str_eq(peer.device_id.as_str(), id) {
                    return Err(HandshakeError::IdentityMismatch);
                }
            }
            let effective_caps = local.caps.intersect(peer.caps);
            Ok(Handshake { peer, effective_caps })
        },
        _ => {
            let c: [char; 14] = ['e', 'x', 'p', 'e', 'c', 't', 'e', 'd', ' ', 'H', 'e', 'l', 'l', 'o'];
            Err(HandshakeError::Frame(string_from(c.as_slice())))
        },
    }
}

/// Something that happened on a live connection.
pub enum LinkEvent {
    /// The idle deadline passed without a frame from the peer.
    IdleExpired,
    /// The keepalive interval elapsed.
    PingDue,
    /// The application queued a frame for the peer.
    Outbound(Message),
    /// The application side hung up.
    OutboundClosed,
    /// A frame arrived from the peer.
    Received(Message),
    /// The peer closed the stream (or it dropped like a disconnect).
    ReadClosed,
    /// Reading failed with a protocol error.
    ReadFailed(String),
    /// Writing a frame failed.
    WriteFailed,
    /// The application stopped accepting inbound frames.
    InboundClosed,
}

/// What the connection loop must do next.
#[derive(Debug, Clone, PartialEq, Eq)]
pub enum LinkAction {
    /// Write this frame to the peer.
    Send(Message),
    /// Hand this application frame to the subsystems.
    Deliver(Message),
    /// Nothing to do.
    Nothing,
    /// End the connection for this reason.
    Close(DisconnectReason),
}

/// Keepalive state of one connection. Times are milliseconds on the
/// caller's monotonic clock.
#[derive(Debug, Clone, Copy, PartialEq, Eq, Structural)]
pub struct Link {
    /// Sequence number of the last `Ping` sent.
    pub ping_seq: u64,
    /// When the connection is dropped unless a frame arrives first.
    pub idle_deadline: u64,
    /// Length of the idle window.
    pub idle_timeout: u64,
}

/// The transition of a link on one event, and the action it calls for.
pub open spec fn spec_step(l: Link, ev: LinkEvent, now: u64) -> (Link, LinkAction) {
    match ev {
        LinkEvent::IdleExpired => (l, LinkAction::Close(DisconnectReason::IdleTimeout)),
        LinkEvent::PingDue => (Link { ping_seq: (l.ping_seq + 1) as u64, ..l },
            LinkAction::Send(Message::Ping { seq: (l.ping_seq + 1) as u64 })),
        LinkEvent::Outbound(m) => (l, LinkAction::Send(m)),
        LinkEvent::OutboundClosed => (l, LinkAction::Close(DisconnectReason::PeerClosed)),
        LinkEvent::Received(m) => {
            let l2 = Link { idle_deadline: (now + l.idle_timeout) as u64, ..l };
            match m {
                Message::Ping { seq } => (l2, LinkAction::Send(Message::Pong { seq })),
                Message::Pong { .. } => (l2, LinkAction::Nothing),
                Message::Hello(_) => (l2, LinkAction::Nothing),
                _ => (l2, LinkAction::Deliver(m)),
            }
        },
        LinkEvent::ReadClosed => (l, LinkAction::Close(DisconnectReason::PeerClosed)),
        LinkEvent::ReadFailed(e) => (l, LinkAction::Close(DisconnectReason::ProtocolError(e))),
        LinkEvent::WriteFailed => (l, LinkAction::Close(DisconnectReason::WriteError)),
        LinkEvent::InboundClosed => (l, LinkAction::Close(DisconnectReason::PeerClosed)),
    }
}

/// What a link needs to take one more step at time `now` without
/// overflowing its counters.
pub open spec fn can_step(l: Link, ev: LinkEvent, now: u64) -> bool {
    &&& (ev is PingDue ==> l.ping_seq < u64::MAX)
    &&& (ev is Received ==> now + l.idle_timeout <= u64::MAX)
}

impl Link {
    /// A link whose handshake just completed at `now`.
    pub fn new(ka: &KeepAlive, now: u64) -> (l: Link)
        requires now + ka.idle_timeout_ms <= u64::MAX,
        ensures l.ping_seq == 0, l.idle_deadline == now + ka.idle_timeout_ms, l.idle_timeout == ka.idle_timeout_ms,
    {
        Link { ping_seq: 0, idle_deadline: now + ka.idle_timeout_ms, idle_timeout: ka.idle_timeout_ms }
    }

    /// Take one event. Pings are answered with a pong of the same sequence
    /// number, our own pings are numbered 1, 2, …, every frame received
    /// restarts the idle window (our own traffic never does), `Hello`
    /// mid-connection and pongs are dropped, other frames are delivered.
    pub fn step(&mut self, ev: LinkEvent, now: u64) -> (a: LinkAction)
        requires can_step(*old(self), ev, now),
        ensures (*final(self), a) == spec_step(*old(self), ev, now),
    {
        match ev {
            LinkEvent::IdleExpired => LinkAction::Close(DisconnectReason::IdleTimeout),
            LinkEvent::PingDue => {
                self.ping_seq = self.ping_seq + 1;
                LinkAction::Send(Message::Ping { seq: self.ping_seq })
            },
            LinkEvent::Outbound(m) => LinkAction::Send(m),
            LinkEvent::OutboundClosed => LinkAction::Close(DisconnectReason::PeerClosed),
            LinkEvent::Received(m) => {
                self.idle_deadline = now + self.idle_timeout;
                match m {
                    Message::Ping { seq } => LinkAction::Send(Message::Pong { seq }),
                    Message::Pong { .. } => LinkAction::Nothing,
                    Message::Hello(_) => LinkAction::Nothing,
                    _ => LinkAction::Deliver(m),
                }
            },
            LinkEvent::ReadClosed => LinkAction::Close(DisconnectReason::PeerClosed),
            LinkEvent::ReadFailed(e) => LinkAction::Close(DisconnectReason::ProtocolError(e)),
            LinkEvent::WriteFailed => LinkAction::Close(DisconnectReason::WriteError),
            LinkEvent::InboundClosed => LinkAction::Close(DisconnectReason::PeerClosed),
        }
    }
}

/// Every ping from the peer is answered with a pong carrying its sequence
/// number, and receiving it restarts the idle window.
pub proof fn lemma_ping_answered(l: Link, seq: u64, now: u64)
    requires now + l.idle_timeout <= u64::MAX,
    ensures
        spec_step(l, LinkEvent::Received(Message::Ping { seq }), now).1 == LinkAction::Send(Message::Pong { seq }),
        spec_step(l, LinkEvent::Received(Message::Ping { seq }), now).0.idle_deadline == now + l.idle_timeout,
{
}

/// Our pings carry strictly increasing sequence numbers, and sending one
/// does not move the idle deadline.
pub proof fn lemma_pings_increase(l: Link, now: u64)
    requires l.ping_seq < u64::MAX,
    ensures
        spec_step(l, LinkEvent::PingDue, now).0.ping_seq > l.ping_seq,
        spec_step(l, LinkEvent::PingDue, now).1 == LinkAction::Send(Message::Ping { seq: spec_step(l, LinkEvent::PingDue, now).0.ping_seq }),
        spec_step(l, LinkEvent::PingDue, now).0.idle_deadline == l.idle_deadline,
{
}

/// Only frames from the peer move the idle deadline: pings we send and
/// frames we queue leave it where it was.
pub proof fn lemma_idle_only_on_receive(l: Link, ev: LinkEvent, now: u64)
    requires !(ev is Received),
    ensures spec_step(l, ev, now).0.idle_deadline == l.idle_deadline,
{
}

/// Every application frame the peer sends is delivered unchanged: any frame
/// other than a ping, a pong or a hello comes out as `Deliver` of that very
/// frame, and restarts the idle window.
pub proof fn lemma_application_frames_delivered(l: Link, m: Message, now: u64)
    requires
        !(m is Ping),
        !(m is Pong),
        !(m is Hello),
    ensures
        spec_step(l, LinkEvent::Received(m), now).1 == LinkAction::Deliver(m),
        spec_step(l, LinkEvent::Received(m), now).0.idle_deadline == (now + l.idle_timeout) as u64,
        spec_step(l, LinkEvent::Received(m), now).0.ping_seq == l.ping_seq,
{
}

/// Pongs and a hello after the handshake are swallowed (they only restart
/// the idle window); nothing received ever closes the link.
pub proof fn lemma_received_never_closes(l: Link, m: Message, now: u64)
    ensures
        !(spec_step(l, LinkEvent::Received(m), now).1 is Close),
        (m is Pong || m is Hello) ==> spec_step(l, LinkEvent::Received(m), now).1 == LinkAction::Nothing,
{
}

} // verus!
