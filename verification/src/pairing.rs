//! PIN-authenticated pairing (SPAKE2).
//!
//! One side (the offerer) prints a 6-digit PIN and waits; the other (the
//! requester) is given the PIN and connects. Both run SPAKE2 keyed by the
//! PIN, which never crosses the wire. Over the agreed key each side sends
//! its identity payload (device id, name, public key) with an HMAC under a
//! direction-separated subkey. A wrong PIN or a tampered payload makes the
//! HMAC check fail and pairing stops before anything is trusted; a peer is
//! trusted only once both sides have confirmed.
//!
//! Framing on the pairing socket is a big-endian `u16` length followed by
//! that many bytes; the tag and the confirmation byte travel bare.

use vstd::prelude::*;
use crate::config::DEFAULT_PORT;
use crate::crypto::{ct_eq, hmac_sha256, hmac_sha256_tag, sha256, sha256_digest};
use crate::state::{decimal, decimal_chars};
use crate::discovery::{instance_in, spec_instance_in, PAIR_SERVICE_TYPE};
use crate::text::{chars_of, eq_ignore_ascii_case, eq_ignore_case, lower, lower_seq, string_from};

verus! {

/// TCP port the offerer listens on for pairing (also advertised via mDNS).
pub const PAIR_PORT: u16 = DEFAULT_PORT + 1;

/// How long the offerer stays discoverable and waits, in seconds.
pub const OFFER_WINDOW_SECS: u64 = 60;

/// How long to wait for the peer's confirmation byte, in seconds.
pub const CONFIRM_WAIT_SECS: u64 = 15;

/// Largest chunk accepted on the pairing socket.
pub const MAX_PAIR_FRAME: usize = 4096;

/// SPAKE2 identity of the offerer: `qdrop-pair-offerer`.
pub const SPAKE_ID_A: [u8; 18] = [113, 100, 114, 111, 112, 45, 112, 97, 105, 114, 45, 111, 102, 102, 101, 114, 101, 114];

/// SPAKE2 identity of the requester: `qdrop-pair-requester`.
pub const SPAKE_ID_B: [u8; 20] = [113, 100, 114, 111, 112, 45, 112, 97, 105, 114, 45, 114, 101, 113, 117, 101, 115, 116, 101, 114];

/// Subkey label for the offerer-to-requester direction: `a2b`.
pub const LABEL_A2B: [u8; 3] = [97, 50, 98];

/// Subkey label for the requester-to-offerer direction: `b2a`.
pub const LABEL_B2A: [u8; 3] = [98, 50, 97];

/// The secret drawn by one side of a SPAKE2 run. Opaque: only the
/// `spake2` crate reads it.
#[verifier::external_body]
pub struct SpakeSecret {
    state: spake2::Spake2<spake2::Ed25519Group>,
}

/// One side of a SPAKE2 run between its first message and the peer's: the
/// side it plays and its secret.
pub struct SpakeState {
    side: Role,
    secret: SpakeSecret,
}

impl SpakeState {
    /// The side this state was started for.
    pub closed spec fn side_of(self) -> Role {
        self.side
    }
}

/// The side byte SPAKE2 puts in front of a message from `role`'s side:
/// `A` (0x41) for the offerer, `B` (0x42) for the requester.
pub open spec fn side_byte(role: Role) -> u8 {
    match role {
        Role::Offerer => 0x41u8,
        Role::Requester => 0x42u8,
    }
}

/// The side of the other device.
pub open spec fn other_role(role: Role) -> Role {
    match role {
        Role::Offerer => Role::Requester,
        Role::Requester => Role::Offerer,
    }
}

/// Whether `Ed25519Group::bytes_to_element` decodes these bytes into a
/// group element (a valid compressed Edwards point).
pub uninterp spec fn spake_element_ok(bytes: Seq<u8>) -> bool;

/// Whether SPAKE2 on `role`'s side can finish with the peer's message: 33
/// bytes, the other side's byte, then a valid group element.
pub open spec fn spake_reply_ok(role: Role, msg: Seq<u8>) -> bool {
    &&& msg.len() == 33
    &&& msg[0] == side_byte(other_role(role))
    &&& spake_element_ok(msg.subrange(1, 33))
}

/// `spake2::Spake2::<Ed25519Group>::start_a` with the password and the two
/// identities: a fresh random secret for the offerer's side, and the
/// outbound message, which is the side byte `A` (0x41) followed by a
/// 32-byte group element.
#[verifier::external_body]
fn spake_start_a(pin: &[u8], id_a: &[u8], id_b: &[u8]) -> (r: (SpakeState, Vec<u8>))
    ensures
        r.0.side_of() == Role::Offerer,
        r.1@.len() == 33,
        r.1@[0] == 0x41u8,
{
    let (state, msg) = spake2::Spake2::<spake2::Ed25519Group>::start_a(
        &spake2::Password::new(pin),
        &spake2::Identity::new(id_a),
        &spake2::Identity::new(id_b),
    );
    (SpakeState { side: Role::Offerer, secret: SpakeSecret { state } }, msg)
}

/// `spake2::Spake2::<Ed25519Group>::start_b`: as `start_a`, for the
/// requester's side, with the side byte `B` (0x42).
#[verifier::external_body]
fn spake_start_b(pin: &[u8], id_a: &[u8], id_b: &[u8]) -> (r: (SpakeState, Vec<u8>))
    ensures
        r.0.side_of() == Role::Requester,
        r.1@.len() == 33,
        r.1@[0] == 0x42u8,
{
    let (state, msg) = spake2::Spake2::<spake2::Ed25519Group>::start_b(
        &spake2::Password::new(pin),
        &spake2::Identity::new(id_a),
        &spake2::Identity::new(id_b),
    );
    (SpakeState { side: Role::Requester, secret: SpakeSecret { state } }, msg)
}

/// `spake2::Spake2::finish`: the shared key from the peer's message. It
/// succeeds exactly when the message is 33 bytes, starts with the other
/// side's byte and carries a valid group element; the key is then a
/// 32-byte digest. Which key comes out depends on the random secret drawn
/// at the start, so nothing more is stated of it.
#[verifier::external_body]
fn spake_finish(state: SpakeState, msg: &[u8]) -> (r: Option<Vec<u8>>)
    ensures
        r is Some <==> (msg@.len() == 33 && msg@[0] == side_byte(other_role(state.side_of()))
            && spake_element_ok(msg@.subrange(1, 33))),
        r is Some ==> r->0@.len() == 32,
{
    state.secret.state.finish(msg).ok()
}

/// Which side of the exchange this device is.
#[derive(Debug, Clone, Copy, PartialEq, Eq, Structural)]
pub enum Role {
    /// Printed the PIN and listens.
    Offerer,
    /// Was given the PIN and dials.
    Requester,
}

/// What was learned about the peer in a successful pairing.
#[derive(Debug, Clone, PartialEq, Eq)]
pub struct Paired {
    pub device_id: String,
    pub device_name: String,
    pub public_key: [u8; 32],
}

/// Why pairing failed.
#[derive(Debug, Clone, PartialEq, Eq)]
pub enum PairError {
    /// No device matching the target offers to pair on this network.
    TargetNotFound(String),
    /// Timed out waiting for the other device.
    Timeout,
    /// Wrong PIN or a network tamper: key confirmation failed.
    BadPin,
    /// The other device aborted pairing.
    PeerAborted,
    /// Protocol error during pairing.
    Protocol(String),
    /// An I/O error, described.
    Io(String),
    /// Any other failure, described.
    Other(String),
}

/// This device's side of the exchange.
#[derive(Debug, Clone)]
pub struct LocalInfo {
    pub device_id: String,
    pub device_name: String,
    pub public_key: [u8; 32],
}

impl LocalInfo {
    /// This device's id, name and identity key.
    pub fn new(public_key: [u8; 32], device_id: &str, device_name: &str) -> (l: LocalInfo)
        ensures l.device_id@ == device_id@, l.device_name@ == device_name@, l.public_key == public_key,
    {
        LocalInfo { device_id: device_id.to_owned(), device_name: device_name.to_owned(), public_key }
    }
}

/// A direction subkey: the digest of the label, a zero byte, and the key.
pub open spec fn spec_derive(key: Seq<u8>, label: Seq<u8>) -> Seq<u8> {
    sha256_digest(label + seq![0u8] + key)
}

/// The subkey for `label` from the shared key.
pub fn derive(key: &[u8], label: &[u8]) -> (d: [u8; 32])
    ensures d@ == spec_derive(key@, label@),
{
    let mut buf: Vec<u8> = Vec::new();
    let mut i: usize = 0;
    while i < label.len()
        invariant
            i <= label@.len(),
            buf@ == label@.subrange(0, i as int),
        decreases label@.len() - i,
    {
        buf.push(label[i]);
        proof { assert(label@.subrange(0, i + 1) =~= label@.subrange(0, i as int).push(label@[i as int])); }
        i += 1;
    }
    buf.push(0u8);
    let mut j: usize = 0;
    proof { assert(label@.subrange(0, label@.len() as int) =~= label@); }
    while j < key.len()
        invariant
            j <= key@.len(),
            buf@ == label@ + seq![0u8] + key@.subrange(0, j as int),
        decreases key@.len() - j,
    {
        buf.push(key[j]);
        proof { assert(key@.subrange(0, j + 1) =~= key@.subrange(0, j as int).push(key@[j as int])); }
        j += 1;
    }
    proof { assert(key@.subrange(0, key@.len() as int) =~= key@); }
    sha256(buf.as_slice())
}

/// The (sending, receiving) subkeys of `role` from the shared key: the
/// offerer sends under `a2b` and receives under `b2a`, the requester the
/// other way round.
pub open spec fn spec_subkeys(role: Role, key: Seq<u8>) -> (Seq<u8>, Seq<u8>) {
    let a2b = spec_derive(key, LABEL_A2B@);
    let b2a = spec_derive(key, LABEL_B2A@);
    match role {
        Role::Offerer => (a2b, b2a),
        Role::Requester => (b2a, a2b),
    }
}

/// The two sides' subkeys line up: what one sends under, the other
/// receives under.
pub proof fn lemma_subkeys_mirror(key: Seq<u8>)
    ensures
        spec_subkeys(Role::Offerer, key).0 == spec_subkeys(Role::Requester, key).1,
        spec_subkeys(Role::Requester, key).0 == spec_subkeys(Role::Offerer, key).1,
{
}

/// When both sides hold the same shared key, the tag one side sends over a
/// payload is the tag the other side expects for it.
pub proof fn lemma_matching_keys_confirm(key: Seq<u8>, sender: Role, receiver: Role, payload: Seq<u8>)
    requires sender != receiver,
    ensures
        hmac_sha256_tag(spec_subkeys(sender, key).0, payload)
            == hmac_sha256_tag(spec_subkeys(receiver, key).1, payload),
{
}

/// The big-endian length prefix of `n`.
pub open spec fn be16(n: nat) -> Seq<u8> {
    seq![(n / 256) as u8, (n % 256) as u8]
}

/// `"chunk too large"`.
pub open spec fn too_large_msg() -> Seq<char> {
    seq!['c', 'h', 'u', 'n', 'k', ' ', 't', 'o', 'o', ' ', 'l', 'a', 'r', 'g', 'e']
}

/// `"bad chunk length N"`.
pub open spec fn bad_len_msg(n: nat) -> Seq<char> {
    seq!['b', 'a', 'd', ' ', 'c', 'h', 'u', 'n', 'k', ' ', 'l', 'e', 'n', 'g', 't', 'h', ' '] + decimal(n)
}

/// A chunk on the wire: its length as a big-endian `u16`, then the bytes;
/// more than 65535 bytes cannot be framed.
pub fn frame_chunk(data: &[u8]) -> (r: Result<Vec<u8>, PairError>)
    ensures
        match r {
            Ok(v) => data@.len() <= 65535 && v@ == be16(data@.len()) + data@,
            Err(e) => data@.len() > 65535 && e == PairError::Protocol(e->Protocol_0) && e->Protocol_0@ == too_large_msg(),
        },
{
    if data.len() > 65535 {
        let c: [char; 15] = ['c', 'h', 'u', 'n', 'k', ' ', 't', 'o', 'o', ' ', 'l', 'a', 'r', 'g', 'e'];
        proof { assert(c@ =~= too_large_msg()); }
        return Err(PairError::Protocol(string_from(c.as_slice())));
    }
    let n = data.len();
    let mut v: Vec<u8> = Vec::new();
    v.push((n / 256) as u8);
    v.push((n % 256) as u8);
    let mut i: usize = 0;
    while i < data.len()
        invariant
            n == data@.len(),
            n <= 65535,
            i <= data@.len(),
            v@ == be16(n as nat) + data@.subrange(0, i as int),
        decreases data@.len() - i,
    {
        v.push(data[i]);
        proof { assert(data@.subrange(0, i + 1) =~= data@.subrange(0, i as int).push(data@[i as int])); }
        i += 1;
    }
    proof { assert(data@.subrange(0, data@.len() as int) =~= data@); }
    Ok(v)
}

/// The length announced by a chunk header: refused when zero or over
/// `MAX_PAIR_FRAME`.
pub fn chunk_len(hdr: [u8; 2]) -> (r: Result<usize, PairError>)
    ensures
        ({
            let n = hdr[0] * 256 + hdr[1];
            match r {
                Ok(k) => k == n && 0 < n <= MAX_PAIR_FRAME,
                Err(e) => (n == 0 || n > MAX_PAIR_FRAME)
                    && e == PairError::Protocol(e->Protocol_0) && e->Protocol_0@ == bad_len_msg(n as nat),
            }
        }),
{
    let n: usize = (hdr[0] as usize) * 256 + (hdr[1] as usize);
    if n == 0 || n > MAX_PAIR_FRAME {
        let mut c: Vec<char> = Vec::new();
        let p: [char; 17] = ['b', 'a', 'd', ' ', 'c', 'h', 'u', 'n', 'k', ' ', 'l', 'e', 'n', 'g', 't', 'h', ' '];
        let mut i: usize = 0;
        while i < 17
            invariant
                i <= 17,
                c@ == p@.subrange(0, i as int),
            decreases 17 - i,
        {
            c.push(p[i]);
            proof { assert(p@.subrange(0, i + 1) =~= p@.subrange(0, i as int).push(p@[i as int])); }
            i += 1;
        }
        let d = decimal_chars(n as u64);
        let mut j: usize = 0;
        while j < d.len()
            invariant
                j <= d@.len(),
                c@ == p@ + d@.subrange(0, j as int),
            decreases d@.len() - j,
        {
            c.push(d[j]);
            proof { assert(d@.subrange(0, j + 1) =~= d@.subrange(0, j as int).push(d@[j as int])); }
            j += 1;
        }
        proof {
            assert(d@.subrange(0, d@.len() as int) =~= d@);
            assert(c@ =~= bad_len_msg(n as nat));
        }
        return Err(PairError::Protocol(string_from(c.as_slice())));
    }
    Ok(n)
}

/// `"SPAKE2 finish failed"`.
pub open spec fn finish_failed_msg() -> Seq<char> {
    seq!['S', 'P', 'A', 'K', 'E', '2', ' ', 'f', 'i', 'n', 'i', 's', 'h', ' ', 'f', 'a', 'i', 'l', 'e', 'd']
}

/// `"peer sent a malformed public key"`.
pub open spec fn malformed_key_msg() -> Seq<char> {
    seq!['p', 'e', 'e', 'r', ' ', 's', 'e', 'n', 't', ' ', 'a', ' ', 'm', 'a', 'l', 'f', 'o', 'r', 'm', 'e', 'd', ' ',
        'p', 'u', 'b', 'l', 'i', 'c', ' ', 'k', 'e', 'y']
}

/// The peer's identity from its verified payload; its key must be 32 bytes.
pub fn paired_from(device_id: String, device_name: String, public_key: Vec<u8>) -> (r: Result<Paired, PairError>)
    ensures
        match r {
            Ok(p) => public_key@.len() == 32 && p.device_id@ == device_id@ && p.device_name@ == device_name@
                && p.public_key@ == public_key@,
            Err(e) => public_key@.len() != 32 && e == PairError::Protocol(e->Protocol_0)
                && e->Protocol_0@ == malformed_key_msg(),
        },
{
    if public_key.len() != 32 {
        let c: [char; 32] = ['p', 'e', 'e', 'r', ' ', 's', 'e', 'n', 't', ' ', 'a', ' ', 'm', 'a', 'l', 'f', 'o', 'r', 'm', 'e', 'd', ' ',
            'p', 'u', 'b', 'l', 'i', 'c', ' ', 'k', 'e', 'y'];
        proof { assert(c@ =~= malformed_key_msg()); }
        return Err(PairError::Protocol(string_from(c.as_slice())));
    }
    let mut k: [u8; 32] = [0u8; 32];
    let mut i: usize = 0;
    while i < 32
        invariant
            i <= 32,
            public_key@.len() == 32,
            forall|j: int| 0 <= j < i ==> k@[j] == public_key@[j],
        decreases 32 - i,
    {
        k[i] = public_key[i];
        i += 1;
    }
    proof { assert(k@ =~= public_key@); }
    Ok(Paired { device_id, device_name, public_key: k })
}

/// Where the exchange stands.
#[derive(Debug, Clone, Copy, PartialEq, Eq, Structural)]
pub enum PairPhase {
    /// Our SPAKE2 message is out; waiting for the peer's.
    AwaitSpake,
    /// Our payload and tag are out; waiting for the peer's payload.
    AwaitPayload,
    /// Waiting for the tag over the peer's payload.
    AwaitTag,
    /// The peer's tag checked out and our confirmation is out; waiting for
    /// the peer's.
    AwaitAck,
    /// Over.
    Finished,
}

/// What to read next from the pairing socket.
#[derive(Debug, Clone, Copy, PartialEq, Eq, Structural)]
pub enum PairRead {
    /// A length-prefixed chunk.
    Chunk,
    /// A bare 32-byte tag.
    Tag,
    /// A bare confirmation byte (within `CONFIRM_WAIT_SECS`).
    Ack,
}

/// What to do next.
#[derive(Debug)]
pub enum PairStep {
    /// Write these bytes, then read.
    Continue { write: Vec<u8>, read: PairRead },
    /// Write these bytes (possibly none), then stop with this error.
    Fail { write: Vec<u8>, error: PairError },
    /// Both sides confirmed; the peer's payload.
    Done(Vec<u8>),
}

/// One side of a pairing exchange.
pub struct PairExchange {
    pub role: Role,
    pub phase: PairPhase,
    /// This side's SPAKE2 secret, until the peer's message is in.
    pub spake: Option<SpakeState>,
    /// The key SPAKE2 agreed on (known once the peer's message is in).
    pub shared: Ghost<Seq<u8>>,
    pub send_key: [u8; 32],
    pub recv_key: [u8; 32],
    /// Our identity payload, as encoded by the caller.
    pub our_payload: Vec<u8>,
    /// The peer's identity payload, once read.
    pub their_payload: Vec<u8>,
    /// The peer's tag over its payload, once it checked out.
    pub their_tag: [u8; 32],
}

impl PairExchange {
    /// The exchange's invariant: the subkeys come from the agreed key, and
    /// confirmation is only awaited once the peer's tag checked out.
    pub open spec fn inv(&self) -> bool {
        &&& self.phase == PairPhase::AwaitSpake ==> self.spake is Some
        &&& self.spake is Some ==> self.spake->0.side_of() == self.role
        &&& (self.phase == PairPhase::AwaitPayload || self.phase == PairPhase::AwaitTag || self.phase == PairPhase::AwaitAck) ==> {
            &&& self.send_key@ == spec_subkeys(self.role, self.shared@).0
            &&& self.recv_key@ == spec_subkeys(self.role, self.shared@).1
        }
        &&& self.phase == PairPhase::AwaitAck ==> hmac_sha256_tag(self.recv_key@, self.their_payload@) == self.their_tag@
    }

    /// Start the exchange: draw this side's SPAKE2 secret from the PIN and
    /// send the first message.
    pub fn start(role: Role, pin: &str, our_payload: Vec<u8>) -> (r: (PairExchange, PairStep))
        ensures
            r.0.inv(),
            r.0.role == role,
            r.0.phase == PairPhase::AwaitSpake,
            r.0.our_payload@ == our_payload@,
            r.1 matches PairStep::Continue { write, read }
                && read == PairRead::Chunk && write@.len() == 35 && write@[0] == 0 && write@[1] == 33
                && write@[2] == (if role == Role::Offerer { 0x41u8 } else { 0x42u8 }),
    {
        let (state, msg) = match role {
            Role::Offerer => spake_start_a(pin.as_bytes(), SPAKE_ID_A.as_slice(), SPAKE_ID_B.as_slice()),
            Role::Requester => spake_start_b(pin.as_bytes(), SPAKE_ID_A.as_slice(), SPAKE_ID_B.as_slice()),
        };
        let ex = PairExchange {
            role,
            phase: PairPhase::AwaitSpake,
            spake: Some(state),
            shared: Ghost(Seq::empty()),
            send_key: [0u8; 32],
            recv_key: [0u8; 32],
            our_payload,
            their_payload: Vec::new(),
            their_tag: [0u8; 32],
        };
        let step = match frame_chunk(msg.as_slice()) {
            Ok(write) => PairStep::Continue { write, read: PairRead::Chunk },
            Err(error) => PairStep::Fail { write: Vec::new(), error },
        };
        (ex, step)
    }

    /// A chunk from the peer: first its SPAKE2 message, then its payload.
    /// A message SPAKE2 cannot finish with ends the exchange; otherwise the
    /// subkeys are derived and our payload goes out with its tag.
    pub fn on_chunk(&mut self, data: Vec<u8>) -> (r: PairStep)
        requires
            old(self).inv(),
            old(self).phase == PairPhase::AwaitSpake || old(self).phase == PairPhase::AwaitPayload,
        ensures
            final(self).inv(),
            final(self).role == old(self).role,
            final(self).our_payload == old(self).our_payload,
            old(self).phase == PairPhase::AwaitPayload ==> {
                &&& final(self).phase == PairPhase::AwaitTag
                &&& final(self).their_payload@ == data@
                &&& final(self).shared == old(self).shared
                &&& r matches PairStep::Continue { write, read }
                &&& write@.len() == 0 && read == PairRead::Tag
            },
            old(self).phase == PairPhase::AwaitSpake ==> match r {
                PairStep::Continue { write, read } => {
                    &&& spake_reply_ok(old(self).role, data@)
                    &&& old(self).our_payload@.len() <= 65535
                    &&& final(self).phase == PairPhase::AwaitPayload
                    &&& final(self).shared@.len() == 32
                    &&& read == PairRead::Chunk
                    &&& write@ == be16(old(self).our_payload@.len()) + old(self).our_payload@
                        + hmac_sha256_tag(spec_subkeys(old(self).role, final(self).shared@).0, old(self).our_payload@)
                },
                PairStep::Fail { write, error } => {
                    &&& final(self).phase == PairPhase::Finished
                    &&& write@.len() == 0
                    &&& error == PairError::Protocol(error->Protocol_0)
                    &&& if spake_reply_ok(old(self).role, data@) {
                        old(self).our_payload@.len() > 65535 && error->Protocol_0@ == too_large_msg()
                    } else {
                        error->Protocol_0@ == finish_failed_msg()
                    }
                },
                PairStep::Done(_) => false,
            },
    {
        if self.phase == PairPhase::AwaitPayload {
            self.their_payload = data;
            self.phase = PairPhase::AwaitTag;
            return PairStep::Continue { write: Vec::new(), read: PairRead::Tag };
        }
        let state = self.spake.take().unwrap();
        self.phase = PairPhase::Finished;
        let key = match spake_finish(state, data.as_slice()) {
            Some(k) => k,
            None => {
                let c: [char; 20] = ['S', 'P', 'A', 'K', 'E', '2', ' ', 'f', 'i', 'n', 'i', 's', 'h', ' ', 'f', 'a', 'i', 'l', 'e', 'd'];
                proof { assert(c@ =~= finish_failed_msg()); }
                return PairStep::Fail { write: Vec::new(), error: PairError::Protocol(string_from(c.as_slice())) };
            },
        };
        let a2b = derive(key.as_slice(), LABEL_A2B.as_slice());
        let b2a = derive(key.as_slice(), LABEL_B2A.as_slice());
        match self.role {
            Role::Offerer => {
                self.send_key = a2b;
                self.recv_key = b2a;
            },
            Role::Requester => {
                self.send_key = b2a;
                self.recv_key = a2b;
            },
        }
        self.shared = Ghost(key@);
        let mut write = match frame_chunk(self.our_payload.as_slice()) {
            Ok(w) => w,
            Err(error) => return PairStep::Fail { write: Vec::new(), error },
        };
        let tag = hmac_sha256(self.send_key.as_slice(), self.our_payload.as_slice());
        let ghost framed = write@;
        let mut i: usize = 0;
        while i < 32
            invariant
                i <= 32,
                write@ == framed + tag@.subrange(0, i as int),
            decreases 32 - i,
        {
            write.push(tag[i]);
            proof { assert(tag@.subrange(0, i + 1) =~= tag@.subrange(0, i as int).push(tag@[i as int])); }
            i += 1;
        }
        proof { assert(tag@.subrange(0, 32) =~= tag@); }
        self.phase = PairPhase::AwaitPayload;
        PairStep::Continue { write, read: PairRead::Chunk }
    }

    /// The peer's tag over its payload. A tag that does not check out means
    /// a wrong PIN or a tamper: the peer is told to stop (a zero byte) and
    /// pairing fails. Otherwise we confirm (a one byte) and wait for the
    /// peer's confirmation.
    pub fn on_tag(&mut self, tag: [u8; 32]) -> (r: PairStep)
        requires
            old(self).inv(),
            old(self).phase == PairPhase::AwaitTag,
        ensures
            final(self).inv(),
            final(self).role == old(self).role,
            final(self).shared == old(self).shared,
            final(self).their_payload == old(self).their_payload,
            ({
                let ok = hmac_sha256_tag(spec_subkeys(old(self).role, old(self).shared@).1, old(self).their_payload@) == tag@;
                if ok {
                    &&& final(self).phase == PairPhase::AwaitAck
                    &&& final(self).their_tag == tag
                    &&& r matches PairStep::Continue { write, read }
                    &&& write@ == seq![1u8]
                    &&& read == PairRead::Ack
                } else {
                    &&& final(self).phase == PairPhase::Finished
                    &&& r matches PairStep::Fail { write, error }
                    &&& write@ == seq![0u8]
                    &&& error == PairError::BadPin
                }
            }),
    {
        let expected = hmac_sha256(self.recv_key.as_slice(), self.their_payload.as_slice());
        let mut write: Vec<u8> = Vec::new();
        if !ct_eq(&expected, &tag) {
            self.phase = PairPhase::Finished;
            write.push(0u8);
            return PairStep::Fail { write, error: PairError::BadPin };
        }
        self.their_tag = tag;
        self.phase = PairPhase::AwaitAck;
        write.push(1u8);
        PairStep::Continue { write, read: PairRead::Ack }
    }

    /// The peer's confirmation byte (`None` when the peer closed or did not
    /// answer in time). Only a `1` completes pairing, and only then is the
    /// peer's payload handed out.
    pub fn on_ack(&mut self, ack: Option<u8>) -> (r: PairStep)
        requires
            old(self).inv(),
            old(self).phase == PairPhase::AwaitAck,
        ensures
            final(self).inv(),
            final(self).phase == PairPhase::Finished,
            match r {
                PairStep::Done(p) => {
                    &&& ack == Some(1u8)
                    &&& p@ == old(self).their_payload@
                    &&& hmac_sha256_tag(spec_subkeys(old(self).role, old(self).shared@).1, p@) == old(self).their_tag@
                },
                PairStep::Fail { write, error } => ack != Some(1u8) && write@.len() == 0 && error == PairError::PeerAborted,
                PairStep::Continue { .. } => false,
            },
    {
        self.phase = PairPhase::Finished;
        match ack {
            Some(b) => {
                if b == 1 {
                    let mut p: Vec<u8> = Vec::new();
                    std::mem::swap(&mut p, &mut self.their_payload);
                    return PairStep::Done(p);
                }
            },
            None => {},
        }
        PairStep::Fail { write: Vec::new(), error: PairError::PeerAborted }
    }
}

/// A pairing service record answers to `target` when its advertised name
/// or its instance label (the offerer's device id) equals the target,
/// ignoring ASCII case. A fullname of another service has an empty label.
pub open spec fn spec_target_matches(name: Option<Seq<char>>, fullname: Seq<char>, target: Seq<char>) -> bool {
    let label = match spec_instance_in(fullname, PAIR_SERVICE_TYPE@) {
        Some(l) => l,
        None => Seq::empty(),
    };
    (name is Some && eq_ignore_case(name->0, target)) || eq_ignore_case(label, target)
}

/// Whether a resolved pairing service is the one the user named.
pub fn target_matches(name: Option<&str>, fullname: &str, target: &str) -> (b: bool)
    ensures b == spec_target_matches(match name { Some(n) => Some(n@), None => None }, fullname@, target@),
{
    let t = chars_of(target);
    let name_ok = match name {
        Some(n) => eq_ignore_ascii_case(&chars_of(n), t.as_slice()),
        None => false,
    };
    let label = match instance_in(fullname, PAIR_SERVICE_TYPE) {
        Some(l) => chars_of(l.as_str()),
        None => Vec::new(),
    };
    name_ok || eq_ignore_ascii_case(&label, t.as_slice())
}

/// A pairing offer answers to the target when its advertised name is the
/// target up to the case of ASCII letters: same length, and at each place
/// the same character or the upper- and lower-case forms of one letter.
pub proof fn lemma_name_matches_ignoring_case(n: Seq<char>, fullname: Seq<char>, target: Seq<char>)
    requires
        n.len() == target.len(),
        forall|i: int| 0 <= i < n.len() ==> {
            ||| n[i] == target[i]
            ||| ('A' <= n[i] <= 'Z' && target[i] as u32 == n[i] as u32 + 32)
            ||| ('A' <= target[i] <= 'Z' && n[i] as u32 == target[i] as u32 + 32)
        },
    ensures
        spec_target_matches(Some(n), fullname, target),
{
    assert forall|i: int| 0 <= i < n.len() implies lower(n[i]) == lower(target[i]) by {
        let a = n[i];
        let b = target[i];
        if 'A' <= a <= 'Z' && b as u32 == a as u32 + 32 {
            assert(lower(a) == ((a as u32) + 32) as char);
            assert(!('A' <= b <= 'Z'));
        } else if 'A' <= b <= 'Z' && a as u32 == b as u32 + 32 {
            assert(!('A' <= a <= 'Z'));
        }
    }
    assert(lower_seq(n) =~= lower_seq(target));
}

} // verus!
