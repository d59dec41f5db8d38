//! Decisions of the connection manager: which paired peers to dial, which
//! inbound connections to accept, and what to announce when a connection
//! comes or goes.
//!
//! Arbitration: of two devices, the one whose id is lexicographically lower
//! dials; the other only accepts. Only peers in the roster are dialed, and
//! dropping a peer from the roster drops its connection. The manager is a
//! state machine: each event yields the actions the runtime performs
//! (spawning dial loops, pushing address lists, aborting tasks, updating
//! the peer bus and emitting observability events).

use vstd::prelude::*;
use crate::connection::DisconnectReason;
use crate::discovery::DiscoveredPeer;
use crate::proto::Caps;
use crate::state::DaemonState;
use crate::roster::{addr_pred, has_id, last_with_id, with_address, RosterInner, RosterPeer};
use crate::strmap::{str_eq, StrMap};
use crate::text::chars_of;

verus! {

/// Which side opens the connection between two devices.
#[derive(Debug, Clone, Copy, PartialEq, Eq, Structural)]
pub enum Role {
    Dialer,
    Acceptor,
}

/// Strict lexicographic order on character sequences (the order of `str`).
pub open spec fn lex_lt(a: Seq<char>, b: Seq<char>) -> bool
    decreases a.len(),
{
    if b.len() == 0 {
        false
    } else if a.len() == 0 {
        true
    } else if a[0] != b[0] {
        (a[0] as int) < (b[0] as int)
    } else {
        lex_lt(a.drop_first(), b.drop_first())
    }
}

/// The role this device plays towards `peer`.
pub open spec fn spec_role(own: Seq<char>, peer: Seq<char>) -> Role {
    if lex_lt(own, peer) { Role::Dialer } else { Role::Acceptor }
}

/// No sequence is lower than itself.
pub proof fn lemma_lex_irreflexive(a: Seq<char>)
    ensures !lex_lt(a, a),
    decreases a.len(),
{
    if a.len() > 0 {
        lemma_lex_irreflexive(a.drop_first());
    }
}

/// Of two distinct sequences exactly one is lower.
pub proof fn lemma_lex_trichotomy(a: Seq<char>, b: Seq<char>)
    ensures
        !(lex_lt(a, b) && lex_lt(b, a)),
        a != b ==> (lex_lt(a, b) || lex_lt(b, a)),
    decreases a.len(),
{
    if a.len() > 0 && b.len() > 0 {
        lemma_lex_trichotomy(a.drop_first(), b.drop_first());
        if a[0] == b[0] && a != b {
            assert(a =~= seq![a[0]] + a.drop_first());
            assert(b =~= seq![b[0]] + b.drop_first());
        }
        if a[0] != b[0] {
            assert((a[0] as int) != (b[0] as int));
        }
    } else if a.len() == 0 && b.len() == 0 {
        assert(a =~= b);
    }
}

/// Arbitration is deterministic and opposite: for two distinct ids exactly
/// one side dials, and a device never dials itself.
pub proof fn lemma_roles_opposite(a: Seq<char>, b: Seq<char>)
    ensures
        a != b ==> (spec_role(a, b) == Role::Dialer <==> spec_role(b, a) == Role::Acceptor),
        spec_role(a, a) == Role::Acceptor,
{
    lemma_lex_trichotomy(a, b);
    lemma_lex_irreflexive(a);
}

/// `str` comparison `a < b`.
pub fn str_lt(a: &str, b: &str) -> (r: bool)
    ensures r == lex_lt(a@, b@),
{
    let va = chars_of(a);
    let vb = chars_of(b);
    let mut i: usize = 0;
    proof {
        assert(a@.skip(0) =~= a@);
        assert(b@.skip(0) =~= b@);
    }
    while i < va.len() && i < vb.len()
        invariant
            va@ == a@,
            vb@ == b@,
            i <= va@.len(),
            i <= vb@.len(),
            lex_lt(a@, b@) == lex_lt(a@.skip(i as int), b@.skip(i as int)),
        decreases va@.len() - i,
    {
        let ghost sa = a@.skip(i as int);
        let ghost sb = b@.skip(i as int);
        if va[i] != vb[i] {
            proof {
                assert(sa[0] == va@[i as int]);
                assert(sb[0] == vb@[i as int]);
            }
            return va[i] < vb[i];
        }
        proof {
            assert(sa.drop_first() =~= a@.skip(i + 1));
            assert(sb.drop_first() =~= b@.skip(i + 1));
        }
        i += 1;
    }
    i < vb.len()
}

/// Which side dials: the lower id.
pub fn role_for(own_id: &str, peer_id: &str) -> (r: Role)
    ensures r == spec_role(own_id@, peer_id@),
{
    if str_lt(own_id, peer_id) { Role::Dialer } else { Role::Acceptor }
}

/// Observability event: one per connection state change.
#[derive(Debug, Clone, PartialEq, Eq)]
pub enum TransportEvent {
    PeerConnected {
        device_id: String,
        device_name: String,
        caps: Caps,
        /// The address we dialed, when we were the dialer.
        addr: Option<String>,
    },
    PeerDisconnected {
        device_id: String,
        reason: String,
    },
}

/// What the manager knows about one peer.
#[derive(Debug)]
pub struct PeerEntry {
    pub role: Role,
    pub device_name: String,
    pub connected: bool,
    /// A dial loop runs for this peer and takes address-list updates.
    pub dialing: bool,
    /// A task runs for this peer: the dial loop, or the acceptor's connection.
    pub has_task: bool,
}

/// What the runtime must do after an event.
#[derive(Debug)]
pub enum ManagerAction {
    /// Spawn the dial loop for a peer with this address list.
    StartDial { peer_id: String, addrs: Vec<String> },
    /// Hand a running dial loop a fresh address list.
    SetAddrs { peer_id: String, addrs: Vec<String> },
    /// Abort the peer's running task.
    AbortTask { peer_id: String },
    /// Run the connection for the inbound stream just handshaken.
    RunInbound { peer_id: String, device_name: String, caps: Caps },
    /// Drop the inbound stream just handshaken.
    RejectInbound { peer_id: String },
    /// Register the peer's outbound queue on the bus.
    BusInsert { peer_id: String },
    /// Take the peer off the bus.
    BusRemove { peer_id: String },
    /// Publish an observability event.
    Emit(TransportEvent),
}

impl TransportEvent {
    /// The device the event is about.
    pub open spec fn device(self) -> Seq<char> {
        match self {
            TransportEvent::PeerConnected { device_id, .. } => device_id@,
            TransportEvent::PeerDisconnected { device_id, .. } => device_id@,
        }
    }
}

impl ManagerAction {
    /// The peer the action is about.
    pub open spec fn peer(self) -> Seq<char> {
        match self {
            ManagerAction::StartDial { peer_id, .. } => peer_id@,
            ManagerAction::SetAddrs { peer_id, .. } => peer_id@,
            ManagerAction::AbortTask { peer_id } => peer_id@,
            ManagerAction::RunInbound { peer_id, .. } => peer_id@,
            ManagerAction::RejectInbound { peer_id } => peer_id@,
            ManagerAction::BusInsert { peer_id } => peer_id@,
            ManagerAction::BusRemove { peer_id } => peer_id@,
            ManagerAction::Emit(ev) => ev.device(),
        }
    }

    /// Starts or feeds a dial loop.
    pub open spec fn is_dial(self) -> bool {
        self is StartDial || self is SetAddrs
    }
}

/// The texts of a list of strings.
pub open spec fn strs(v: Seq<String>) -> Seq<Seq<char>> {
    v.map_values(|s: String| s@)
}

/// `base` followed by each entry of `extra` that is not yet present.
pub open spec fn merge_addrs(base: Seq<Seq<char>>, extra: Seq<Seq<char>>) -> Seq<Seq<char>>
    decreases extra.len(),
{
    if extra.len() == 0 {
        base
    } else {
        let m = merge_addrs(base, extra.drop_last());
        if m.contains(extra.last()) { m } else { m.push(extra.last()) }
    }
}

/// The static address configured for `id` on its last roster entry, if any.
pub open spec fn static_addrs(ps: Seq<RosterPeer>, id: Seq<char>) -> Seq<Seq<char>> {
    if exists|i: int| last_with_id(ps, id, i) {
        let i = choose|i: int| last_with_id(ps, id, i);
        match ps[i].address {
            Some(a) => seq![a@],
            None => Seq::empty(),
        }
    } else {
        Seq::empty()
    }
}

/// A trusted id has a last roster entry.
proof fn lemma_last_exists(ps: Seq<RosterPeer>, id: Seq<char>)
    requires has_id(ps, id),
    ensures exists|i: int| last_with_id(ps, id, i),
    decreases ps.len(),
{
    let n = ps.len() as int;
    if ps[n - 1].device_id@ == id {
        assert(last_with_id(ps, id, n - 1));
    } else {
        let q = ps.drop_last();
        let w = choose|i: int| 0 <= i < ps.len() && #[trigger] ps[i].device_id@ == id;
        assert(q[w].device_id@ == id);
        lemma_last_exists(q, id);
        let i = choose|i: int| last_with_id(q, id, i);
        assert forall|j: int| i < j < ps.len() implies ps[j].device_id@ != id by {
            if j < n - 1 {
                assert(q[j] == ps[j]);
            }
        }
        assert(last_with_id(ps, id, i));
    }
}

/// The static addresses of `device_id`, as the roster records them.
fn static_addrs_of(roster: &RosterInner, device_id: &str) -> (r: Vec<String>)
    ensures strs(r@) == static_addrs(roster.peers@, device_id@),
{
    let r = roster.static_addrs_for(device_id);
    proof {
        let ps = roster.peers@;
        let id = device_id@;
        if exists|i: int| last_with_id(ps, id, i) {
            let i = choose|i: int| last_with_id(ps, id, i);
            assert(last_with_id(ps, id, i));
            assert(strs(r@) =~= static_addrs(ps, id));
        } else {
            if has_id(ps, id) {
                lemma_last_exists(ps, id);
            }
            assert(strs(r@) =~= static_addrs(ps, id));
        }
    }
    r
}

/// Whether `v` holds the text `s`.
fn holds_str(v: &Vec<String>, s: &str) -> (b: bool)
    ensures b == strs(v@).contains(s@),
{
    let mut i: usize = 0;
    while i < v.len()
        invariant
            i <= v@.len(),
            forall|j: int| 0 <= j < i ==> v@[j]@ != s@,
        decreases v@.len() - i,
    {
        if str_eq(v[i].as_str(), s) {
            proof { assert(strs(v@)[i as int] == s@); }
            return true;
        }
        i += 1;
    }
    proof {
        if strs(v@).contains(s@) {
            let j = choose|j: int| 0 <= j < strs(v@).len() && strs(v@)[j] == s@;
            assert(v@[j]@ == s@);
        }
    }
    false
}

/// The dial list for a peer: its discovered addresses, then its static
/// address when not already among them.
fn merged_addrs(found: &Vec<String>, roster: &RosterInner, device_id: &str) -> (r: Vec<String>)
    ensures strs(r@) == merge_addrs(strs(found@), static_addrs(roster.peers@, device_id@)),
{
    let mut addrs: Vec<String> = Vec::new();
    let mut i: usize = 0;
    while i < found.len()
        invariant
            i <= found@.len(),
            strs(addrs@) == strs(found@).subrange(0, i as int),
        decreases found@.len() - i,
    {
        let c = found[i].clone();
        let ghost pre = addrs@;
        addrs.push(c);
        proof {
            assert(addrs@ == pre.push(c));
            assert(strs(addrs@) =~= strs(pre).push(c@));
            assert(strs(addrs@) =~= strs(found@).subrange(0, i + 1));
        }
        i += 1;
    }
    proof { assert(strs(found@).subrange(0, found@.len() as int) =~= strs(found@)); }
    let extra = static_addrs_of(roster, device_id);
    let ghost base = strs(found@);
    let ghost ex = strs(extra@);
    let mut j: usize = 0;
    proof { assert(ex.subrange(0, 0).len() == 0); }
    while j < extra.len()
        invariant
            j <= extra@.len(),
            ex == strs(extra@),
            strs(addrs@) == merge_addrs(base, ex.subrange(0, j as int)),
        decreases extra@.len() - j,
    {
        let ghost pre = ex.subrange(0, j as int);
        let ghost post = ex.subrange(0, j + 1);
        proof {
            assert(post.drop_last() =~= pre);
            assert(post.last() == extra@[j as int]@);
        }
        if !holds_str(&addrs, extra[j].as_str()) {
            let c = extra[j].clone();
            let ghost before = addrs@;
            addrs.push(c);
            proof {
                assert(addrs@ == before.push(c));
                assert(strs(addrs@) =~= strs(before).push(c@));
            }
        }
        j += 1;
    }
    proof { assert(ex.subrange(0, extra@.len() as int) =~= ex); }
    addrs
}

/// The per-peer facts the manager keeps: the role follows from the ids, and
/// only a dialer runs a dial loop, which is a running task.
pub open spec fn entry_ok(own: Seq<char>, k: Seq<char>, e: PeerEntry) -> bool {
    &&& e.role == spec_role(own, k)
    &&& e.dialing ==> e.role == Role::Dialer
    &&& e.dialing ==> e.has_task
}

/// Every entry of `m` keeps the per-peer facts.
pub open spec fn entries_ok(own: Seq<char>, m: Map<Seq<char>, PeerEntry>) -> bool {
    forall|k: Seq<char>| #[trigger] m.contains_key(k) ==> entry_ok(own, k, m[k])
}

/// What making sure of a discovered, trusted peer does: its entry exists
/// with the peer's name; when this device dials, a dial loop is started with
/// the peer's addresses (plus its static address), or the running loop is
/// handed them; when it accepts, nothing runs.
pub open spec fn ensured(
    before: Map<Seq<char>, PeerEntry>,
    after: Map<Seq<char>, PeerEntry>,
    own: Seq<char>,
    ps: Seq<RosterPeer>,
    p: DiscoveredPeer,
    r: Option<ManagerAction>,
) -> bool {
    let id = p.device_id@;
    let was = before.contains_key(id);
    let role = spec_role(own, id);
    let e = after[id];
    let addrs = merge_addrs(strs(p.addrs@), static_addrs(ps, id));
    &&& after.dom() == before.dom().insert(id)
    &&& forall|k: Seq<char>| k != id && #[trigger] before.contains_key(k) ==> after[k] == before[k]
    &&& e.role == role
    &&& e.device_name@ == p.device_name@
    &&& e.connected == (was && before[id].connected)
    &&& e.dialing == (role == Role::Dialer)
    &&& e.has_task == (role == Role::Dialer || (was && before[id].has_task))
    &&& match r {
        None => role == Role::Acceptor,
        Some(a) => {
            &&& role == Role::Dialer
            &&& if was && before[id].dialing {
                (a matches ManagerAction::SetAddrs { peer_id, addrs: v } && peer_id@ == id && strs(v@) == addrs)
            } else {
                (a matches ManagerAction::StartDial { peer_id, addrs: v } && peer_id@ == id && strs(v@) == addrs)
            }
        },
    }
}

/// Make sure a discovered peer has its entry and, when this device dials,
/// a dial loop that knows the peer's current addresses.
fn ensure_peer(peers: &mut StrMap<PeerEntry>, own_id: &str, roster: &RosterInner, p: &DiscoveredPeer) -> (r: Option<ManagerAction>)
    requires
        old(peers).wf(),
        entries_ok(own_id@, old(peers).view()),
    ensures
        final(peers).wf(),
        entries_ok(own_id@, final(peers).view()),
        ensured(old(peers).view(), final(peers).view(), own_id@, roster.peers@, *p, r),
{
    let ghost before = peers.view();
    let ghost id = p.device_id@;
    let role = role_for(own_id, p.device_id.as_str());
    let mut entry = match peers.remove(p.device_id.as_str()) {
        Some(e) => e,
        None => PeerEntry {
            role,
            device_name: String::new(),
            connected: false,
            dialing: false,
            has_task: false,
        },
    };
    entry.device_name = p.device_name.clone();
    let action = match role {
        Role::Dialer => {
            let addrs = merged_addrs(&p.addrs, roster, p.device_id.as_str());
            if entry.dialing {
                Some(ManagerAction::SetAddrs { peer_id: p.device_id.clone(), addrs })
            } else {
                entry.dialing = true;
                entry.has_task = true;
                Some(ManagerAction::StartDial { peer_id: p.device_id.clone(), addrs })
            }
        },
        Role::Acceptor => None,
    };
    let ghost e = entry;
    peers.insert(p.device_id.clone(), entry);
    proof {
        let after = peers.view();
        assert(after == before.remove(id).insert(id, e));
        assert(after.dom() =~= before.dom().insert(id));
        assert forall|k: Seq<char>| #[trigger] after.contains_key(k) implies entry_ok(own_id@, k, after[k]) by {
            if k != id {
                assert(before.contains_key(k));
            }
        }
    }
    action
}

/// The actions from position `from` on all start or feed a dial loop, for
/// a trusted peer that this device dials.
pub open spec fn new_dials_trusted(acts: Seq<ManagerAction>, from: int, own: Seq<char>, ps: Seq<RosterPeer>) -> bool {
    forall|q: int| from <= q < acts.len() ==> {
        &&& (#[trigger] acts[q]).is_dial()
        &&& has_id(ps, acts[q].peer())
        &&& spec_role(own, acts[q].peer()) == Role::Dialer
    }
}

/// `a` announces that peer `k`'s connection ended because it was unpaired.
pub open spec fn announces_unpaired(a: ManagerAction, k: Seq<char>) -> bool {
    a matches ManagerAction::Emit(TransportEvent::PeerDisconnected { device_id, reason })
        && device_id@ == k && reason@ == "peer unpaired"@
}

/// `acts` drop peer `k`, whose entry was `e`, as unpaired: it leaves the
/// bus, its running task is aborted, and a live connection is announced as
/// ended because the peer was unpaired.
pub open spec fn unpair_acts(acts: Seq<ManagerAction>, k: Seq<char>, e: PeerEntry) -> bool {
    &&& exists|q: int| 0 <= q < acts.len() && (#[trigger] acts[q]) is BusRemove && acts[q].peer() == k
    &&& e.has_task ==> exists|q: int| 0 <= q < acts.len() && (#[trigger] acts[q]) is AbortTask && acts[q].peer() == k
    &&& e.connected ==> exists|q: int| 0 <= q < acts.len() && #[trigger] announces_unpaired(acts[q], k)
}

/// Every entry that runs a dial loop is for a peer the roster trusts.
pub open spec fn dialing_trusted(m: Map<Seq<char>, PeerEntry>, ps: Seq<RosterPeer>) -> bool {
    forall|k: Seq<char>| #[trigger] m.contains_key(k) && m[k].dialing ==> has_id(ps, k)
}

/// Every action that starts or feeds a dial loop is for a peer the roster
/// trusts and that this device dials.
pub open spec fn dials_trusted(acts: Seq<ManagerAction>, own: Seq<char>, ps: Seq<RosterPeer>) -> bool {
    forall|q: int| 0 <= q < acts.len() && (#[trigger] acts[q]).is_dial()
        ==> has_id(ps, acts[q].peer()) && spec_role(own, acts[q].peer()) == Role::Dialer
}

/// A step under an unchanged roster: if every dial loop was for a trusted
/// peer before, it still is, and the step dials only trusted peers that
/// this device dials.
pub open spec fn step_keeps_trust(
    before: Map<Seq<char>, PeerEntry>,
    after: Map<Seq<char>, PeerEntry>,
    acts: Seq<ManagerAction>,
    own: Seq<char>,
    ps: Seq<RosterPeer>,
) -> bool {
    dialing_trusted(before, ps) ==> dialing_trusted(after, ps) && dials_trusted(acts, own, ps)
}

/// A step that takes in a new roster: afterwards every dial loop is for a
/// peer it trusts, and the step dials only such peers that this device
/// dials, whatever came before.
pub open spec fn resyncs_trust(after: Map<Seq<char>, PeerEntry>, acts: Seq<ManagerAction>, own: Seq<char>, ps: Seq<RosterPeer>) -> bool {
    dialing_trusted(after, ps) && dials_trusted(acts, own, ps)
}

/// The action list of an optional action.
pub open spec fn opt_acts(r: Option<ManagerAction>) -> Seq<ManagerAction> {
    match r {
        Some(a) => seq![a],
        None => Seq::empty(),
    }
}

/// Over a run of the manager, only peers the roster trusts, and that this
/// device dials, are ever dialed: from a manager with no dial loop, through
/// steps that each keep trust under the roster in force or take in a new
/// roster (every change of roster is taken in by the step that first runs
/// under it), every dial action of step `i` is for a peer trusted by the
/// roster of step `i` and dialed by this device, and every dial loop left
/// running is for such a peer.
pub proof fn lemma_run_dials_only_trusted(
    states: Seq<Map<Seq<char>, PeerEntry>>,
    acts: Seq<Seq<ManagerAction>>,
    rosters: Seq<Seq<RosterPeer>>,
    own: Seq<char>,
)
    requires
        states.len() == acts.len() + 1,
        rosters.len() == acts.len(),
        forall|k: Seq<char>| #[trigger] states[0].contains_key(k) ==> !states[0][k].dialing,
        forall|i: int| #![trigger acts[i]] 0 < i < acts.len() && rosters[i] != rosters[i - 1]
            ==> resyncs_trust(states[i + 1], acts[i], own, rosters[i]),
        forall|i: int| #![trigger acts[i]] 0 <= i < acts.len()
            ==> step_keeps_trust(states[i], states[i + 1], acts[i], own, rosters[i])
                || resyncs_trust(states[i + 1], acts[i], own, rosters[i]),
    ensures
        forall|i: int| 0 <= i < acts.len() ==> #[trigger] dials_trusted(acts[i], own, rosters[i])
            && dialing_trusted(states[i + 1], rosters[i]),
{
    assert forall|i: int| 0 <= i < acts.len() implies #[trigger] dials_trusted(acts[i], own, rosters[i])
        && dialing_trusted(states[i + 1], rosters[i]) by {
        lemma_run_prefix(states, acts, rosters, own, i);
    }
}

/// The run law up to step `n`.
proof fn lemma_run_prefix(
    states: Seq<Map<Seq<char>, PeerEntry>>,
    acts: Seq<Seq<ManagerAction>>,
    rosters: Seq<Seq<RosterPeer>>,
    own: Seq<char>,
    n: int,
)
    requires
        states.len() == acts.len() + 1,
        rosters.len() == acts.len(),
        0 <= n < acts.len(),
        forall|k: Seq<char>| #[trigger] states[0].contains_key(k) ==> !states[0][k].dialing,
        forall|i: int| #![trigger acts[i]] 0 < i < acts.len() && rosters[i] != rosters[i - 1]
            ==> resyncs_trust(states[i + 1], acts[i], own, rosters[i]),
        forall|i: int| #![trigger acts[i]] 0 <= i < acts.len()
            ==> step_keeps_trust(states[i], states[i + 1], acts[i], own, rosters[i])
                || resyncs_trust(states[i + 1], acts[i], own, rosters[i]),
    ensures
        dials_trusted(acts[n], own, rosters[n]),
        dialing_trusted(states[n + 1], rosters[n]),
    decreases n,
{
    if n == 0 {
        assert(dialing_trusted(states[0], rosters[0]));
        let a = acts[0];
    } else {
        lemma_run_prefix(states, acts, rosters, own, n - 1);
        let a = acts[n];
    }
}

/// Actions appended after the ones that drop a peer keep them.
proof fn lemma_unpair_acts_grow(a0: Seq<ManagerAction>, a1: Seq<ManagerAction>, k: Seq<char>, e: PeerEntry)
    requires
        unpair_acts(a0, k, e),
        a1.len() >= a0.len(),
        forall|q: int| 0 <= q < a0.len() ==> #[trigger] a1[q] == a0[q],
    ensures
        unpair_acts(a1, k, e),
{
    let q = choose|q: int| 0 <= q < a0.len() && (#[trigger] a0[q]) is BusRemove && a0[q].peer() == k;
    assert(a1[q] == a0[q]);
    if e.has_task {
        let q2 = choose|q: int| 0 <= q < a0.len() && (#[trigger] a0[q]) is AbortTask && a0[q].peer() == k;
        assert(a1[q2] == a0[q2]);
    }
    if e.connected {
        let q3 = choose|q: int| 0 <= q < a0.len() && #[trigger] announces_unpaired(a0[q], k);
        assert(a1[q3] == a0[q3]);
    }
}

/// The connection manager's state.
pub struct Manager {
    /// This device's id.
    pub own_id: String,
    /// Peers that have an entry: trusted peers seen, dialed or connected.
    pub peers: StrMap<PeerEntry>,
    /// Everything discovery has reported, trusted or not, so that dialing
    /// starts at once when a peer becomes trusted.
    pub discovered: StrMap<DiscoveredPeer>,
}

impl Manager {
    /// The manager's invariant.
    pub open spec fn inv(&self) -> bool {
        &&& self.peers.wf()
        &&& self.discovered.wf()
        &&& entries_ok(self.own_id@, self.peers.view())
        &&& forall|k: Seq<char>| #[trigger] self.discovered.view().contains_key(k)
            ==> self.discovered.view()[k].device_id@ == k
    }

    /// A manager for this device that knows no peer yet.
    pub fn new(own_id: String) -> (m: Manager)
        ensures
            m.inv(),
            m.own_id@ == own_id@,
            m.peers.view() == Map::<Seq<char>, PeerEntry>::empty(),
            m.discovered.view() == Map::<Seq<char>, DiscoveredPeer>::empty(),
    {
        Manager { own_id, peers: StrMap::new(), discovered: StrMap::new() }
    }

    /// Discovery found a peer (or its addresses changed). It is remembered
    /// either way; only a trusted peer gets an entry and, if this device
    /// dials, a dial loop.
    pub fn on_found(&mut self, roster: &RosterInner, p: DiscoveredPeer) -> (r: Option<ManagerAction>)
        requires old(self).inv(),
        ensures
            final(self).inv(),
            final(self).own_id == old(self).own_id,
            final(self).discovered.view() == old(self).discovered.view().insert(p.device_id@, p),
            !has_id(roster.peers@, p.device_id@) ==> r is None && final(self).peers.view() == old(self).peers.view(),
            has_id(roster.peers@, p.device_id@) ==> ensured(
                old(self).peers.view(), final(self).peers.view(), old(self).own_id@, roster.peers@, p, r),
            step_keeps_trust(old(self).peers.view(), final(self).peers.view(), opt_acts(r), old(self).own_id@, roster.peers@),
    {
        let trusted = roster.is_trusted_id(p.device_id.as_str());
        let r = if trusted {
            ensure_peer(&mut self.peers, self.own_id.as_str(), roster, &p)
        } else {
            None
        };
        self.discovered.insert(p.device_id.clone(), p);
        r
    }

    /// Discovery lost a peer. It is forgotten; a running dial loop falls back
    /// to the peer's static address (an empty list when it has none).
    pub fn on_lost(&mut self, roster: &RosterInner, device_id: &str) -> (r: Option<ManagerAction>)
        requires old(self).inv(),
        ensures
            final(self).inv(),
            final(self).own_id == old(self).own_id,
            final(self).peers.view() == old(self).peers.view(),
            final(self).discovered.view() == old(self).discovered.view().remove(device_id@),
            match r {
                Some(a) => {
                    &&& old(self).peers.view().contains_key(device_id@)
                    &&& old(self).peers.view()[device_id@].dialing
                    &&& a matches ManagerAction::SetAddrs { peer_id, addrs }
                    &&& peer_id@ == device_id@
                    &&& strs(addrs@) == static_addrs(roster.peers@, device_id@)
                },
                None => !(old(self).peers.view().contains_key(device_id@) && old(self).peers.view()[device_id@].dialing),
            },
            step_keeps_trust(old(self).peers.view(), final(self).peers.view(), opt_acts(r), old(self).own_id@, roster.peers@),
    {
        let _ = self.discovered.remove(device_id);
        match self.peers.get(device_id) {
            Some(e) => {
                if e.dialing {
                    let fallback = static_addrs_of(roster, device_id);
                    Some(ManagerAction::SetAddrs { peer_id: device_id.to_owned(), addrs: fallback })
                } else {
                    None
                }
            },
            None => None,
        }
    }

    /// An inbound connection finished its handshake. When this device is
    /// the dialer for that peer it is refused; otherwise it replaces any
    /// connection the peer had and is run.
    pub fn on_inbound(&mut self, peer_id: String, device_name: String, caps: Caps) -> (acts: Vec<ManagerAction>)
        requires old(self).inv(),
        ensures
            final(self).inv(),
            final(self).own_id == old(self).own_id,
            final(self).discovered.view() == old(self).discovered.view(),
            spec_role(old(self).own_id@, peer_id@) == Role::Dialer ==> {
                &&& final(self).peers.view() == old(self).peers.view()
                &&& acts@.len() == 1
                &&& acts@[0] matches ManagerAction::RejectInbound { peer_id: q }
                &&& q@ == peer_id@
            },
            spec_role(old(self).own_id@, peer_id@) == Role::Acceptor ==> {
                let before = old(self).peers.view();
                let was = before.contains_key(peer_id@);
                let replaced = was && before[peer_id@].has_task;
                let dropped = replaced && before[peer_id@].connected;
                let e = final(self).peers.view()[peer_id@];
                &&& final(self).peers.view().dom() == before.dom().insert(peer_id@)
                &&& forall|k: Seq<char>| k != peer_id@ && #[trigger] before.contains_key(k)
                    ==> final(self).peers.view()[k] == before[k]
                &&& e.role == Role::Acceptor
                &&& e.device_name@ == device_name@
                &&& e.connected == (was && before[peer_id@].connected && !replaced)
                &&& !e.dialing
                &&& e.has_task
                &&& acts@.len() == 1 + (if replaced { 1int } else { 0 }) + (if dropped { 1int } else { 0 })
                &&& replaced ==> (acts@[0] matches ManagerAction::AbortTask { peer_id: q } && q@ == peer_id@)
                &&& dropped ==> (acts@[1] matches ManagerAction::Emit(TransportEvent::PeerDisconnected { device_id: d, reason })
                    && d@ == peer_id@ && reason@ == "replaced by a newer inbound connection"@)
                &&& acts@.last() matches ManagerAction::RunInbound { peer_id: q, device_name: n, caps: c }
                &&& q@ == peer_id@
                &&& n@ == device_name@
                &&& c == caps
            },
            forall|ps: Seq<RosterPeer>| #[trigger] step_keeps_trust(old(self).peers.view(), final(self).peers.view(), acts@, old(self).own_id@, ps),
    {
        if role_for(self.own_id.as_str(), peer_id.as_str()) == Role::Dialer {
            let mut acts: Vec<ManagerAction> = Vec::new();
            acts.push(ManagerAction::RejectInbound { peer_id });
            return acts;
        }
        let ghost before = self.peers.view();
        let ghost id = peer_id@;
        let mut entry = match self.peers.remove(peer_id.as_str()) {
            Some(e) => e,
            None => PeerEntry {
                role: Role::Acceptor,
                device_name: String::new(),
                connected: false,
                dialing: false,
                has_task: false,
            },
        };
        entry.device_name = device_name.clone();
        let mut acts: Vec<ManagerAction> = Vec::new();
        if entry.has_task {
            acts.push(ManagerAction::AbortTask { peer_id: peer_id.clone() });
            if entry.connected {
                entry.connected = false;
                let ev = TransportEvent::PeerDisconnected {
                    device_id: peer_id.clone(),
                    reason: "replaced by a newer inbound connection".to_owned(),
                };
                acts.push(ManagerAction::Emit(ev));
            }
        }
        acts.push(ManagerAction::RunInbound { peer_id: peer_id.clone(), device_name, caps });
        entry.has_task = true;
        let ghost e = entry;
        self.peers.insert(peer_id, entry);
        proof {
            let after = self.peers.view();
            assert(after == before.remove(id).insert(id, e));
            assert(after.dom() =~= before.dom().insert(id));
            assert forall|k: Seq<char>| #[trigger] after.contains_key(k) implies entry_ok(self.own_id@, k, after[k]) by {
                if k != id {
                    assert(before.contains_key(k));
                }
            }
        }
        acts
    }

    /// A connection came up: the peer goes on the bus and is announced.
    pub fn on_conn_up(&mut self, peer_id: String, device_name: String, caps: Caps, addr: Option<String>) -> (acts: Vec<ManagerAction>)
        requires old(self).inv(),
        ensures
            final(self).inv(),
            final(self).own_id == old(self).own_id,
            final(self).discovered.view() == old(self).discovered.view(),
            final(self).peers.view().dom() == old(self).peers.view().dom(),
            forall|k: Seq<char>| k != peer_id@ && #[trigger] old(self).peers.view().contains_key(k)
                ==> final(self).peers.view()[k] == old(self).peers.view()[k],
            old(self).peers.view().contains_key(peer_id@) ==> {
                let b = old(self).peers.view()[peer_id@];
                let e = final(self).peers.view()[peer_id@];
                &&& e.connected
                &&& e.device_name@ == device_name@
                &&& e.role == b.role && e.dialing == b.dialing && e.has_task == b.has_task
            },
            acts@.len() == 2,
            acts@[0] matches ManagerAction::BusInsert { peer_id: q } && q@ == peer_id@,
            acts@[1] matches ManagerAction::Emit(TransportEvent::PeerConnected { device_id: d, device_name: n, caps: c, addr: a })
                && d@ == peer_id@ && n@ == device_name@ && c == caps && a == addr,
            forall|ps: Seq<RosterPeer>| #[trigger] step_keeps_trust(old(self).peers.view(), final(self).peers.view(), acts@, old(self).own_id@, ps),
    {
        let ghost before = self.peers.view();
        let ghost id = peer_id@;
        match self.peers.remove(peer_id.as_str()) {
            Some(mut e) => {
                e.connected = true;
                e.device_name = device_name.clone();
                let ghost ee = e;
                self.peers.insert(peer_id.clone(), e);
                proof {
                    let after = self.peers.view();
                    assert(after == before.remove(id).insert(id, ee));
                    assert(after.dom() =~= before.dom());
                    assert forall|k: Seq<char>| #[trigger] after.contains_key(k) implies entry_ok(self.own_id@, k, after[k]) by {
                        if k != id {
                            assert(before.contains_key(k));
                        }
                    }
                }
            },
            None => {},
        }
        let mut acts: Vec<ManagerAction> = Vec::new();
        acts.push(ManagerAction::BusInsert { peer_id: peer_id.clone() });
        acts.push(ManagerAction::Emit(TransportEvent::PeerConnected { device_id: peer_id, device_name, caps, addr }));
        acts
    }

    /// A connection ended: the peer leaves the bus and the end is announced
    /// with its reason. An acceptor's connection task is gone; a dialer's
    /// loop keeps running and re-dials.
    pub fn on_conn_down(&mut self, peer_id: String, reason: &DisconnectReason) -> (acts: Vec<ManagerAction>)
        requires old(self).inv(),
        ensures
            final(self).inv(),
            final(self).own_id == old(self).own_id,
            final(self).discovered.view() == old(self).discovered.view(),
            final(self).peers.view().dom() == old(self).peers.view().dom(),
            forall|k: Seq<char>| k != peer_id@ && #[trigger] old(self).peers.view().contains_key(k)
                ==> final(self).peers.view()[k] == old(self).peers.view()[k],
            old(self).peers.view().contains_key(peer_id@) ==> {
                let b = old(self).peers.view()[peer_id@];
                let e = final(self).peers.view()[peer_id@];
                &&& !e.connected
                &&& e.device_name == b.device_name
                &&& e.role == b.role && e.dialing == b.dialing
                &&& e.has_task == (b.has_task && b.role == Role::Dialer)
            },
            acts@.len() == 2,
            acts@[0] matches ManagerAction::BusRemove { peer_id: q } && q@ == peer_id@,
            acts@[1] matches ManagerAction::Emit(TransportEvent::PeerDisconnected { device_id: d, reason: t })
                && d@ == peer_id@ && t@ == reason.spec_describe(),
            forall|ps: Seq<RosterPeer>| #[trigger] step_keeps_trust(old(self).peers.view(), final(self).peers.view(), acts@, old(self).own_id@, ps),
    {
        let ghost before = self.peers.view();
        let ghost id = peer_id@;
        match self.peers.remove(peer_id.as_str()) {
            Some(mut e) => {
                e.connected = false;
                if e.role == Role::Acceptor {
                    e.has_task = false;
                }
                let ghost ee = e;
                self.peers.insert(peer_id.clone(), e);
                proof {
                    let after = self.peers.view();
                    assert(after == before.remove(id).insert(id, ee));
                    assert(after.dom() =~= before.dom());
                    assert forall|k: Seq<char>| #[trigger] after.contains_key(k) implies entry_ok(self.own_id@, k, after[k]) by {
                        if k != id {
                            assert(before.contains_key(k));
                        }
                    }
                }
            },
            None => {},
        }
        let mut acts: Vec<ManagerAction> = Vec::new();
        acts.push(ManagerAction::BusRemove { peer_id: peer_id.clone() });
        acts.push(ManagerAction::Emit(TransportEvent::PeerDisconnected { device_id: peer_id, reason: reason.describe() }));
        acts
    }

    /// Drop the entries of peers the roster no longer trusts: each leaves
    /// the bus, its task is aborted, and a live connection is announced as
    /// ended because the peer was unpaired.
    fn drop_untrusted(&mut self, roster: &RosterInner, acts: &mut Vec<ManagerAction>)
        requires
            old(self).inv(),
            old(acts)@.len() == 0,
        ensures
            final(self).inv(),
            final(self).own_id == old(self).own_id,
            final(self).discovered == old(self).discovered,
            forall|k: Seq<char>| #[trigger] final(self).peers.view().contains_key(k)
                <==> (old(self).peers.view().contains_key(k) && has_id(roster.peers@, k)),
            forall|k: Seq<char>| #[trigger] final(self).peers.view().contains_key(k)
                ==> final(self).peers.view()[k] == old(self).peers.view()[k],
            forall|i: int| 0 <= i < final(acts)@.len() ==> {
                let a = #[trigger] final(acts)@[i];
                &&& !a.is_dial()
                &&& old(self).peers.view().contains_key(a.peer())
                &&& !has_id(roster.peers@, a.peer())
            },
            forall|k: Seq<char>| #[trigger] old(self).peers.view().contains_key(k) && !has_id(roster.peers@, k)
                ==> unpair_acts(final(acts)@, k, old(self).peers.view()[k]),
    {
        let ghost v0 = self.peers.view();
        let ghost e0 = self.peers.entries@;
        let keys = self.peers.keys();
        proof {
            assert forall|j1: int, j2: int| 0 <= j1 < keys@.len() && 0 <= j2 < keys@.len() && j1 != j2
                implies #[trigger] keys@[j1]@ != #[trigger] keys@[j2]@ by {
                assert(keys@[j1]@ == e0[j1].0@);
                assert(keys@[j2]@ == e0[j2].0@);
            }
        }
        let mut i: usize = 0;
        while i < keys.len()
            invariant
                i <= keys@.len(),
                keys@.len() == e0.len(),
                forall|j: int| 0 <= j < keys@.len() ==> #[trigger] keys@[j]@ == e0[j].0@,
                forall|k: Seq<char>| #[trigger] v0.contains_key(k) <==> exists|j: int| 0 <= j < e0.len() && #[trigger] e0[j].0@ == k,
                self.inv(),
                self.own_id == old(self).own_id,
                self.discovered == old(self).discovered,
                v0 == old(self).peers.view(),
                forall|k: Seq<char>| #[trigger] self.peers.view().contains_key(k) <==> (v0.contains_key(k)
                    && (has_id(roster.peers@, k) || !exists|j: int| 0 <= j < i && #[trigger] keys@[j]@ == k)),
                forall|k: Seq<char>| #[trigger] self.peers.view().contains_key(k) ==> self.peers.view()[k] == v0[k],
                forall|q: int| 0 <= q < acts@.len() ==> {
                    let a = #[trigger] acts@[q];
                    &&& !a.is_dial()
                    &&& v0.contains_key(a.peer())
                    &&& !has_id(roster.peers@, a.peer())
                },
                forall|j1: int, j2: int| 0 <= j1 < keys@.len() && 0 <= j2 < keys@.len() && j1 != j2
                    ==> #[trigger] keys@[j1]@ != #[trigger] keys@[j2]@,
                forall|j: int| 0 <= j < i && !has_id(roster.peers@, #[trigger] keys@[j]@)
                    ==> unpair_acts(acts@, keys@[j]@, v0[keys@[j]@]),
            decreases keys@.len() - i,
        {
            let id = &keys[i];
            let ghost kid = id@;
            proof {
                assert(v0.contains_key(kid)) by {
                    assert(e0[i as int].0@ == kid);
                }
            }
            if !roster.is_trusted_id(id.as_str()) {
                let ghost n0 = acts@.len();
                let ghost acts0 = acts@;
                acts.push(ManagerAction::BusRemove { peer_id: id.clone() });
                let ghost pre = self.peers.view();
                proof {
                    assert(!exists|j: int| 0 <= j < i && #[trigger] keys@[j]@ == kid) by {
                        if exists|j: int| 0 <= j < i && #[trigger] keys@[j]@ == kid {
                            let j = choose|j: int| 0 <= j < i && #[trigger] keys@[j]@ == kid;
                            assert(keys@[j]@ != keys@[i as int]@);
                        }
                    }
                    assert(pre.contains_key(kid));
                    assert(pre[kid] == v0[kid]);
                }
                let removed = self.peers.remove(id.as_str());
                match removed {
                    Some(e) => {
                        if e.has_task {
                            acts.push(ManagerAction::AbortTask { peer_id: id.clone() });
                        }
                        if e.connected {
                            let ev = TransportEvent::PeerDisconnected {
                                device_id: id.clone(),
                                reason: "peer unpaired".to_owned(),
                            };
                            acts.push(ManagerAction::Emit(ev));
                        }
                    },
                    None => {},
                }
                proof {
                    assert(acts@[n0 as int] is BusRemove && acts@[n0 as int].peer() == kid);
                    assert forall|k: Seq<char>| #[trigger] self.peers.view().contains_key(k) <==> (v0.contains_key(k)
                        && (has_id(roster.peers@, k) || !exists|j: int| 0 <= j < i + 1 && #[trigger] keys@[j]@ == k)) by {
                        if k == kid {
                            assert(keys@[i as int]@ == k);
                        } else {
                            if exists|j: int| 0 <= j < i + 1 && #[trigger] keys@[j]@ == k {
                                let j = choose|j: int| 0 <= j < i + 1 && #[trigger] keys@[j]@ == k;
                                assert(j != i);
                            }
                        }
                    }
                    assert(acts@.len() >= acts0.len());
                    assert forall|q: int| 0 <= q < acts0.len() implies #[trigger] acts@[q] == acts0[q] by {}
                    assert(unpair_acts(acts@, kid, v0[kid])) by {
                        assert(acts@[n0 as int] is BusRemove && acts@[n0 as int].peer() == kid);
                        let e = v0[kid];
                        if e.has_task {
                            assert(acts@[n0 as int + 1] is AbortTask && acts@[n0 as int + 1].peer() == kid);
                        }
                        if e.connected {
                            if e.has_task {
                                assert(announces_unpaired(acts@[n0 as int + 2], kid));
                            } else {
                                assert(announces_unpaired(acts@[n0 as int + 1], kid));
                            }
                        }
                    }
                    assert forall|j: int| 0 <= j < i + 1 && !has_id(roster.peers@, #[trigger] keys@[j]@)
                        implies unpair_acts(acts@, keys@[j]@, v0[keys@[j]@]) by {
                        if j == i {
                            assert(keys@[j]@ == kid);
                        } else {
                            lemma_unpair_acts_grow(acts0, acts@, keys@[j]@, v0[keys@[j]@]);
                        }
                    }
                }
            } else {
                proof {
                    assert forall|k: Seq<char>| #[trigger] self.peers.view().contains_key(k) <==> (v0.contains_key(k)
                        && (has_id(roster.peers@, k) || !exists|j: int| 0 <= j < i + 1 && #[trigger] keys@[j]@ == k)) by {
                        if exists|j: int| 0 <= j < i + 1 && #[trigger] keys@[j]@ == k {
                            let j = choose|j: int| 0 <= j < i + 1 && #[trigger] keys@[j]@ == k;
                            if j == i {
                                assert(has_id(roster.peers@, k));
                            }
                        }
                    }
                }
            }
            i += 1;
        }
        proof {
            assert forall|k: Seq<char>| #[trigger] self.peers.view().contains_key(k)
                <==> (v0.contains_key(k) && has_id(roster.peers@, k)) by {
                if v0.contains_key(k) {
                    let j = choose|j: int| 0 <= j < e0.len() && #[trigger] e0[j].0@ == k;
                    assert(keys@[j]@ == k);
                }
            }
            assert forall|k: Seq<char>| #[trigger] v0.contains_key(k) && !has_id(roster.peers@, k)
                implies unpair_acts(acts@, k, v0[k]) by {
                let j = choose|j: int| 0 <= j < e0.len() && #[trigger] e0[j].0@ == k;
                assert(keys@[j]@ == k);
            }
        }
    }

    /// Make sure of every remembered peer the roster trusts.
    fn seed_discovered(&mut self, roster: &RosterInner, acts: &mut Vec<ManagerAction>)
        requires
            old(self).inv(),
            forall|k: Seq<char>| #[trigger] old(self).peers.view().contains_key(k) ==> has_id(roster.peers@, k),
        ensures
            final(self).inv(),
            final(self).own_id == old(self).own_id,
            final(self).discovered == old(self).discovered,
            forall|k: Seq<char>| #[trigger] final(self).peers.view().contains_key(k) ==> has_id(roster.peers@, k),
            forall|k: Seq<char>| #[trigger] old(self).peers.view().contains_key(k) ==> final(self).peers.view().contains_key(k),
            forall|k: Seq<char>| #[trigger] old(self).discovered.view().contains_key(k) && has_id(roster.peers@, k)
                ==> final(self).peers.view().contains_key(k),
            final(acts)@.len() >= old(acts)@.len(),
            forall|q: int| 0 <= q < old(acts)@.len() ==> #[trigger] final(acts)@[q] == old(acts)@[q],
            new_dials_trusted(final(acts)@, old(acts)@.len() as int, old(self).own_id@, roster.peers@),
    {
        let n = self.discovered.entries.len();
        let ghost a0 = acts@;
        let mut j: usize = 0;
        while j < n
            invariant
                j <= n,
                n == self.discovered.entries@.len(),
                self.inv(),
                self.own_id == old(self).own_id,
                self.discovered == old(self).discovered,
                a0 == old(acts)@,
                forall|k: Seq<char>| #[trigger] self.peers.view().contains_key(k) ==> has_id(roster.peers@, k),
                forall|k: Seq<char>| #[trigger] old(self).peers.view().contains_key(k) ==> self.peers.view().contains_key(k),
                forall|q: int| 0 <= q < j && has_id(roster.peers@, #[trigger] self.discovered.entries@[q].0@)
                    ==> self.peers.view().contains_key(self.discovered.entries@[q].0@),
                acts@.len() >= a0.len(),
                forall|q: int| 0 <= q < a0.len() ==> #[trigger] acts@[q] == a0[q],
                new_dials_trusted(acts@, a0.len() as int, self.own_id@, roster.peers@),
            decreases n - j,
        {
            let trusted = roster.is_trusted_id(self.discovered.entries[j].0.as_str());
            if trusted {
                proof {
                    self.discovered.lemma_view_at(j as int);
                }
                let ghost before = self.peers.view();
                let ghost acts_pre = acts@;
                let r = ensure_peer(&mut self.peers, self.own_id.as_str(), roster, &self.discovered.entries[j].1);
                match r {
                    Some(a) => {
                        acts.push(a);
                    },
                    None => {},
                }
                proof {
                    let kid = self.discovered.entries@[j as int].0@;
                    assert(self.discovered.entries@[j as int].1.device_id@ == kid);
                    assert(self.peers.view().dom() == before.dom().insert(kid));
                    assert forall|k: Seq<char>| #[trigger] self.peers.view().contains_key(k) implies has_id(roster.peers@, k) by {
                        assert(self.peers.view().dom().contains(k));
                        if k != kid {
                            assert(before.contains_key(k));
                        }
                    }
                    assert forall|k: Seq<char>| #[trigger] old(self).peers.view().contains_key(k) implies self.peers.view().contains_key(k) by {
                        assert(before.contains_key(k));
                        assert(self.peers.view().dom().contains(k));
                    }
                    assert forall|q: int| 0 <= q < j + 1 && has_id(roster.peers@, #[trigger] self.discovered.entries@[q].0@)
                        implies self.peers.view().contains_key(self.discovered.entries@[q].0@) by {
                        let kq = self.discovered.entries@[q].0@;
                        if q < j {
                            assert(before.contains_key(kq));
                        }
                        assert(self.peers.view().dom().contains(kq));
                    }
                    assert forall|q: int| a0.len() <= q < acts@.len() implies
                        (#[trigger] acts@[q]).is_dial() && has_id(roster.peers@, acts@[q].peer())
                            && spec_role(self.own_id@, acts@[q].peer()) == Role::Dialer by {
                        if q < acts_pre.len() {
                            assert(acts@[q] == acts_pre[q]);
                        }
                    }
                    assert forall|q: int| 0 <= q < a0.len() implies #[trigger] acts@[q] == a0[q] by {
                        assert(acts@[q] == acts_pre[q]);
                    }
                }
            }
            j += 1;
        }
        proof {
            assert forall|k: Seq<char>| #[trigger] old(self).discovered.view().contains_key(k) && has_id(roster.peers@, k)
                implies self.peers.view().contains_key(k) by {
                let q = choose|q: int| 0 <= q < self.discovered.entries@.len() && #[trigger] self.discovered.entries@[q].0@ == k;
                assert(has_id(roster.peers@, self.discovered.entries@[q].0@));
            }
        }
    }

    /// Make sure of every roster peer that carries a static address (those
    /// discovery already knows are left out when `skip_known` is set).
    fn seed_static(&mut self, roster: &RosterInner, skip_known: bool, acts: &mut Vec<ManagerAction>)
        requires
            old(self).inv(),
        ensures
            final(self).inv(),
            final(self).own_id == old(self).own_id,
            final(self).discovered == old(self).discovered,
            forall|k: Seq<char>| #[trigger] old(self).peers.view().contains_key(k) ==> final(self).peers.view().contains_key(k),
            forall|k: Seq<char>| #[trigger] final(self).peers.view().contains_key(k)
                ==> old(self).peers.view().contains_key(k) || has_id(roster.peers@, k),
            forall|i: int| 0 <= i < with_address(roster.peers@).len() ==> {
                let k = (#[trigger] with_address(roster.peers@)[i]).device_id@;
                (skip_known && old(self).discovered.view().contains_key(k)) || {
                    &&& final(self).peers.view().contains_key(k)
                    &&& spec_role(old(self).own_id@, k) == Role::Dialer ==> final(self).peers.view()[k].dialing
                }
            },
            final(acts)@.len() >= old(acts)@.len(),
            forall|q: int| 0 <= q < old(acts)@.len() ==> #[trigger] final(acts)@[q] == old(acts)@[q],
            new_dials_trusted(final(acts)@, old(acts)@.len() as int, old(self).own_id@, roster.peers@),
            forall|k: Seq<char>| #[trigger] final(self).peers.view().contains_key(k) && final(self).peers.view()[k].dialing
                ==> (old(self).peers.view().contains_key(k) && old(self).peers.view()[k].dialing) || has_id(roster.peers@, k),
    {
        let statics = roster.peers_with_static_addrs();
        let ghost wa = with_address(roster.peers@);
        let ghost a0 = acts@;
        let mut i: usize = 0;
        while i < statics.len()
            invariant
                i <= statics@.len(),
                statics@.len() == wa.len(),
                wa == with_address(roster.peers@),
                forall|q: int| 0 <= q < statics@.len() ==> {
                    let w = #[trigger] wa[q];
                    &&& statics@[q].0@ == w.device_id@
                    &&& statics@[q].1@ == w.name@
                },
                self.inv(),
                self.own_id == old(self).own_id,
                self.discovered == old(self).discovered,
                a0 == old(acts)@,
                forall|k: Seq<char>| #[trigger] old(self).peers.view().contains_key(k) ==> self.peers.view().contains_key(k),
                forall|k: Seq<char>| #[trigger] self.peers.view().contains_key(k)
                    ==> old(self).peers.view().contains_key(k) || has_id(roster.peers@, k),
                forall|q: int| 0 <= q < i ==> {
                    let k = (#[trigger] wa[q]).device_id@;
                    (skip_known && self.discovered.view().contains_key(k)) || {
                        &&& self.peers.view().contains_key(k)
                        &&& spec_role(self.own_id@, k) == Role::Dialer ==> self.peers.view()[k].dialing
                    }
                },
                acts@.len() >= a0.len(),
                forall|q: int| 0 <= q < a0.len() ==> #[trigger] acts@[q] == a0[q],
                forall|k: Seq<char>| #[trigger] self.peers.view().contains_key(k) && self.peers.view()[k].dialing
                    ==> (old(self).peers.view().contains_key(k) && old(self).peers.view()[k].dialing) || has_id(roster.peers@, k),
                new_dials_trusted(acts@, a0.len() as int, self.own_id@, roster.peers@),
            decreases statics@.len() - i,
        {
            let ghost kid = wa[i as int].device_id@;
            proof {
                assert(statics@[i as int].0@ == kid);
            }
            let known = skip_known && self.discovered.contains_key(statics[i].0.as_str());
            if !known && roster.is_trusted_id(statics[i].0.as_str()) {
                let p = DiscoveredPeer {
                    device_id: statics[i].0.clone(),
                    device_name: statics[i].1.clone(),
                    fingerprint: String::new(),
                    addrs: copy_strs(&statics[i].2),
                };
                let ghost before = self.peers.view();
                let ghost acts_pre = acts@;
                let r = ensure_peer(&mut self.peers, self.own_id.as_str(), roster, &p);
                match r {
                    Some(a) => {
                        acts.push(a);
                    },
                    None => {},
                }
                proof {
                    assert forall|k: Seq<char>| #[trigger] self.peers.view().contains_key(k) && self.peers.view()[k].dialing
                        implies (old(self).peers.view().contains_key(k) && old(self).peers.view()[k].dialing)
                            || has_id(roster.peers@, k) by {
                        assert(self.peers.view().dom().contains(k));
                        if k != kid {
                            assert(before.contains_key(k));
                            assert(self.peers.view()[k] == before[k]);
                        }
                    }
                    assert(self.peers.view().dom() == before.dom().insert(kid));
                    assert forall|k: Seq<char>| #[trigger] old(self).peers.view().contains_key(k) implies self.peers.view().contains_key(k) by {
                        assert(before.contains_key(k));
                        assert(self.peers.view().dom().contains(k));
                    }
                    assert forall|k: Seq<char>| #[trigger] self.peers.view().contains_key(k)
                        implies old(self).peers.view().contains_key(k) || has_id(roster.peers@, k) by {
                        assert(self.peers.view().dom().contains(k));
                        if k != kid {
                            assert(before.contains_key(k));
                        }
                    }
                    assert forall|q: int| 0 <= q < i + 1 implies {
                        let k = (#[trigger] wa[q]).device_id@;
                        (skip_known && self.discovered.view().contains_key(k)) || {
                            &&& self.peers.view().contains_key(k)
                            &&& spec_role(self.own_id@, k) == Role::Dialer ==> self.peers.view()[k].dialing
                        }
                    } by {
                        let k = wa[q].device_id@;
                        if q < i && !(skip_known && self.discovered.view().contains_key(k)) {
                            assert(before.contains_key(k));
                            assert(self.peers.view().dom().contains(k));
                        }
                        if q == i {
                            assert(self.peers.view().dom().contains(k));
                        }
                    }
                    assert forall|q: int| a0.len() <= q < acts@.len() implies
                        (#[trigger] acts@[q]).is_dial() && has_id(roster.peers@, acts@[q].peer())
                            && spec_role(self.own_id@, acts@[q].peer()) == Role::Dialer by {
                        if q < acts_pre.len() {
                            assert(acts@[q] == acts_pre[q]);
                        }
                    }
                    assert forall|q: int| 0 <= q < a0.len() implies #[trigger] acts@[q] == a0[q] by {
                        assert(acts@[q] == acts_pre[q]);
                    }
                }
            } else {
                proof {
                    if !known {
                        let w = wa[i as int];
                        roster.peers@.lemma_filter_contains_rev(addr_pred(), w);
                        assert(wa.contains(w));
                        let j = choose|j: int| 0 <= j < roster.peers@.len() && roster.peers@[j] == w;
                        assert(roster.peers@[j].device_id@ == kid);
                        assert(false);
                    }
                }
            }
            i += 1;
        }
    }

    /// At startup: roster peers with a static address are dialed without
    /// waiting for discovery (they are typically on a link where mDNS never
    /// resolves).
    pub fn start(&mut self, roster: &RosterInner) -> (acts: Vec<ManagerAction>)
        requires old(self).inv(),
        ensures
            final(self).inv(),
            final(self).own_id == old(self).own_id,
            final(self).discovered == old(self).discovered,
            forall|k: Seq<char>| #[trigger] old(self).peers.view().contains_key(k) ==> final(self).peers.view().contains_key(k),
            forall|k: Seq<char>| #[trigger] final(self).peers.view().contains_key(k)
                ==> old(self).peers.view().contains_key(k) || has_id(roster.peers@, k),
            forall|i: int| 0 <= i < with_address(roster.peers@).len() ==> {
                let k = (#[trigger] with_address(roster.peers@)[i]).device_id@;
                &&& final(self).peers.view().contains_key(k)
                &&& spec_role(old(self).own_id@, k) == Role::Dialer ==> final(self).peers.view()[k].dialing
            },
            new_dials_trusted(acts@, 0, old(self).own_id@, roster.peers@),
            step_keeps_trust(old(self).peers.view(), final(self).peers.view(), acts@, old(self).own_id@, roster.peers@),
    {
        let mut acts: Vec<ManagerAction> = Vec::new();
        self.seed_static(roster, false, &mut acts);
        acts
    }

    /// The roster changed. Peers no longer trusted are dropped (off the bus,
    /// task aborted, a live connection announced as ended); peers that are
    /// trusted now, whether discovery knows them or they carry a static
    /// address, are made sure of.
    pub fn on_roster_changed(&mut self, roster: &RosterInner) -> (acts: Vec<ManagerAction>)
        requires old(self).inv(),
        ensures
            final(self).inv(),
            final(self).own_id == old(self).own_id,
            final(self).discovered == old(self).discovered,
            forall|k: Seq<char>| #[trigger] final(self).peers.view().contains_key(k) ==> has_id(roster.peers@, k),
            forall|k: Seq<char>| #[trigger] old(self).peers.view().contains_key(k) && has_id(roster.peers@, k)
                ==> final(self).peers.view().contains_key(k),
            forall|k: Seq<char>| #[trigger] old(self).discovered.view().contains_key(k) && has_id(roster.peers@, k)
                ==> final(self).peers.view().contains_key(k),
            forall|i: int| 0 <= i < with_address(roster.peers@).len()
                ==> final(self).peers.view().contains_key((#[trigger] with_address(roster.peers@)[i]).device_id@),
            forall|q: int| 0 <= q < acts@.len() ==> {
                let a = #[trigger] acts@[q];
                if a.is_dial() {
                    has_id(roster.peers@, a.peer()) && spec_role(old(self).own_id@, a.peer()) == Role::Dialer
                } else {
                    old(self).peers.view().contains_key(a.peer()) && !has_id(roster.peers@, a.peer())
                }
            },
            forall|k: Seq<char>| #[trigger] old(self).peers.view().contains_key(k) && !has_id(roster.peers@, k)
                ==> unpair_acts(acts@, k, old(self).peers.view()[k]),
            resyncs_trust(final(self).peers.view(), acts@, old(self).own_id@, roster.peers@),
    {
        let mut acts: Vec<ManagerAction> = Vec::new();
        self.drop_untrusted(roster, &mut acts);
        let ghost a1 = acts@;
        let ghost p1 = self.peers.view();
        self.seed_discovered(roster, &mut acts);
        let ghost a2 = acts@;
        let ghost p2 = self.peers.view();
        self.seed_static(roster, true, &mut acts);
        proof {
            assert forall|k: Seq<char>| #[trigger] self.peers.view().contains_key(k) implies has_id(roster.peers@, k) by {
                if !p2.contains_key(k) {
                    assert(has_id(roster.peers@, k));
                }
            }
            assert forall|k: Seq<char>| #[trigger] old(self).peers.view().contains_key(k) && has_id(roster.peers@, k)
                implies self.peers.view().contains_key(k) by {
                assert(p1.contains_key(k));
                assert(p2.contains_key(k));
            }
            assert forall|k: Seq<char>| #[trigger] old(self).discovered.view().contains_key(k) && has_id(roster.peers@, k)
                implies self.peers.view().contains_key(k) by {
                assert(p2.contains_key(k));
            }
            assert forall|i: int| 0 <= i < with_address(roster.peers@).len()
                implies self.peers.view().contains_key((#[trigger] with_address(roster.peers@)[i]).device_id@) by {
                let w = with_address(roster.peers@)[i];
                let k = w.device_id@;
                if old(self).discovered.view().contains_key(k) {
                    roster.peers@.lemma_filter_contains_rev(addr_pred(), w);
                    assert(with_address(roster.peers@).contains(w));
                    let j = choose|j: int| 0 <= j < roster.peers@.len() && roster.peers@[j] == w;
                    assert(roster.peers@[j].device_id@ == k);
                    assert(p2.contains_key(k));
                }
            }
            assert forall|q: int| 0 <= q < acts@.len() implies {
                let a = #[trigger] acts@[q];
                if a.is_dial() {
                    has_id(roster.peers@, a.peer()) && spec_role(old(self).own_id@, a.peer()) == Role::Dialer
                } else {
                    old(self).peers.view().contains_key(a.peer()) && !has_id(roster.peers@, a.peer())
                }
            } by {
                if q < a1.len() {
                    assert(acts@[q] == a2[q]);
                    assert(a2[q] == a1[q]);
                } else if q < a2.len() {
                    assert(acts@[q] == a2[q]);
                }
            }
            assert forall|q: int| 0 <= q < a1.len() implies #[trigger] acts@[q] == a1[q] by {
                assert(acts@[q] == a2[q]);
                assert(a2[q] == a1[q]);
            }
            assert forall|k: Seq<char>| #[trigger] old(self).peers.view().contains_key(k) && !has_id(roster.peers@, k)
                implies unpair_acts(acts@, k, old(self).peers.view()[k]) by {
                lemma_unpair_acts_grow(a1, acts@, k, old(self).peers.view()[k]);
            }
        }
        acts
    }
}

/// A copy of a list of strings.
fn copy_strs(v: &Vec<String>) -> (r: Vec<String>)
    ensures r@ == v@,
{
    let mut r: Vec<String> = Vec::new();
    let mut i: usize = 0;
    while i < v.len()
        invariant
            i <= v@.len(),
            r@ == v@.subrange(0, i as int),
        decreases v@.len() - i,
    {
        r.push(v[i].clone());
        proof { assert(r@ =~= v@.subrange(0, i + 1)); }
        i += 1;
    }
    proof { assert(v@.subrange(0, v@.len() as int) =~= v@); }
    r
}

/// Fold a transport event into the published state: a connection marks the
/// peer online at `now` and remembers the address dialed; a disconnection
/// marks it offline. A connected peer's authorization label is to be
/// re-checked: its id is returned.
pub fn record_event(state: &mut DaemonState, ev: &TransportEvent, now: u64) -> (r: Option<String>)
    requires old(state).wf(),
    ensures
        final(state).wf(),
        match *ev {
            TransportEvent::PeerConnected { device_id, addr, .. } => {
                &&& final(state).online.view() == old(state).online.view().insert(device_id@, now)
                &&& final(state).last_seen.view() == old(state).last_seen.view()
                &&& match addr {
                    Some(a) => final(state).last_addr.view().dom() == old(state).last_addr.view().dom().insert(device_id@)
                        && final(state).last_addr.view()[device_id@]@ == a@,
                    None => final(state).last_addr.view() == old(state).last_addr.view(),
                }
                &&& r matches Some(id) && id@ == device_id@
            },
            TransportEvent::PeerDisconnected { device_id, .. } => {
                &&& final(state).online.view() == old(state).online.view().remove(device_id@)
                &&& final(state).last_seen.view() == old(state).last_seen.view().insert(device_id@, now)
                &&& final(state).last_addr.view() == old(state).last_addr.view()
                &&& r is None
            },
        },
{
    match ev {
        TransportEvent::PeerConnected { device_id, addr, .. } => {
            state.mark_online_at(device_id.as_str(), now);
            match addr {
                Some(a) => state.remember_addr(device_id.as_str(), a.as_str()),
                None => {},
            }
            Some(device_id.clone())
        },
        TransportEvent::PeerDisconnected { device_id, .. } => {
            state.mark_offline_at(device_id.as_str(), now);
            None
        },
    }
}

/// What a dial loop does next: dial with the peer's pinned key when it has
/// addresses and the roster still pins a key for it; otherwise wait for new
/// addresses.
pub fn dial_key(addrs: &Vec<String>, roster: &RosterInner, peer_id: &str) -> (r: Option<[u8; 32]>)
    ensures
        addrs@.len() == 0 ==> r is None,
        addrs@.len() > 0 ==> match r {
            Some(k) => exists|i: int| last_with_id(roster.peers@, peer_id@, i) && k == roster.peers@[i].public_key,
            None => !has_id(roster.peers@, peer_id@),
        },
{
    if addrs.len() == 0 {
        return None;
    }
    roster.key_for_id(peer_id)
}

} // verus!
