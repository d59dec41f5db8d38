//! The set of currently trusted peers, consulted by the TLS verifiers, the
//! dialer and discovery filtering. Rebuilt from `peers.toml` whenever that
//! file changes.
//!
//! Lookups follow the registry order: when several entries share a device
//! id or a key, the later entry is the one a lookup finds, and every key
//! listed is trusted.

use vstd::prelude::*;
use crate::base64::key_of;
use crate::peers::{without_name, Peer, Peers};
use crate::strmap::str_eq;

verus! {

/// One trusted peer.
#[derive(Debug, Clone, PartialEq, Eq)]
pub struct RosterPeer {
    pub device_id: String,
    pub name: String,
    pub public_key: [u8; 32],
    /// Operator-configured `host:port`, dialed without waiting for mDNS.
    pub address: Option<String>,
}

/// Two optional strings hold the same text.
pub open spec fn same_opt(a: Option<String>, b: Option<String>) -> bool {
    match (a, b) {
        (Some(x), Some(y)) => x@ == y@,
        (None, None) => true,
        _ => false,
    }
}

/// `r` is the roster entry for registry entry `p`.
pub open spec fn corresponds(r: RosterPeer, p: Peer) -> bool {
    &&& r.device_id@ == p.device_id@
    &&& r.name@ == p.name@
    &&& key_of(p.public_key@) == Some(r.public_key@)
    &&& same_opt(r.address, p.address)
}

/// The registry entries whose stored key is usable; the others are skipped.
pub open spec fn usable(ps: Seq<Peer>) -> Seq<Peer> {
    ps.filter(|p: Peer| key_of(p.public_key@) is Some)
}

/// The trusted peers, in registry order.
#[derive(Debug, Clone)]
pub struct RosterInner {
    pub peers: Vec<RosterPeer>,
}

/// Some entry carries key `k`.
pub open spec fn has_key(ps: Seq<RosterPeer>, k: Seq<u8>) -> bool {
    exists|i: int| 0 <= i < ps.len() && #[trigger] ps[i].public_key@ == k
}

/// Some entry carries device id `id`.
pub open spec fn has_id(ps: Seq<RosterPeer>, id: Seq<char>) -> bool {
    exists|i: int| 0 <= i < ps.len() && #[trigger] ps[i].device_id@ == id
}

/// `i` is the last entry carrying key `k`.
pub open spec fn last_with_key(ps: Seq<RosterPeer>, k: Seq<u8>, i: int) -> bool {
    0 <= i < ps.len() && ps[i].public_key@ == k && forall|j: int| i < j < ps.len() ==> ps[j].public_key@ != k
}

/// `i` is the last entry carrying device id `id`.
pub open spec fn last_with_id(ps: Seq<RosterPeer>, id: Seq<char>, i: int) -> bool {
    0 <= i < ps.len() && ps[i].device_id@ == id && forall|j: int| i < j < ps.len() ==> ps[j].device_id@ != id
}

/// Carries a static address.
pub open spec fn addr_pred() -> spec_fn(RosterPeer) -> bool {
    |p: RosterPeer| p.address is Some
}

/// The entries that carry a static address, in order.
pub open spec fn with_address(ps: Seq<RosterPeer>) -> Seq<RosterPeer> {
    ps.filter(addr_pred())
}

/// The distinct device ids, in order of first appearance.
pub open spec fn distinct_ids(ps: Seq<RosterPeer>) -> Seq<Seq<char>>
    decreases ps.len(),
{
    if ps.len() == 0 {
        Seq::empty()
    } else {
        let r = distinct_ids(ps.drop_last());
        if r.contains(ps.last().device_id@) { r } else { r.push(ps.last().device_id@) }
    }
}

impl RosterInner {
    /// Position of the last entry with key `k`.
    fn last_key_pos(&self, k: &[u8; 32]) -> (r: Option<usize>)
        ensures
            match r {
                Some(i) => last_with_key(self.peers@, k@, i as int),
                None => !has_key(self.peers@, k@),
            },
    {
        let mut i = self.peers.len();
        while i > 0
            invariant
                i <= self.peers@.len(),
                forall|j: int| i <= j < self.peers@.len() ==> self.peers@[j].public_key@ != k@,
            decreases i,
        {
            if crate::crypto::ct_eq(&self.peers[i - 1].public_key, k) {
                return Some(i - 1);
            }
            i -= 1;
        }
        None
    }

    /// Position of the last entry with device id `id`.
    fn last_id_pos(&self, id: &str) -> (r: Option<usize>)
        ensures
            match r {
                Some(i) => last_with_id(self.peers@, id@, i as int),
                None => !has_id(self.peers@, id@),
            },
    {
        let mut i = self.peers.len();
        while i > 0
            invariant
                i <= self.peers@.len(),
                forall|j: int| i <= j < self.peers@.len() ==> self.peers@[j].device_id@ != id@,
            decreases i,
        {
            if str_eq(self.peers[i - 1].device_id.as_str(), id) {
                return Some(i - 1);
            }
            i -= 1;
        }
        None
    }

    /// Whether `key` belongs to a trusted peer.
    pub fn is_trusted_key(&self, key: &[u8; 32]) -> (b: bool)
        ensures b == has_key(self.peers@, key@),
    {
        self.last_key_pos(key).is_some()
    }

    /// Whether `device_id` belongs to a trusted peer.
    pub fn is_trusted_id(&self, device_id: &str) -> (b: bool)
        ensures b == has_id(self.peers@, device_id@),
    {
        self.last_id_pos(device_id).is_some()
    }

    /// The pinned key for `device_id`.
    pub fn key_for_id(&self, device_id: &str) -> (r: Option<[u8; 32]>)
        ensures
            match r {
                Some(k) => exists|i: int| last_with_id(self.peers@, device_id@, i) && k == self.peers@[i].public_key,
                None => !has_id(self.peers@, device_id@),
            },
    {
        match self.last_id_pos(device_id) {
            Some(i) => Some(self.peers[i].public_key),
            None => None,
        }
    }

    /// The trusted peer holding `key`.
    pub fn peer_for_key(&self, key: &[u8; 32]) -> (r: Option<&RosterPeer>)
        ensures
            match r {
                Some(p) => exists|i: int| last_with_key(self.peers@, key@, i) && *p == self.peers@[i],
                None => !has_key(self.peers@, key@),
            },
    {
        match self.last_key_pos(key) {
            Some(i) => Some(&self.peers[i]),
            None => None,
        }
    }

    /// The trusted device ids, each once, in order of first appearance.
    pub fn ids(&self) -> (r: Vec<String>)
        ensures
            r@.len() == distinct_ids(self.peers@).len(),
            forall|i: int| 0 <= i < r@.len() ==> #[trigger] r@[i]@ == distinct_ids(self.peers@)[i],
    {
        let mut out: Vec<String> = Vec::new();
        let mut i: usize = 0;
        while i < self.peers.len()
            invariant
                i <= self.peers@.len(),
                out@.len() == distinct_ids(self.peers@.subrange(0, i as int)).len(),
                forall|q: int| 0 <= q < out@.len() ==> #[trigger] out@[q]@ == distinct_ids(self.peers@.subrange(0, i as int))[q],
            decreases self.peers@.len() - i,
        {
            let ghost pre = self.peers@.subrange(0, i as int);
            let ghost post = self.peers@.subrange(0, i + 1);
            assert(post.drop_last() =~= pre);
            let id = &self.peers[i].device_id;
            let mut seen = false;
            let mut j: usize = 0;
            while j < out.len()
                invariant
                    j <= out@.len(),
                    !seen ==> forall|q: int| 0 <= q < j ==> out@[q]@ != id@,
                    seen ==> exists|q: int| 0 <= q < out@.len() && out@[q]@ == id@,
                decreases out@.len() - j,
            {
                if str_eq(out[j].as_str(), id.as_str()) {
                    seen = true;
                }
                j += 1;
            }
            proof {
                let d = distinct_ids(pre);
                if seen {
                    let q = choose|q: int| 0 <= q < out@.len() && out@[q]@ == id@;
                    assert(d[q] == id@);
                    assert(d.contains(id@));
                } else {
                    assert(!d.contains(id@)) by {
                        if d.contains(id@) {
                            let q = choose|q: int| 0 <= q < d.len() && d[q] == id@;
                            assert(out@[q]@ == d[q]);
                        }
                    }
                }
            }
            if !seen {
                out.push(id.clone());
            }
            i += 1;
        }
        proof { assert(self.peers@.subrange(0, self.peers@.len() as int) =~= self.peers@); }
        out
    }

    /// Number of distinct trusted device ids.
    pub fn len(&self) -> (n: usize)
        ensures n == distinct_ids(self.peers@).len(),
    {
        self.ids().len()
    }

    /// Whether nobody is trusted.
    pub fn is_empty(&self) -> (b: bool)
        ensures b == (self.peers@.len() == 0),
    {
        self.peers.len() == 0
    }

    /// The static addresses configured for `device_id` (on its last entry).
    pub fn static_addrs_for(&self, device_id: &str) -> (r: Vec<String>)
        ensures
            !has_id(self.peers@, device_id@) ==> r@.len() == 0,
            forall|i: int| #![trigger last_with_id(self.peers@, device_id@, i)]
                last_with_id(self.peers@, device_id@, i) ==> match self.peers@[i].address {
                    Some(a) => r@.len() == 1 && r@[0]@ == a@,
                    None => r@.len() == 0,
                },
    {
        match self.last_id_pos(device_id) {
            Some(i) => match &self.peers[i].address {
                Some(a) => {
                    let mut v: Vec<String> = Vec::new();
                    v.push(a.clone());
                    v
                },
                None => Vec::new(),
            },
            None => Vec::new(),
        }
    }

    /// Every entry that carries a static address, as `(id, name, [address])`.
    pub fn peers_with_static_addrs(&self) -> (r: Vec<(String, String, Vec<String>)>)
        ensures
            r@.len() == with_address(self.peers@).len(),
            forall|i: int| 0 <= i < r@.len() ==> {
                let p = #[trigger] with_address(self.peers@)[i];
                &&& r@[i].0@ == p.device_id@
                &&& r@[i].1@ == p.name@
                &&& r@[i].2@.len() == 1
                &&& r@[i].2@[0]@ == p.address->0@
            },
    {
        let ghost pred = addr_pred();
        let mut out: Vec<(String, String, Vec<String>)> = Vec::new();
        let mut i: usize = 0;
        proof { reveal_with_fuel(Seq::filter, 1); assert(self.peers@.subrange(0, 0) =~= Seq::<RosterPeer>::empty()); }
        while i < self.peers.len()
            invariant
                i <= self.peers@.len(),
                pred == addr_pred(),
                out@.len() == with_address(self.peers@.subrange(0, i as int)).len(),
                forall|q: int| 0 <= q < out@.len() ==> {
                    let p = #[trigger] with_address(self.peers@.subrange(0, i as int))[q];
                    &&& out@[q].0@ == p.device_id@
                    &&& out@[q].1@ == p.name@
                    &&& out@[q].2@.len() == 1
                    &&& out@[q].2@[0]@ == p.address->0@
                },
            decreases self.peers@.len() - i,
        {
            let ghost pre = self.peers@.subrange(0, i as int);
            let ghost post = self.peers@.subrange(0, i + 1);
            assert(post.drop_last() =~= pre);
            assert(post.last() == self.peers@[i as int]);
            reveal_with_fuel(Seq::filter, 1);
            let p = &self.peers[i];
            match &p.address {
                Some(a) => {
                    let mut v: Vec<String> = Vec::new();
                    v.push(a.clone());
                    out.push((p.device_id.clone(), p.name.clone(), v));
                    proof {
                        assert(post.filter(pred) == pre.filter(pred).push(post.last()));
                    }
                },
                None => {},
            }
            i += 1;
        }
        proof { assert(self.peers@.subrange(0, self.peers@.len() as int) =~= self.peers@); }
        out
    }
}

/// The trust roster built from a peer registry.
#[derive(Debug, Clone)]
pub struct Roster {
    pub inner: RosterInner,
}

/// `rs` lists, in order, the roster entries for the usable registry
/// entries of `ps`.
pub open spec fn built_from(rs: Seq<RosterPeer>, ps: Seq<Peer>) -> bool {
    rs.len() == usable(ps).len() && forall|i: int| 0 <= i < rs.len() ==> corresponds(#[trigger] rs[i], usable(ps)[i])
}

/// The roster entries for a registry, skipping entries whose key is not a
/// 32-byte base64 key.
pub fn roster_entries(peers: &Peers) -> (r: Vec<RosterPeer>)
    ensures built_from(r@, peers.peers@),
{
    let ghost pred = |p: Peer| key_of(p.public_key@) is Some;
    let ghost ps = peers.peers@;
    let mut out: Vec<RosterPeer> = Vec::new();
    let mut i: usize = 0;
    proof { reveal_with_fuel(Seq::filter, 1); assert(ps.subrange(0, 0) =~= Seq::<Peer>::empty()); }
    while i < peers.peers.len()
        invariant
            ps == peers.peers@,
            i <= ps.len(),
            pred == (|p: Peer| key_of(p.public_key@) is Some),
            built_from(out@, ps.subrange(0, i as int)),
        decreases ps.len() - i,
    {
        let ghost pre = ps.subrange(0, i as int);
        let ghost post = ps.subrange(0, i + 1);
        assert(post.drop_last() =~= pre);
        assert(post.last() == ps[i as int]);
        reveal_with_fuel(Seq::filter, 1);
        assert(usable(post) == post.filter(pred));
        assert(usable(pre) == pre.filter(pred));
        let p = &peers.peers[i];
        match p.key_bytes() {
            Ok(k) => {
                let address = match &p.address {
                    Some(a) => Some(a.clone()),
                    None => None,
                };
                out.push(RosterPeer { device_id: p.device_id.clone(), name: p.name.clone(), public_key: k, address });
            },
            Err(_) => {},
        }
        i += 1;
    }
    proof { assert(ps.subrange(0, ps.len() as int) =~= ps); }
    out
}

impl Roster {
    /// An empty roster: nobody is trusted.
    pub fn new() -> (r: Roster)
        ensures r.inner.peers@.len() == 0,
    {
        Roster { inner: RosterInner { peers: Vec::new() } }
    }

    /// Build from a `peers.toml` document, skipping entries with unusable
    /// keys.
    pub fn from_peers(peers: &Peers) -> (r: Roster)
        ensures built_from(r.inner.peers@, peers.peers@),
    {
        Roster { inner: RosterInner { peers: roster_entries(peers) } }
    }

    /// Replace the contents from a `peers.toml` document.
    pub fn load(&mut self, peers: &Peers)
        ensures built_from(final(self).inner.peers@, peers.peers@),
    {
        self.inner = RosterInner { peers: roster_entries(peers) };
    }

    /// Read access to the current contents.
    pub fn read(&self) -> (r: &RosterInner)
        ensures *r == self.inner,
    {
        &self.inner
    }
}

/// A roster built from a registry trusts exactly the device ids of its
/// usable entries.
pub proof fn lemma_roster_trusts_registry_ids(rs: Seq<RosterPeer>, ps: Seq<Peer>, id: Seq<char>)
    requires built_from(rs, ps),
    ensures has_id(rs, id) <==> exists|j: int| 0 <= j < usable(ps).len() && #[trigger] usable(ps)[j].device_id@ == id,
{
    if has_id(rs, id) {
        let i = choose|i: int| 0 <= i < rs.len() && #[trigger] rs[i].device_id@ == id;
        assert(corresponds(rs[i], usable(ps)[i]));
    }
    if exists|j: int| 0 <= j < usable(ps).len() && #[trigger] usable(ps)[j].device_id@ == id {
        let j = choose|j: int| 0 <= j < usable(ps).len() && #[trigger] usable(ps)[j].device_id@ == id;
        assert(corresponds(rs[j], usable(ps)[j]));
    }
}

/// Once a peer is recorded with its key (as pairing records it), a roster
/// built from the registry trusts that key and that device id.
pub proof fn lemma_paired_peer_is_trusted(rs: Seq<RosterPeer>, ps: Seq<Peer>, i: int, key: [u8; 32])
    requires
        built_from(rs, ps),
        0 <= i < ps.len(),
        ps[i].public_key@ == crate::base64::b64(key@),
    ensures
        has_key(rs, key@),
        has_id(rs, ps[i].device_id@),
{
    crate::base64::lemma_key_of_b64(key);
    let pred = |p: Peer| key_of(p.public_key@) is Some;
    assert(pred(ps[i]));
    ps.lemma_filter_contains(pred, i);
    assert(usable(ps).contains(ps[i]));
    let j = choose|j: int| 0 <= j < usable(ps).len() && usable(ps)[j] == ps[i];
    assert(corresponds(rs[j], usable(ps)[j]));
    assert(rs[j].public_key@ == key@);
    assert(rs[j].device_id@ == ps[i].device_id@);
}


/// Unpairing revokes trust: when every registry entry holding key `key` is
/// called `name`, a roster built from the registry without the entries
/// called `name` does not trust that key.
pub proof fn lemma_unpaired_key_untrusted(rs: Seq<RosterPeer>, ps: Seq<Peer>, name: Seq<char>, key: [u8; 32])
    requires
        built_from(rs, without_name(ps, name)),
        forall|i: int| 0 <= i < ps.len() && key_of((#[trigger] ps[i]).public_key@) == Some(key@) ==> ps[i].name@ == name,
    ensures
        !has_key(rs, key@),
{
    if has_key(rs, key@) {
        let i = choose|i: int| 0 <= i < rs.len() && #[trigger] rs[i].public_key@ == key@;
        let q = without_name(ps, name);
        assert(corresponds(rs[i], usable(q)[i]));
        let p = usable(q)[i];
        let upred = |x: Peer| key_of(x.public_key@) is Some;
        assert(usable(q) == q.filter(upred));
        assert(usable(q).contains(p));
        q.lemma_filter_contains_rev(upred, p);
        crate::peers::lemma_without_name_keeps(ps, name, p);
        let j = choose|k: int| 0 <= k < ps.len() && ps[k] == p;
        assert(key_of(ps[j].public_key@) == Some(key@));
        assert(ps[j].name@ == name);
    }
}

/// What the distinct ids are: no id twice, exactly the ids some entry
/// carries, and none only when there are no entries.
pub proof fn lemma_distinct_ids(ps: Seq<RosterPeer>)
    ensures
        distinct_ids(ps).no_duplicates(),
        forall|id: Seq<char>| #[trigger] distinct_ids(ps).contains(id) <==> has_id(ps, id),
        (distinct_ids(ps).len() == 0) <==> (ps.len() == 0),
    decreases ps.len(),
{
    if ps.len() > 0 {
        let pre = ps.drop_last();
        lemma_distinct_ids(pre);
        let r = distinct_ids(pre);
        let last = ps.last().device_id@;
        assert forall|id: Seq<char>| has_id(ps, id) <==> (has_id(pre, id) || id == last) by {
            if has_id(ps, id) {
                let i = choose|i: int| 0 <= i < ps.len() && #[trigger] ps[i].device_id@ == id;
                if i < ps.len() - 1 {
                    assert(pre[i] == ps[i]);
                }
            }
            if has_id(pre, id) {
                let i = choose|i: int| 0 <= i < pre.len() && #[trigger] pre[i].device_id@ == id;
                assert(ps[i] == pre[i]);
            }
            if id == last {
                assert(ps[ps.len() - 1].device_id@ == id);
            }
        }
        if !r.contains(last) {
            let d = r.push(last);
            assert forall|id: Seq<char>| #[trigger] d.contains(id) <==> (r.contains(id) || id == last) by {
                if d.contains(id) {
                    let i = choose|i: int| 0 <= i < d.len() && d[i] == id;
                    if i < r.len() {
                        assert(r[i] == id);
                    }
                }
                if r.contains(id) {
                    let i = choose|i: int| 0 <= i < r.len() && r[i] == id;
                    assert(d[i] == id);
                }
                if id == last {
                    assert(d[r.len() as int] == id);
                }
            }
            assert(d.len() > 0);
        } else {
            assert(r.len() > 0);
        }
    }
}

/// The roster's views agree: `ids()` lists each trusted id once and
/// nothing else, so `len()` counts the trusted ids and `is_empty()` holds
/// exactly when that count is zero; an id is trusted exactly when
/// `key_for_id` finds a key for it, and that key is a trusted key; a key is
/// trusted exactly when `peer_for_key` finds a peer for it, and that peer
/// carries the key.
pub proof fn lemma_roster_views_agree(r: RosterInner, id: Seq<char>, k: Seq<u8>)
    ensures
        distinct_ids(r.peers@).no_duplicates(),
        distinct_ids(r.peers@).contains(id) <==> has_id(r.peers@, id),
        (distinct_ids(r.peers@).len() == 0) <==> (r.peers@.len() == 0),
        has_id(r.peers@, id) <==> exists|i: int| last_with_id(r.peers@, id, i),
        forall|i: int| #[trigger] last_with_id(r.peers@, id, i) ==> has_key(r.peers@, r.peers@[i].public_key@),
        has_key(r.peers@, k) <==> exists|i: int| last_with_key(r.peers@, k, i),
        forall|i: int| #[trigger] last_with_key(r.peers@, k, i) ==> r.peers@[i].public_key@ == k,
{
    let ps = r.peers@;
    lemma_distinct_ids(ps);
    assert(distinct_ids(ps).contains(id) <==> has_id(ps, id));
    if has_id(ps, id) {
        lemma_last_with_id_exists(ps, id, ps.len() as int);
    }
    if has_key(ps, k) {
        lemma_last_with_key_exists(ps, k, ps.len() as int);
    }
    assert forall|i: int| #[trigger] last_with_id(ps, id, i) implies has_key(ps, ps[i].public_key@) by {
        assert(ps[i].public_key@ == ps[i].public_key@);
    }
}

/// Some entry below `n` carries `id`, so a last one (below `n`) does.
proof fn lemma_last_with_id_exists(ps: Seq<RosterPeer>, id: Seq<char>, n: int)
    requires
        0 <= n <= ps.len(),
        exists|i: int| 0 <= i < n && #[trigger] ps[i].device_id@ == id,
        forall|j: int| n <= j < ps.len() ==> ps[j].device_id@ != id,
    ensures
        exists|i: int| last_with_id(ps, id, i),
    decreases n,
{
    if ps[n - 1].device_id@ == id {
        assert(last_with_id(ps, id, n - 1));
    } else {
        lemma_last_with_id_exists(ps, id, n - 1);
    }
}

/// Some entry below `n` carries `k`, so a last one (below `n`) does.
proof fn lemma_last_with_key_exists(ps: Seq<RosterPeer>, k: Seq<u8>, n: int)
    requires
        0 <= n <= ps.len(),
        exists|i: int| 0 <= i < n && #[trigger] ps[i].public_key@ == k,
        forall|j: int| n <= j < ps.len() ==> ps[j].public_key@ != k,
    ensures
        exists|i: int| last_with_key(ps, k, i),
    decreases n,
{
    if ps[n - 1].public_key@ == k {
        assert(last_with_key(ps, k, n - 1));
    } else {
        lemma_last_with_key_exists(ps, k, n - 1);
    }
}

/// A usable registry entry whose `f`-value no other entry shares keeps
/// that property among the usable entries.
proof fn lemma_usable_unique<T>(ps: Seq<Peer>, j: int, f: spec_fn(Peer) -> T)
    requires
        0 <= j < ps.len(),
        key_of(ps[j].public_key@) is Some,
        forall|m: int| 0 <= m < ps.len() && m != j ==> f(#[trigger] ps[m]) != f(ps[j]),
    ensures
        exists|i: int| 0 <= i < usable(ps).len() && usable(ps)[i] == ps[j]
            && forall|m: int| 0 <= m < usable(ps).len() && m != i ==> f(#[trigger] usable(ps)[m]) != f(ps[j]),
    decreases ps.len(),
{
    let pred = |p: Peer| key_of(p.public_key@) is Some;
    let pre = ps.drop_last();
    assert(usable(ps) == ps.filter(pred));
    assert(usable(pre) == pre.filter(pred));
    reveal_with_fuel(Seq::filter, 1);
    assert(ps.filter(pred) == if pred(ps.last()) { pre.filter(pred).push(ps.last()) } else { pre.filter(pred) });
    if j == ps.len() - 1 {
        assert(pred(ps.last()));
        let u = usable(ps);
        let i = u.len() - 1;
        assert(u[i] == ps[j]);
        assert forall|m: int| 0 <= m < u.len() && m != i implies f(#[trigger] u[m]) != f(ps[j]) by {
            assert(u[m] == usable(pre)[m]);
            assert(usable(pre).contains(u[m]));
            pre.lemma_filter_contains_rev(pred, u[m]);
            let q = choose|q: int| 0 <= q < pre.len() && pre[q] == u[m];
            assert(ps[q] == pre[q]);
        }
    } else {
        assert(pre[j] == ps[j]);
        assert forall|m: int| 0 <= m < pre.len() && m != j implies f(#[trigger] pre[m]) != f(pre[j]) by {
            assert(pre[m] == ps[m]);
        }
        lemma_usable_unique(pre, j, f);
        let i = choose|i: int| 0 <= i < usable(pre).len() && usable(pre)[i] == pre[j]
            && forall|m: int| 0 <= m < usable(pre).len() && m != i ==> f(#[trigger] usable(pre)[m]) != f(pre[j]);
        let u = usable(ps);
        assert(u[i] == ps[j]);
        assert forall|m: int| 0 <= m < u.len() && m != i implies f(#[trigger] u[m]) != f(ps[j]) by {
            if m < usable(pre).len() {
                assert(u[m] == usable(pre)[m]);
            } else {
                assert(u[m] == ps.last());
                assert(ps.last() == ps[ps.len() - 1]);
            }
        }
    }
}

/// What a roster loaded from a registry answers about an entry whose
/// stored key is usable and whose device id no other entry carries:
/// `key_for_id` finds that key, on a roster entry with the entry's name;
/// when no other entry holds the same key either, `peer_for_key` finds
/// exactly that entry's id and name.
pub proof fn lemma_loaded_roster_lookups(rs: Seq<RosterPeer>, ps: Seq<Peer>, j: int)
    requires
        built_from(rs, ps),
        0 <= j < ps.len(),
        key_of(ps[j].public_key@) is Some,
        forall|m: int| 0 <= m < ps.len() && m != j ==> (#[trigger] ps[m]).device_id@ != ps[j].device_id@,
    ensures
        exists|i: int| #[trigger] last_with_id(rs, ps[j].device_id@, i)
            && Some(rs[i].public_key@) == key_of(ps[j].public_key@) && rs[i].name@ == ps[j].name@,
        (forall|m: int| 0 <= m < ps.len() && m != j ==> key_of((#[trigger] ps[m]).public_key@) != key_of(ps[j].public_key@))
            ==> exists|i: int| #[trigger] last_with_key(rs, key_of(ps[j].public_key@)->0, i)
                && rs[i].device_id@ == ps[j].device_id@ && rs[i].name@ == ps[j].name@,
{
    let fid = |p: Peer| p.device_id@;
    assert forall|m: int| 0 <= m < ps.len() && m != j implies fid(#[trigger] ps[m]) != fid(ps[j]) by {}
    lemma_usable_unique(ps, j, fid);
    let i = choose|i: int| 0 <= i < usable(ps).len() && usable(ps)[i] == ps[j]
        && forall|m: int| 0 <= m < usable(ps).len() && m != i ==> fid(#[trigger] usable(ps)[m]) != fid(ps[j]);
    assert(corresponds(rs[i], usable(ps)[i]));
    assert forall|m: int| i < m < rs.len() implies rs[m].device_id@ != ps[j].device_id@ by {
        assert(corresponds(rs[m], usable(ps)[m]));
        assert(fid(usable(ps)[m]) != fid(ps[j]));
    }
    assert(last_with_id(rs, ps[j].device_id@, i));
    let k = key_of(ps[j].public_key@);
    if forall|m: int| 0 <= m < ps.len() && m != j ==> key_of((#[trigger] ps[m]).public_key@) != k {
        let fk = |p: Peer| key_of(p.public_key@);
        assert forall|m: int| 0 <= m < ps.len() && m != j implies fk(#[trigger] ps[m]) != fk(ps[j]) by {}
        lemma_usable_unique(ps, j, fk);
        let i2 = choose|i2: int| 0 <= i2 < usable(ps).len() && usable(ps)[i2] == ps[j]
            && forall|m: int| 0 <= m < usable(ps).len() && m != i2 ==> fk(#[trigger] usable(ps)[m]) != fk(ps[j]);
        assert(corresponds(rs[i2], usable(ps)[i2]));
        assert forall|m: int| i2 < m < rs.len() implies rs[m].public_key@ != k->0 by {
            assert(corresponds(rs[m], usable(ps)[m]));
            assert(fk(usable(ps)[m]) != fk(ps[j]));
        }
        assert(last_with_key(rs, k->0, i2));
    }
}

} // verus!
