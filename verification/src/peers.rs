//! `peers.toml`: the registry of paired devices.

use vstd::prelude::*;
use crate::base64::{b64, decode_key, encode_key, key_of, lemma_key_of_b64};
use crate::store::{load_with, FileRead, LoadError};
use crate::strmap::str_eq;

verus! {

/// A single paired peer.
#[derive(Debug, Clone, PartialEq, Eq)]
pub struct Peer {
    /// Friendly name (used for `--to <name>` targeting).
    pub name: String,
    /// Stable device identifier.
    pub device_id: String,
    /// Base64 (standard, no padding) Ed25519 public key, pinned for TLS.
    pub public_key: String,
    /// Last successful contact, RFC 3339. `None` until first connect.
    pub last_seen: Option<String>,
    /// Pre-authorized as an unattended sender.
    pub authorized: bool,
    /// Host name the peer reported when it was authorized.
    pub hostname: Option<String>,
    /// MAC addresses the peer reported when it was authorized.
    pub macs: Vec<String>,
    /// Operator-configured `host:port` to dial without waiting for mDNS.
    pub address: Option<String>,
}

/// The stored public key is not a base64 32-byte Ed25519 key.
#[derive(Debug, Clone, PartialEq, Eq)]
pub enum KeyError {
    Malformed,
}

impl Peer {
    /// A freshly paired peer: its key stored as base64, nothing else known.
    pub fn new(name: &str, device_id: &str, public_key: &[u8; 32]) -> (p: Peer)
        ensures
            p.name@ == name@,
            p.device_id@ == device_id@,
            p.public_key@ == b64(public_key@),
            p.last_seen is None,
            !p.authorized,
            p.hostname is None,
            p.macs@.len() == 0,
            p.address is None,
    {
        Peer {
            name: String::from_str(name),
            device_id: String::from_str(device_id),
            public_key: encode_key(public_key),
            last_seen: None,
            authorized: false,
            hostname: None,
            macs: Vec::new(),
            address: None,
        }
    }

    /// The pinned key's raw bytes.
    pub fn key_bytes(&self) -> (r: Result<[u8; 32], KeyError>)
        ensures
            match r {
                Ok(k) => key_of(self.public_key@) == Some(k@),
                Err(_) => key_of(self.public_key@) is None,
            },
    {
        match decode_key(self.public_key.as_str()) {
            Some(k) => Ok(k),
            None => Err(KeyError::Malformed),
        }
    }
}

/// A key stored by `Peer::new` reads back as the same key.
pub proof fn lemma_new_key_roundtrip(k: [u8; 32])
    ensures key_of(b64(k@)) == Some(k@),
{
    lemma_key_of_b64(k);
}

/// The whole `peers.toml` document.
#[derive(Debug, Clone, PartialEq, Eq)]
pub struct Peers {
    pub peers: Vec<Peer>,
}

/// `i` is the first position whose peer is called `name`.
pub open spec fn first_named(ps: Seq<Peer>, name: Seq<char>, i: int) -> bool {
    0 <= i < ps.len() && ps[i].name@ == name && forall|j: int| 0 <= j < i ==> ps[j].name@ != name
}

/// `i` is the first position whose peer has device id `id`.
pub open spec fn first_with_id(ps: Seq<Peer>, id: Seq<char>, i: int) -> bool {
    0 <= i < ps.len() && ps[i].device_id@ == id && forall|j: int| 0 <= j < i ==> ps[j].device_id@ != id
}

/// Some peer is called `name`.
pub open spec fn has_name(ps: Seq<Peer>, name: Seq<char>) -> bool {
    exists|i: int| 0 <= i < ps.len() && #[trigger] ps[i].name@ == name
}

/// Some peer has device id `id`.
pub open spec fn has_id(ps: Seq<Peer>, id: Seq<char>) -> bool {
    exists|i: int| 0 <= i < ps.len() && #[trigger] ps[i].device_id@ == id
}

/// Whether an entry is called otherwise than `name`.
pub open spec fn named_otherwise(name: Seq<char>) -> spec_fn(Peer) -> bool {
    |p: Peer| p.name@ != name
}

/// The entries not called `name`, in order.
pub open spec fn without_name(ps: Seq<Peer>, name: Seq<char>) -> Seq<Peer> {
    ps.filter(named_otherwise(name))
}

/// An entry that survives removing the entries called `name` is an entry of
/// the registry, and is called otherwise.
pub(crate) proof fn lemma_without_name_keeps(ps: Seq<Peer>, name: Seq<char>, p: Peer)
    requires without_name(ps, name).contains(p),
    ensures ps.contains(p), p.name@ != name,
{
    let f = named_otherwise(name);
    ps.lemma_filter_contains_rev(f, p);
    #[allow(deprecated)]
    ps.filter_lemma(f);
    let k = choose|k: int| 0 <= k < ps.filter(f).len() && ps.filter(f)[k] == p;
    assert(f(ps.filter(f)[k]));
}

impl Peers {
    /// An empty registry.
    pub fn new() -> (r: Peers)
        ensures r.peers@.len() == 0,
    {
        Peers { peers: Vec::new() }
    }

    /// Load semantics of `peers.toml`: the parsed file, or an empty
    /// registry when there is none; a malformed or unreadable file is an
    /// error.
    pub fn load(read: FileRead<Peers>) -> (r: Result<Peers, LoadError>)
        ensures
            read is Missing ==> (r matches Ok(p) && p.peers@.len() == 0),
            read matches FileRead::Parsed(p) ==> r == Ok::<Peers, LoadError>(p),
            read matches FileRead::Invalid(e) ==> r == Err::<Peers, LoadError>(LoadError::Parse(e)),
            read matches FileRead::Unreadable(e) ==> r == Err::<Peers, LoadError>(LoadError::Read(e)),
    {
        load_with(read, Peers::new())
    }

    /// Position of the first peer called `name`.
    pub fn position_by_name(&self, name: &str) -> (r: Option<usize>)
        ensures
            match r {
                Some(i) => first_named(self.peers@, name@, i as int),
                None => !has_name(self.peers@, name@),
            },
    {
        let mut i: usize = 0;
        while i < self.peers.len()
            invariant
                i <= self.peers@.len(),
                forall|j: int| 0 <= j < i ==> self.peers@[j].name@ != name@,
            decreases self.peers@.len() - i,
        {
            if str_eq(self.peers[i].name.as_str(), name) {
                return Some(i);
            }
            i += 1;
        }
        None
    }

    /// Position of the first peer with device id `id`.
    pub fn position_by_id(&self, id: &str) -> (r: Option<usize>)
        ensures
            match r {
                Some(i) => first_with_id(self.peers@, id@, i as int),
                None => !has_id(self.peers@, id@),
            },
    {
        let mut i: usize = 0;
        while i < self.peers.len()
            invariant
                i <= self.peers@.len(),
                forall|j: int| 0 <= j < i ==> self.peers@[j].device_id@ != id@,
            decreases self.peers@.len() - i,
        {
            if str_eq(self.peers[i].device_id.as_str(), id) {
                return Some(i);
            }
            i += 1;
        }
        None
    }

    /// Look up a peer by name (the first one so called).
    pub fn find(&self, name: &str) -> (r: Option<&Peer>)
        ensures
            match r {
                Some(p) => exists|i: int| first_named(self.peers@, name@, i) && *p == self.peers@[i],
                None => !has_name(self.peers@, name@),
            },
    {
        match self.position_by_name(name) {
            Some(i) => Some(&self.peers[i]),
            None => None,
        }
    }

    /// Look up a peer by device id (the first one with it).
    pub fn find_by_id(&self, id: &str) -> (r: Option<&Peer>)
        ensures
            match r {
                Some(p) => exists|i: int| first_with_id(self.peers@, id@, i) && *p == self.peers@[i],
                None => !has_id(self.peers@, id@),
            },
    {
        match self.position_by_id(id) {
            Some(i) => Some(&self.peers[i]),
            None => None,
        }
    }

    /// Whether there are no paired peers.
    pub fn is_empty(&self) -> (b: bool)
        ensures b == (self.peers@.len() == 0),
    {
        self.peers.len() == 0
    }

    /// Add a peer, replacing the entry that has the same device id if there
    /// is one (in place), otherwise appending it.
    pub fn upsert(&mut self, peer: Peer)
        ensures
            has_id(old(self).peers@, peer.device_id@) ==> exists|i: int|
                first_with_id(old(self).peers@, peer.device_id@, i)
                && final(self).peers@ == old(self).peers@.update(i, peer),
            !has_id(old(self).peers@, peer.device_id@) ==> final(self).peers@ == old(self).peers@.push(peer),
    {
        match self.position_by_id(peer.device_id.as_str()) {
            Some(i) => {
                self.peers.set(i, peer);
            },
            None => {
                self.peers.push(peer);
            },
        }
    }

    /// Remove every peer called `name`. Returns whether any was removed.
    pub fn remove_by_name(&mut self, name: &str) -> (removed: bool)
        ensures
            final(self).peers@ == without_name(old(self).peers@, name@),
            removed == has_name(old(self).peers@, name@),
    {
        let n0 = self.peers.len();
        let ghost orig = self.peers@;
        let ghost pred = |p: Peer| p.name@ != name@;
        let mut removed = false;
        let mut i: usize = 0;
        let mut k: usize = 0;
        proof { reveal_with_fuel(Seq::filter, 1); assert(orig.subrange(0, 0) =~= Seq::<Peer>::empty()); }
        while i < self.peers.len()
            invariant
                k <= orig.len(),
                orig.len() <= usize::MAX,
                i <= self.peers@.len(),
                self.peers@.subrange(0, i as int) == orig.subrange(0, k as int).filter(pred),
                self.peers@.subrange(i as int, self.peers@.len() as int) == orig.subrange(k as int, orig.len() as int),
                self.peers@.len() - i == orig.len() - k,
                removed == has_name(orig.subrange(0, k as int), name@),
                pred == (|p: Peer| p.name@ != name@),
            decreases self.peers@.len() - i,
        {
            let ghost pre = orig.subrange(0, k as int);
            let ghost post = orig.subrange(0, k + 1);
            let ghost cur = self.peers@;
            assert forall|t: int| 0 <= t < cur.len() - i implies #[trigger] cur[i + t] == orig[k + t] by {
                assert(cur.subrange(i as int, cur.len() as int)[t] == orig.subrange(k as int, orig.len() as int)[t]);
            }
            assert(cur[i + 0] == orig[k + 0]);
            assert(post.drop_last() =~= pre);
            assert(post.last() == orig[k as int]);
            reveal_with_fuel(Seq::filter, 1);
            assert(has_name(post, name@) == (has_name(pre, name@) || orig[k as int].name@ == name@)) by {
                if has_name(post, name@) {
                    let j = choose|j: int| 0 <= j < post.len() && #[trigger] post[j].name@ == name@;
                    if j < k { assert(pre[j].name@ == name@); }
                }
                if has_name(pre, name@) {
                    let j = choose|j: int| 0 <= j < pre.len() && #[trigger] pre[j].name@ == name@;
                    assert(post[j].name@ == name@);
                }
                if orig[k as int].name@ == name@ {
                    assert(post[k as int].name@ == name@);
                }
            }
            if str_eq(self.peers[i].name.as_str(), name) {
                removed = true;
                self.peers.remove(i);
                proof {
                    assert(self.peers@.subrange(0, i as int) =~= cur.subrange(0, i as int));
                    assert forall|t: int| 0 <= t < self.peers@.len() - i implies
                        #[trigger] self.peers@.subrange(i as int, self.peers@.len() as int)[t] == orig.subrange(k + 1, orig.len() as int)[t] by {
                        assert(self.peers@[i + t] == cur[i + (t + 1)]);
                    }
                    assert(self.peers@.subrange(i as int, self.peers@.len() as int) =~= orig.subrange(k + 1, orig.len() as int));
                }
            } else {
                proof {
                    assert(self.peers@.subrange(0, i + 1) =~= cur.subrange(0, i as int).push(cur[i as int]));
                    assert forall|t: int| 0 <= t < self.peers@.len() - (i + 1) implies
                        #[trigger] self.peers@.subrange(i + 1, self.peers@.len() as int)[t] == orig.subrange(k + 1, orig.len() as int)[t] by {
                        assert(self.peers@[i + 1 + t] == cur[i + (t + 1)]);
                    }
                    assert(self.peers@.subrange(i + 1, self.peers@.len() as int) =~= orig.subrange(k + 1, orig.len() as int));
                }
                i += 1;
            }
            k += 1;
        }
        proof {
            assert(orig.subrange(0, orig.len() as int) =~= orig);
            assert(self.peers@.subrange(0, i as int) =~= self.peers@);
        }
        removed
    }

    /// Record the outcome of an authorization exchange on the peer with
    /// device id `key` (or, failing that, the peer called `key`).
    /// `false` when no such peer is paired.
    pub fn set_authorization(&mut self, key: &str, authorized: bool, hostname: String, macs: Vec<String>) -> (found: bool)
        ensures
            found == (has_id(old(self).peers@, key@) || has_name(old(self).peers@, key@)),
            !found ==> final(self).peers@ == old(self).peers@,
            found ==> exists|i: int| (first_with_id(old(self).peers@, key@, i)
                    || (!has_id(old(self).peers@, key@) && first_named(old(self).peers@, key@, i)))
                && final(self).peers@ == old(self).peers@.update(i, Peer {
                    authorized: authorized,
                    hostname: Some(hostname),
                    macs: macs,
                    ..old(self).peers@[i]
                }),
    {
        let pos = match self.position_by_id(key) {
            Some(i) => Some(i),
            None => self.position_by_name(key),
        };
        match pos {
            Some(i) => {
                let ghost before = self.peers@;
                let mut p = self.peers.remove(i);
                p.authorized = authorized;
                p.hostname = Some(hostname);
                p.macs = macs;
                self.peers.insert(i, p);
                proof { assert(self.peers@ =~= before.update(i as int, p)); }
                true
            },
            None => false,
        }
    }
}

/// After removing every peer called `name`, none is left so called.
pub proof fn lemma_removed_name_gone(ps: Seq<Peer>, name: Seq<char>)
    ensures !has_name(without_name(ps, name), name),
{
    let pred = |p: Peer| p.name@ != name;
    if has_name(without_name(ps, name), name) {
        let i = choose|i: int| 0 <= i < without_name(ps, name).len() && #[trigger] without_name(ps, name)[i].name@ == name;
        ps.lemma_filter_pred(pred, i);
    }
}

/// After an upsert (the entry with the peer's device id replaced, or the
/// peer appended), looking the device id up finds exactly that peer.
pub proof fn lemma_upsert_then_found(ps: Seq<Peer>, p: Peer, after: Seq<Peer>)
    requires
        (exists|i: int| first_with_id(ps, p.device_id@, i) && after == ps.update(i, p))
            || (!has_id(ps, p.device_id@) && after == ps.push(p)),
    ensures
        exists|j: int| first_with_id(after, p.device_id@, j) && after[j] == p,
{
    if exists|i: int| first_with_id(ps, p.device_id@, i) && after == ps.update(i, p) {
        let i = choose|i: int| first_with_id(ps, p.device_id@, i) && after == ps.update(i, p);
        assert(first_with_id(after, p.device_id@, i));
    } else {
        let n = ps.len() as int;
        assert forall|j: int| 0 <= j < n implies after[j].device_id@ != p.device_id@ by {
            assert(after[j] == ps[j]);
        }
        assert(first_with_id(after, p.device_id@, n));
    }
}

} // verus!
