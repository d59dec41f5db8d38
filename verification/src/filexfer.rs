//! File transfer decisions. A sender streams a file to a peer as
//! `BlobStart` / `BlobChunk` / `BlobEnd`; the receiver hashes what arrives,
//! checks the SHA-256 and the announced size, moves the file into the
//! downloads directory (or its `pending` subdirectory for review) under a
//! name that does not clash, and acks the result. Names that try to leave
//! the downloads directory are refused.

use vstd::prelude::*;
use crate::crypto::{ct_eq, digester_input, sha256_digest, Digester};
use crate::peers::{first_named, first_with_id, has_id, has_name, Peers};
use crate::proto::{blob_name, safe_blob_name};
use crate::state::{decimal, decimal_chars};
use crate::strmap::str_eq;
use crate::text::{chars_of, string_from};

verus! {

/// How long a sender waits for the receiver's ack, in seconds.
pub const ACK_TIMEOUT_SECS: u64 = 120;
/// How long a sender waits for a dropped peer to come back, in seconds.
pub const RECONNECT_WAIT_SECS: u64 = 30;
/// Attempts per file.
pub const SEND_ATTEMPTS: usize = 3;
/// Numbered alternatives tried for a clashing destination name.
pub const DEST_CANDIDATES: u64 = 10000;

/// Per-send result reported back to the CLI.
#[derive(Debug, Clone, PartialEq, Eq)]
pub struct SendOutcome {
    pub name: String,
    pub peer: String,
    pub ok: bool,
    pub detail: String,
}

/// An incoming file in progress.
pub struct Incoming {
    pub peer: String,
    pub id: u64,
    /// The sanitised file name.
    pub name: String,
    /// Saved for review (in `pending`) rather than straight to downloads.
    pub pending: bool,
    /// Name of the temporary file in the destination directory.
    pub tmp_name: String,
    /// Bytes received (saturating).
    pub written: u64,
    /// Size the sender announced (0: unknown).
    pub declared: u64,
    /// Digest of the bytes received.
    pub digest: Digester,
}

/// Where an accepted incoming file goes.
#[derive(Debug, Clone, PartialEq, Eq)]
pub struct StartPlan {
    /// The sanitised file name.
    pub name: String,
    /// Into the `pending` subdirectory.
    pub pending: bool,
    /// `.{name}.{id}.part`, the temporary file.
    pub tmp_name: String,
}

/// The receiver's verdict on a finished transfer.
#[derive(Debug)]
pub enum EndVerdict {
    /// No such transfer in progress.
    Unknown,
    /// Refused: delete the temporary file and ack with this detail.
    Reject { detail: String, tmp_name: String, pending: bool },
    /// Verified: move the temporary file to its destination and ack.
    Accept { name: String, tmp_name: String, pending: bool, written: u64 },
}

/// The receiving side of file transfers.
pub struct Receiver {
    pub require_confirm: bool,
    pub incoming: Vec<Incoming>,
}

/// `"unsafe filename"`.
pub open spec fn unsafe_name_msg() -> Seq<char> {
    seq!['u', 'n', 's', 'a', 'f', 'e', ' ', 'f', 'i', 'l', 'e', 'n', 'a', 'm', 'e']
}

/// `"sha256 mismatch"`.
pub open spec fn sha_mismatch_msg() -> Seq<char> {
    seq!['s', 'h', 'a', '2', '5', '6', ' ', 'm', 'i', 's', 'm', 'a', 't', 'c', 'h']
}

/// `"size mismatch"`.
pub open spec fn size_mismatch_msg() -> Seq<char> {
    seq!['s', 'i', 'z', 'e', ' ', 'm', 'i', 's', 'm', 'a', 't', 'c', 'h']
}

/// The temporary file name for transfer `id` of `name`.
pub open spec fn tmp_name_of(name: Seq<char>, id: u64) -> Seq<char> {
    seq!['.'] + name + seq!['.'] + decimal(id as nat) + seq!['.', 'p', 'a', 'r', 't']
}

/// Bytes counted, saturating at `u64::MAX`.
pub open spec fn counted(n: int) -> u64 {
    if n > u64::MAX { u64::MAX } else { n as u64 }
}

/// Position `i` holds the transfer `(peer, id)`.
pub open spec fn holds_transfer(v: Seq<Incoming>, i: int, peer: Seq<char>, id: u64) -> bool {
    0 <= i < v.len() && v[i].peer@ == peer && v[i].id == id
}

/// Some position holds the transfer `(peer, id)`.
pub open spec fn has_transfer(v: Seq<Incoming>, peer: Seq<char>, id: u64) -> bool {
    exists|i: int| holds_transfer(v, i, peer, id)
}

/// Append the characters of `b` to `a`.
fn push_all(a: &mut Vec<char>, b: &[char])
    ensures final(a)@ == old(a)@ + b@,
{
    let ghost a0 = a@;
    let mut i: usize = 0;
    while i < b.len()
        invariant
            i <= b@.len(),
            a@ == a0 + b@.subrange(0, i as int),
        decreases b@.len() - i,
    {
        a.push(b[i]);
        proof { assert(b@.subrange(0, i + 1) =~= b@.subrange(0, i as int).push(b@[i as int])); }
        i += 1;
    }
    proof { assert(b@.subrange(0, b@.len() as int) =~= b@); }
}

/// What registering transfer `(peer, id)` does: from `pre` to `post`.
pub open spec fn registered(pre: Receiver, peer: Seq<char>, id: u64, plan: StartPlan, declared: u64, post: Receiver) -> bool {
    &&& post.inv()
    &&& post.require_confirm == pre.require_confirm
    &&& has_transfer(post.incoming@, peer, id)
    &&& forall|i: int| holds_transfer(post.incoming@, i, peer, id) ==> {
        let e = #[trigger] post.incoming@[i];
        &&& e.name@ == plan.name@
        &&& e.pending == plan.pending
        &&& e.tmp_name@ == plan.tmp_name@
        &&& e.written == 0
        &&& e.declared == declared
        &&& digester_input(e.digest).len() == 0
    }
}

/// What a chunk `data` of transfer `(peer, id)` does: from `pre` to
/// `post`, answering `known`.
pub open spec fn chunked(pre: Receiver, peer: Seq<char>, id: u64, data: Seq<u8>, post: Receiver, known: bool) -> bool {
    &&& post.inv()
    &&& post.require_confirm == pre.require_confirm
    &&& known == has_transfer(pre.incoming@, peer, id)
    &&& post.incoming@.len() == pre.incoming@.len()
    &&& forall|i: int| 0 <= i < pre.incoming@.len() ==> {
        let a = pre.incoming@[i];
        let b = #[trigger] post.incoming@[i];
        &&& b.peer == a.peer && b.id == a.id && b.name == a.name && b.pending == a.pending
        &&& b.tmp_name == a.tmp_name && b.declared == a.declared
        &&& if holds_transfer(pre.incoming@, i, peer, id) {
            digester_input(b.digest) == digester_input(a.digest) + data
        } else {
            b.written == a.written && b.digest == a.digest
        }
    }
}

/// What the end of transfer `(peer, id)` with digest `sha` does: from
/// `pre` to `post`, with verdict `r`.
pub open spec fn ended(pre: Receiver, peer: Seq<char>, id: u64, sha: [u8; 32], post: Receiver, r: EndVerdict) -> bool {
    &&& post.inv()
    &&& post.require_confirm == pre.require_confirm
    &&& !has_transfer(post.incoming@, peer, id)
    &&& !has_transfer(pre.incoming@, peer, id) ==> r is Unknown
    &&& forall|i: int| #[trigger] holds_transfer(pre.incoming@, i, peer, id) ==> {
        let e = pre.incoming@[i];
        let got = digester_input(e.digest);
        match r {
            EndVerdict::Unknown => false,
            EndVerdict::Reject { detail, tmp_name, pending } => {
                &&& tmp_name@ == e.tmp_name@
                &&& pending == e.pending
                &&& if sha256_digest(got) != sha@ {
                    detail@ == sha_mismatch_msg()
                } else {
                    e.declared != 0 && e.written != e.declared && detail@ == size_mismatch_msg()
                }
            },
            EndVerdict::Accept { name, tmp_name, pending, written } => {
                &&& sha256_digest(got) == sha@
                &&& (e.declared == 0 || e.written == e.declared)
                &&& written == counted(got.len() as int)
                &&& name@ == e.name@
                &&& tmp_name@ == e.tmp_name@
                &&& pending == e.pending
            },
        }
    }
}

impl Receiver {
    /// Transfers in progress are told apart by peer and id, and each one's
    /// byte count is that of what it hashed.
    pub open spec fn inv(&self) -> bool {
        &&& forall|i: int, j: int| 0 <= i < j < self.incoming@.len()
            ==> !(#[trigger] self.incoming@[i].peer@ == #[trigger] self.incoming@[j].peer@
                && self.incoming@[i].id == self.incoming@[j].id)
        &&& forall|i: int| 0 <= i < self.incoming@.len()
            ==> (#[trigger] self.incoming@[i]).written == counted(digester_input(self.incoming@[i].digest).len() as int)
    }

    /// A receiver with nothing in progress.
    pub fn new(require_confirm: bool) -> (r: Receiver)
        ensures r.inv(), r.require_confirm == require_confirm, r.incoming@.len() == 0,
    {
        Receiver { require_confirm, incoming: Vec::new() }
    }

    /// Position of the transfer `(peer, id)`.
    pub fn position(&self, peer: &str, id: u64) -> (r: Option<usize>)
        requires self.inv(),
        ensures
            match r {
                Some(i) => holds_transfer(self.incoming@, i as int, peer@, id),
                None => !has_transfer(self.incoming@, peer@, id),
            },
    {
        let mut i: usize = 0;
        while i < self.incoming.len()
            invariant
                i <= self.incoming@.len(),
                forall|j: int| 0 <= j < i ==> !holds_transfer(self.incoming@, j, peer@, id),
            decreases self.incoming@.len() - i,
        {
            if self.incoming[i].id == id && str_eq(self.incoming[i].peer.as_str(), peer) {
                return Some(i);
            }
            i += 1;
        }
        None
    }

    /// Where a transfer announced as `name` would go: refused when the name
    /// is unsafe; otherwise under its sanitised name, into `pending` when
    /// files need review, via `.{name}.{id}.part`.
    pub fn plan_start(&self, id: u64, name: &str) -> (r: Result<StartPlan, String>)
        ensures
            match r {
                Ok(p) => {
                    &&& blob_name(name@) == Some(p.name@)
                    &&& p.pending == self.require_confirm
                    &&& p.tmp_name@ == tmp_name_of(p.name@, id)
                },
                Err(d) => blob_name(name@) is None && d@ == unsafe_name_msg(),
            },
    {
        let safe = match safe_blob_name(name) {
            Some(s) => s,
            None => {
                let c: [char; 15] = ['u', 'n', 's', 'a', 'f', 'e', ' ', 'f', 'i', 'l', 'e', 'n', 'a', 'm', 'e'];
                proof { assert(c@ =~= unsafe_name_msg()); }
                return Err(string_from(c.as_slice()));
            },
        };
        let mut t: Vec<char> = Vec::new();
        t.push('.');
        let sc = chars_of(safe.as_str());
        push_all(&mut t, sc.as_slice());
        t.push('.');
        let d = decimal_chars(id);
        push_all(&mut t, d.as_slice());
        let suffix: [char; 5] = ['.', 'p', 'a', 'r', 't'];
        push_all(&mut t, suffix.as_slice());
        proof { assert(t@ =~= tmp_name_of(safe@, id)); }
        Ok(StartPlan { name: safe, pending: self.require_confirm, tmp_name: string_from(t.as_slice()) })
    }

    /// The temporary file exists: the transfer is in progress, replacing any
    /// earlier one with the same peer and id.
    pub fn register(&mut self, peer: String, id: u64, plan: StartPlan, declared: u64)
        requires old(self).inv(),
        ensures
            registered(*old(self), peer@, id, plan, declared, *final(self)),
    {
        let ghost pk = peer@;
        match self.position(peer.as_str(), id) {
            Some(i) => {
                let ghost p0 = self.incoming@;
                let _ = self.incoming.remove(i);
                proof { self.lemma_removed(p0, i as int, pk, id); }
            },
            None => {},
        }
        let ghost pre = self.incoming@;
        assert(!has_transfer(pre, pk, id));
        let e = Incoming {
            peer,
            id,
            name: plan.name,
            pending: plan.pending,
            tmp_name: plan.tmp_name,
            written: 0,
            declared,
            digest: Digester::start(),
        };
        self.incoming.push(e);
        proof {
            let n = pre.len() as int;
            assert(holds_transfer(self.incoming@, n, self.incoming@[n].peer@, id));
            assert forall|a: int, b: int| 0 <= a < b < self.incoming@.len()
                implies !(#[trigger] self.incoming@[a].peer@ == #[trigger] self.incoming@[b].peer@
                    && self.incoming@[a].id == self.incoming@[b].id) by {
                if b == n {
                    assert(self.incoming@[a] == pre[a]);
                    assert(!holds_transfer(pre, a, pk, id));
                } else {
                    assert(self.incoming@[a] == pre[a]);
                    assert(self.incoming@[b] == pre[b]);
                }
            }
            assert forall|i: int| holds_transfer(self.incoming@, i, self.incoming@[n].peer@, id) implies i == n by {
                if i < n {
                    assert(self.incoming@[i] == pre[i]);
                    assert(!holds_transfer(pre, i, pk, id));
                }
            }
        }
    }

    /// A chunk arrived and was written: count and hash it. Chunks of a
    /// transfer not in progress are ignored (`false`).
    pub fn on_chunk(&mut self, peer: &str, id: u64, data: &[u8]) -> (known: bool)
        requires old(self).inv(),
        ensures
            chunked(*old(self), peer@, id, data@, *final(self), known),
    {
        match self.position(peer, id) {
            Some(i) => {
                let ghost pre = self.incoming@;
                let mut e = self.incoming.remove(i);
                let ghost before = digester_input(e.digest);
                e.digest.feed(data);
                let n = data.len() as u64;
                e.written = if e.written > u64::MAX - n { u64::MAX } else { e.written + n };
                self.incoming.insert(i, e);
                proof {
                    assert forall|j: int| 0 <= j < self.incoming@.len() && j != i implies
                        #[trigger] self.incoming@[j] == pre[j] by {}
                    assert forall|a: int, b: int| 0 <= a < b < self.incoming@.len()
                        implies !(#[trigger] self.incoming@[a].peer@ == #[trigger] self.incoming@[b].peer@
                            && self.incoming@[a].id == self.incoming@[b].id) by {
                        assert(self.incoming@[a].peer == pre[a].peer && self.incoming@[a].id == pre[a].id);
                        assert(self.incoming@[b].peer == pre[b].peer && self.incoming@[b].id == pre[b].id);
                    }
                    assert(pre[i as int].written == counted(before.len() as int));
                }
                true
            },
            None => false,
        }
    }

    /// The transfer is abandoned (its file could not be written); its entry
    /// goes, and the temporary file name is handed back for deletion.
    pub fn abort(&mut self, peer: &str, id: u64) -> (r: Option<String>)
        requires old(self).inv(),
        ensures
            final(self).inv(),
            final(self).require_confirm == old(self).require_confirm,
            !has_transfer(final(self).incoming@, peer@, id),
            r is Some == has_transfer(old(self).incoming@, peer@, id),
    {
        match self.position(peer, id) {
            Some(i) => {
                let ghost pre = self.incoming@;
                let e = self.incoming.remove(i);
                proof { self.lemma_removed(pre, i as int, peer@, id); }
                Some(e.tmp_name)
            },
            None => None,
        }
    }

    /// After removing position `i`, nothing holds that transfer any more.
    proof fn lemma_removed(&self, pre: Seq<Incoming>, i: int, peer: Seq<char>, id: u64)
        requires
            0 <= i < pre.len(),
            holds_transfer(pre, i, peer, id),
            self.incoming@ == pre.remove(i),
            forall|a: int, b: int| 0 <= a < b < pre.len()
                ==> !(#[trigger] pre[a].peer@ == #[trigger] pre[b].peer@ && pre[a].id == pre[b].id),
            forall|a: int| 0 <= a < pre.len()
                ==> (#[trigger] pre[a]).written == counted(digester_input(pre[a].digest).len() as int),
        ensures
            self.inv(),
            !has_transfer(self.incoming@, peer, id),
    {
        assert forall|a: int, b: int| 0 <= a < b < self.incoming@.len()
            implies !(#[trigger] self.incoming@[a].peer@ == #[trigger] self.incoming@[b].peer@
                && self.incoming@[a].id == self.incoming@[b].id) by {
            let a2 = if a < i { a } else { a + 1 };
            let b2 = if b < i { b } else { b + 1 };
            assert(self.incoming@[a] == pre[a2]);
            assert(self.incoming@[b] == pre[b2]);
        }
        assert forall|a: int| 0 <= a < self.incoming@.len()
            implies (#[trigger] self.incoming@[a]).written == counted(digester_input(self.incoming@[a].digest).len() as int) by {
            let a2 = if a < i { a } else { a + 1 };
            assert(self.incoming@[a] == pre[a2]);
        }
        if has_transfer(self.incoming@, peer, id) {
            let a = choose|a: int| holds_transfer(self.incoming@, a, peer, id);
            let a2 = if a < i { a } else { a + 1 };
            assert(self.incoming@[a] == pre[a2]);
            if a2 < i {
                assert(!(pre[a2].peer@ == pre[i].peer@ && pre[a2].id == pre[i].id));
            } else {
                assert(!(pre[i].peer@ == pre[a2].peer@ && pre[i].id == pre[a2].id));
            }
        }
    }

    /// The sender finished. The transfer is accepted only when the digest of
    /// the bytes received is the announced one and, when a size was
    /// announced, that many bytes arrived.
    pub fn on_end(&mut self, peer: &str, id: u64, sha: &[u8; 32]) -> (r: EndVerdict)
        requires old(self).inv(),
        ensures
            ended(*old(self), peer@, id, *sha, *final(self), r),
    {
        let i = match self.position(peer, id) {
            Some(i) => i,
            None => return EndVerdict::Unknown,
        };
        let ghost pre = self.incoming@;
        let e = self.incoming.remove(i);
        proof { self.lemma_removed(pre, i as int, peer@, id); }
        let Incoming { name, pending, tmp_name, written, declared, digest, .. } = e;
        let got = digest.finish();
        if !ct_eq(&got, sha) {
            let c: [char; 15] = ['s', 'h', 'a', '2', '5', '6', ' ', 'm', 'i', 's', 'm', 'a', 't', 'c', 'h'];
            proof { assert(c@ =~= sha_mismatch_msg()); }
            return EndVerdict::Reject { detail: string_from(c.as_slice()), tmp_name, pending };
        }
        if declared != 0 && written != declared {
            let c: [char; 13] = ['s', 'i', 'z', 'e', ' ', 'm', 'i', 's', 'm', 'a', 't', 'c', 'h'];
            proof { assert(c@ =~= size_mismatch_msg()); }
            return EndVerdict::Reject { detail: string_from(c.as_slice()), tmp_name, pending };
        }
        EndVerdict::Accept { name, tmp_name, pending, written }
    }
}

/// `k` is the position of the last `.` in `s`.
pub open spec fn last_dot(s: Seq<char>, k: int) -> bool {
    0 <= k < s.len() && s[k] == '.' && forall|j: int| k < j < s.len() ==> s[j] != '.'
}

/// Destination name number `i` for `name`: the name itself, then
/// `stem (i).ext` (split at the last dot), or `name (i)` without a dot.
pub open spec fn spec_candidate(name: Seq<char>, i: nat) -> Seq<char> {
    if i == 0 {
        name
    } else if exists|k: int| last_dot(name, k) {
        let k = choose|k: int| last_dot(name, k);
        name.subrange(0, k) + seq![' ', '('] + decimal(i) + seq![')'] + name.subrange(k, name.len() as int)
    } else {
        name + seq![' ', '('] + decimal(i) + seq![')']
    }
}

/// Position of the last `.`.
fn find_last_dot(v: &Vec<char>) -> (r: Option<usize>)
    ensures
        match r {
            Some(k) => last_dot(v@, k as int),
            None => forall|k: int| !last_dot(v@, k),
        },
{
    let mut i: usize = v.len();
    while i > 0
        invariant
            i <= v@.len(),
            forall|j: int| i <= j < v@.len() ==> v@[j] != '.',
        decreases i,
    {
        if v[i - 1] == '.' {
            return Some(i - 1);
        }
        i -= 1;
    }
    proof {
        assert forall|k: int| !last_dot(v@, k) by {
            if 0 <= k < v@.len() {
                assert(v@[k] != '.');
            }
        }
    }
    None
}

/// The `i`-th destination name tried for `name` when the first clashes.
pub fn dest_candidate(name: &str, i: u64) -> (r: String)
    ensures r@ == spec_candidate(name@, i as nat),
{
    if i == 0 {
        return string_from(chars_of(name).as_slice());
    }
    let v = chars_of(name);
    let mut out: Vec<char> = Vec::new();
    let num = decimal_chars(i);
    let open: [char; 2] = [' ', '('];
    let close: [char; 1] = [')'];
    match find_last_dot(&v) {
        Some(k) => {
            let mut j: usize = 0;
            while j < k
                invariant
                    j <= k,
                    k < v@.len(),
                    out@ == v@.subrange(0, j as int),
                decreases k - j,
            {
                out.push(v[j]);
                proof { assert(v@.subrange(0, j + 1) =~= v@.subrange(0, j as int).push(v@[j as int])); }
                j += 1;
            }
            push_all(&mut out, open.as_slice());
            push_all(&mut out, num.as_slice());
            push_all(&mut out, close.as_slice());
            let ghost mid = out@;
            let mut m: usize = k;
            while m < v.len()
                invariant
                    k <= m <= v@.len(),
                    out@ == mid + v@.subrange(k as int, m as int),
                decreases v@.len() - m,
            {
                out.push(v[m]);
                proof { assert(v@.subrange(k as int, m + 1) =~= v@.subrange(k as int, m as int).push(v@[m as int])); }
                m += 1;
            }
            proof {
                let kk = choose|kk: int| last_dot(name@, kk);
                assert(kk == k as int) by {
                    if kk < k { assert(v@[k as int] == '.'); }
                    if kk > k { assert(v@[kk] == '.'); }
                }
                assert(out@ =~= spec_candidate(name@, i as nat));
            }
        },
        None => {
            push_all(&mut out, v.as_slice());
            push_all(&mut out, open.as_slice());
            push_all(&mut out, num.as_slice());
            push_all(&mut out, close.as_slice());
            proof { assert(out@ =~= spec_candidate(name@, i as nat)); }
        },
    }
    string_from(out.as_slice())
}

/// `"no such paired peer"`.
pub open spec fn no_such_peer_msg() -> Seq<char> {
    seq!['n', 'o', ' ', 's', 'u', 'c', 'h', ' ', 'p', 'a', 'i', 'r', 'e', 'd', ' ', 'p', 'e', 'e', 'r']
}

/// `"no connected peers"`.
pub open spec fn no_connected_msg() -> Seq<char> {
    seq!['n', 'o', ' ', 'c', 'o', 'n', 'n', 'e', 'c', 't', 'e', 'd', ' ', 'p', 'e', 'e', 'r', 's']
}

/// The device id a paired peer is known by, given its name or id: the
/// first peer so named, else the first with that id.
pub open spec fn spec_resolve(ps: Seq<crate::peers::Peer>, key: Seq<char>) -> Option<Seq<char>> {
    if has_name(ps, key) {
        Some(ps[choose|i: int| first_named(ps, key, i)].device_id@)
    } else if has_id(ps, key) {
        Some(key)
    } else {
        None
    }
}

/// Resolve a peer name (or id) against the registry.
pub fn resolve_peer(peers: &Peers, key: &str) -> (r: Option<String>)
    ensures
        match r {
            Some(id) => spec_resolve(peers.peers@, key@) == Some(id@),
            None => spec_resolve(peers.peers@, key@) is None,
        },
{
    match peers.find(key) {
        Some(p) => {
            proof {
                let i = choose|i: int| first_named(peers.peers@, key@, i) && *p == peers.peers@[i];
                let c = choose|c: int| first_named(peers.peers@, key@, c);
                assert(c == i) by {
                    if c < i { assert(peers.peers@[c].name@ == key@); }
                    if i < c { assert(peers.peers@[i].name@ == key@); }
                }
            }
            Some(p.device_id.clone())
        },
        None => match peers.find_by_id(key) {
            Some(p) => {
                proof {
                    let i = choose|i: int| first_with_id(peers.peers@, key@, i) && *p == peers.peers@[i];
                }
                Some(p.device_id.clone())
            },
            None => None,
        },
    }
}

/// Which peers a send goes to. A named peer that is connected under that
/// id is used as is; otherwise the name (or id) is resolved against the
/// registry (unreadable: nobody). Without a name, every connected peer.
/// Nobody to send to is reported as a failed outcome.
pub fn send_targets(to: Option<&str>, to_is_connected: bool, connected: &Vec<String>, peers: Option<&Peers>)
    -> (r: Result<Vec<String>, SendOutcome>)
    ensures
        match to {
            Some(name) => if to_is_connected {
                r matches Ok(v) && v@.len() == 1 && v@[0]@ == name@
            } else {
                match (match peers { Some(p) => spec_resolve(p.peers@, name@), None => None }) {
                    Some(id) => r matches Ok(v) && v@.len() == 1 && v@[0]@ == id,
                    None => r matches Err(o) && !o.ok && o.name@.len() == 0 && o.peer@ == name@
                        && o.detail@ == no_such_peer_msg(),
                }
            },
            None => if connected@.len() == 0 {
                r matches Err(o) && !o.ok && o.name@.len() == 0 && o.peer@.len() == 0
                    && o.detail@ == no_connected_msg()
            } else {
                r matches Ok(v) && v@ == connected@
            },
        },
{
    match to {
        Some(name) => {
            if to_is_connected {
                let mut v: Vec<String> = Vec::new();
                v.push(name.to_owned());
                return Ok(v);
            }
            let resolved = match peers {
                Some(p) => resolve_peer(p, name),
                None => None,
            };
            match resolved {
                Some(id) => {
                    let mut v: Vec<String> = Vec::new();
                    v.push(id);
                    Ok(v)
                },
                None => {
                    let c: [char; 19] = ['n', 'o', ' ', 's', 'u', 'c', 'h', ' ', 'p', 'a', 'i', 'r', 'e', 'd', ' ', 'p', 'e', 'e', 'r'];
                    proof { assert(c@ =~= no_such_peer_msg()); }
                    Err(SendOutcome { name: String::new(), peer: name.to_owned(), ok: false, detail: string_from(c.as_slice()) })
                },
            }
        },
        None => {
            if connected.len() == 0 {
                let c: [char; 18] = ['n', 'o', ' ', 'c', 'o', 'n', 'n', 'e', 'c', 't', 'e', 'd', ' ', 'p', 'e', 'e', 'r', 's'];
                proof { assert(c@ =~= no_connected_msg()); }
                return Err(SendOutcome { name: String::new(), peer: String::new(), ok: false, detail: string_from(c.as_slice()) });
            }
            let mut v: Vec<String> = Vec::new();
            let mut i: usize = 0;
            while i < connected.len()
                invariant
                    i <= connected@.len(),
                    v@ == connected@.subrange(0, i as int),
                decreases connected@.len() - i,
            {
                v.push(connected[i].clone());
                proof { assert(v@ =~= connected@.subrange(0, i + 1)); }
                i += 1;
            }
            proof { assert(connected@.subrange(0, connected@.len() as int) =~= connected@); }
            Ok(v)
        },
    }
}

/// A friendly name for a device id: the registry's name for it, or the id.
pub open spec fn spec_label(ps: Option<Seq<crate::peers::Peer>>, device_id: Seq<char>) -> Seq<char> {
    if ps is Some && has_id(ps->0, device_id) {
        ps->0[choose|i: int| first_with_id(ps->0, device_id, i)].name@
    } else {
        device_id
    }
}

/// A friendly name for a device id: the registry's name for it, or the id.
pub fn peer_label(peers: Option<&Peers>, device_id: &str) -> (r: String)
    ensures r@ == spec_label(match peers { Some(p) => Some(p.peers@), None => None }, device_id@),
{
    match peers {
        Some(ps) => match ps.find_by_id(device_id) {
            Some(p) => {
                proof {
                    let i = choose|i: int| first_with_id(ps.peers@, device_id@, i) && *p == ps.peers@[i];
                    let c = choose|c: int| first_with_id(ps.peers@, device_id@, c);
                    assert(c == i) by {
                        if c < i { assert(ps.peers@[c].device_id@ == device_id@); }
                        if i < c { assert(ps.peers@[i].device_id@ == device_id@); }
                    }
                }
                p.name.clone()
            },
            None => device_id.to_owned(),
        },
        None => device_id.to_owned(),
    }
}

/// How waiting for the receiver's ack ended.
#[derive(Debug, Clone, PartialEq, Eq)]
pub enum AckWait {
    /// The receiver answered.
    Ack { ok: bool, detail: String },
    /// The waiter went away.
    Dropped,
    /// No answer within `ACK_TIMEOUT_SECS`.
    TimedOut,
}

/// `"peer rejected: "`.
pub open spec fn rejected_prefix() -> Seq<char> {
    seq!['p', 'e', 'e', 'r', ' ', 'r', 'e', 'j', 'e', 'c', 't', 'e', 'd', ':', ' ']
}

/// `"ack channel dropped"`.
pub open spec fn dropped_msg() -> Seq<char> {
    seq!['a', 'c', 'k', ' ', 'c', 'h', 'a', 'n', 'n', 'e', 'l', ' ', 'd', 'r', 'o', 'p', 'p', 'e', 'd']
}

/// `"timed out waiting for peer ack"`.
pub open spec fn ack_timeout_msg() -> Seq<char> {
    seq!['t', 'i', 'm', 'e', 'd', ' ', 'o', 'u', 't', ' ', 'w', 'a', 'i', 't', 'i', 'n', 'g', ' ', 'f', 'o', 'r', ' ',
        'p', 'e', 'e', 'r', ' ', 'a', 'c', 'k']
}

/// The result of a send from how the ack wait ended: the receiver's detail
/// when it accepted, otherwise an error text.
pub fn ack_outcome(w: AckWait) -> (r: Result<String, String>)
    ensures
        match w {
            AckWait::Ack { ok, detail } => if ok {
                r matches Ok(d) && d@ == detail@
            } else {
                r matches Err(e) && e@ == rejected_prefix() + detail@
            },
            AckWait::Dropped => r matches Err(e) && e@ == dropped_msg(),
            AckWait::TimedOut => r matches Err(e) && e@ == ack_timeout_msg(),
        },
{
    match w {
        AckWait::Ack { ok, detail } => {
            if ok {
                Ok(detail)
            } else {
                let p: [char; 15] = ['p', 'e', 'e', 'r', ' ', 'r', 'e', 'j', 'e', 'c', 't', 'e', 'd', ':', ' '];
                let mut c: Vec<char> = Vec::new();
                push_all(&mut c, p.as_slice());
                let d = chars_of(detail.as_str());
                push_all(&mut c, d.as_slice());
                proof { assert(c@ =~= rejected_prefix() + detail@); }
                Err(string_from(c.as_slice()))
            }
        },
        AckWait::Dropped => {
            let c: [char; 19] = ['a', 'c', 'k', ' ', 'c', 'h', 'a', 'n', 'n', 'e', 'l', ' ', 'd', 'r', 'o', 'p', 'p', 'e', 'd'];
            proof { assert(c@ =~= dropped_msg()); }
            Err(string_from(c.as_slice()))
        },
        AckWait::TimedOut => {
            let c: [char; 30] = ['t', 'i', 'm', 'e', 'd', ' ', 'o', 'u', 't', ' ', 'w', 'a', 'i', 't', 'i', 'n', 'g', ' ', 'f', 'o', 'r', ' ',
                'p', 'e', 'e', 'r', ' ', 'a', 'c', 'k'];
            proof { assert(c@ =~= ack_timeout_msg()); }
            Err(string_from(c.as_slice()))
        },
    }
}

/// After attempt number `attempt` (from 1) failed: try again only when
/// attempts remain and the peer is connected again.
pub fn retry_after(attempt: usize, reconnected: bool) -> (b: bool)
    ensures b == (reconnected && attempt < SEND_ATTEMPTS),
{
    reconnected && attempt < SEND_ATTEMPTS
}

/// `" (pending review)"`.
pub open spec fn pending_note() -> Seq<char> {
    seq![' ', '(', 'p', 'e', 'n', 'd', 'i', 'n', 'g', ' ', 'r', 'e', 'v', 'i', 'e', 'w', ')']
}

/// The desktop notice for a received file: `Received {name}` and
/// `From a peer → {where}`, the destination marked when it awaits review.
pub fn received_notice(name: &str, dest: &str, pending: bool) -> (r: (String, String))
    ensures
        r.0@ == seq!['R', 'e', 'c', 'e', 'i', 'v', 'e', 'd', ' '] + name@,
        r.1@ == seq!['F', 'r', 'o', 'm', ' ', 'a', ' ', 'p', 'e', 'e', 'r', ' ', '\u{2192}', ' '] + dest@
            + (if pending { pending_note() } else { Seq::empty() }),
{
    let t: [char; 9] = ['R', 'e', 'c', 'e', 'i', 'v', 'e', 'd', ' '];
    let mut title: Vec<char> = Vec::new();
    push_all(&mut title, t.as_slice());
    push_all(&mut title, chars_of(name).as_slice());
    let b: [char; 14] = ['F', 'r', 'o', 'm', ' ', 'a', ' ', 'p', 'e', 'e', 'r', ' ', '\u{2192}', ' '];
    let mut body: Vec<char> = Vec::new();
    push_all(&mut body, b.as_slice());
    push_all(&mut body, chars_of(dest).as_slice());
    if pending {
        let n: [char; 17] = [' ', '(', 'p', 'e', 'n', 'd', 'i', 'n', 'g', ' ', 'r', 'e', 'v', 'i', 'e', 'w', ')'];
        push_all(&mut body, n.as_slice());
    }
    proof {
        assert(title@ =~= seq!['R', 'e', 'c', 'e', 'i', 'v', 'e', 'd', ' '] + name@);
        assert(body@ =~= seq!['F', 'r', 'o', 'm', ' ', 'a', ' ', 'p', 'e', 'e', 'r', ' ', '\u{2192}', ' '] + dest@
            + (if pending { pending_note() } else { Seq::empty() }));
    }
    (string_from(title.as_slice()), string_from(body.as_slice()))
}


/// Transfer `(peer, id)` is in progress in `r` with this much announced and
/// exactly `got` hashed.
pub open spec fn in_progress(r: Receiver, peer: Seq<char>, id: u64, declared: u64, got: Seq<u8>) -> bool {
    exists|i: int| #[trigger] holds_transfer(r.incoming@, i, peer, id)
        && r.incoming@[i].declared == declared && digester_input(r.incoming@[i].digest) == got
}

/// After registering and `k` chunks, the transfer has hashed the first `k`
/// chunks, in order.
proof fn lemma_fed(
    r0: Receiver, peer: Seq<char>, id: u64, plan: StartPlan, declared: u64,
    states: Seq<Receiver>, chunks: Seq<Seq<u8>>, known: Seq<bool>, k: int,
)
    requires
        states.len() == chunks.len() + 1,
        known.len() == chunks.len(),
        registered(r0, peer, id, plan, declared, states[0]),
        forall|j: int| 0 <= j < chunks.len() ==> #[trigger] chunked(states[j], peer, id, chunks[j], states[j + 1], known[j]),
        0 <= k <= chunks.len(),
    ensures
        states[k].inv(),
        in_progress(states[k], peer, id, declared, chunks.take(k).flatten()),
        forall|j: int| 0 <= j < k ==> known[j],
    decreases k,
{
    if k == 0 {
        let i = choose|i: int| holds_transfer(states[0].incoming@, i, peer, id);
        assert(chunks.take(0) =~= Seq::<Seq<u8>>::empty());
        assert(digester_input(states[0].incoming@[i].digest) =~= chunks.take(0).flatten());
        assert(holds_transfer(states[0].incoming@, i, peer, id));
    } else {
        lemma_fed(r0, peer, id, plan, declared, states, chunks, known, k - 1);
        let j = k - 1;
        let pre = states[j];
        let post = states[j + 1];
        assert(chunked(states[j], peer, id, chunks[j], states[j + 1], known[j]));
        assert(post == states[k]);
        let i = choose|i: int| #[trigger] holds_transfer(pre.incoming@, i, peer, id)
            && pre.incoming@[i].declared == declared
            && digester_input(pre.incoming@[i].digest) == chunks.take(k - 1).flatten();
        assert(pre.incoming@[i] == pre.incoming@[i]);
        assert(post.incoming@[i].peer@ == peer);
        assert(holds_transfer(post.incoming@, i, peer, id));
        assert(chunks.take(k) =~= chunks.take(k - 1).push(chunks[k - 1]));
        chunks.take(k - 1).lemma_flatten_push(chunks[k - 1]);
        assert(digester_input(post.incoming@[i].digest) =~= chunks.take(k).flatten());
    }
}

/// A transfer is accepted exactly when the digest its sender announced is
/// that of the bytes of its chunks, in order, and, when a size was
/// announced, that many bytes came: a file is only kept when what arrived
/// is what was sent. Every chunk of it is taken, and its end always gets a
/// verdict.
pub proof fn lemma_transfer_verdict(
    r0: Receiver, peer: Seq<char>, id: u64, plan: StartPlan, declared: u64,
    states: Seq<Receiver>, chunks: Seq<Seq<u8>>, known: Seq<bool>, sha: [u8; 32], r_end: Receiver, v: EndVerdict,
)
    requires
        states.len() == chunks.len() + 1,
        known.len() == chunks.len(),
        registered(r0, peer, id, plan, declared, states[0]),
        forall|j: int| 0 <= j < chunks.len() ==> #[trigger] chunked(states[j], peer, id, chunks[j], states[j + 1], known[j]),
        ended(states[chunks.len() as int], peer, id, sha, r_end, v),
    ensures
        forall|j: int| 0 <= j < chunks.len() ==> known[j],
        !(v is Unknown),
        v is Accept <==> (sha256_digest(chunks.flatten()) == sha@
            && (declared == 0 || counted(chunks.flatten().len() as int) == declared)),
{
    let n = chunks.len() as int;
    lemma_fed(r0, peer, id, plan, declared, states, chunks, known, n);
    assert(chunks.take(n) =~= chunks);
    let last = states[n];
    let i = choose|i: int| #[trigger] holds_transfer(last.incoming@, i, peer, id)
        && last.incoming@[i].declared == declared
        && digester_input(last.incoming@[i].digest) == chunks.take(n).flatten();
    assert(holds_transfer(last.incoming@, i, peer, id));
    assert(last.incoming@[i].written == counted(digester_input(last.incoming@[i].digest).len() as int));
}

} // verus!
