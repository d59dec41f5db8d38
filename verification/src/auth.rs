//! Pre-authorizing a paired peer as an unattended sender.
//!
//! The pinned Ed25519 key stays the security boundary. The exchange only
//! records a human-readable label (hostname and MAC addresses) and an
//! `authorized` flag in the registry, so that transfers and links from that
//! peer stop waiting for confirmation. A silent re-check on reconnect
//! refreshes the label and warns when the peer's MACs no longer overlap
//! what was recorded; it never revokes.

use vstd::prelude::*;
use crate::peers::{first_named, first_with_id, has_id, has_name, Peer, Peers};
use crate::proto::{DeviceInfo, Message};
use crate::sysinfo::{macs_still_match, spec_macs_match};
use crate::text::{chars_of, string_from};

verus! {

/// How long to wait for a peer's reply, in seconds.
pub const REPLY_TIMEOUT_SECS: u64 = 10;

/// How waiting for a peer's `AuthReply` ended.
#[derive(Debug, Clone, PartialEq, Eq)]
pub enum ReplyWait {
    Reply(DeviceInfo),
    /// The waiter went away.
    Closed,
    /// No reply within `REPLY_TIMEOUT_SECS`.
    TimedOut,
}

/// What to do with an inbound `AuthRequest`.
#[derive(Debug)]
pub struct RequestHandling {
    /// Always answered with this device's details.
    pub reply: Message,
    /// For a mutual request: the requester's details, to record as
    /// authorized.
    pub record: Option<DeviceInfo>,
}

/// Append the characters of `b` to `a`.
fn push_all(a: &mut Vec<char>, b: &[char])
    ensures final(a)@ == old(a)@ + b@,
{
    let ghost a0 = a@;
    let mut i: usize = 0;
    while i < b.len()
        invariant
            i <= b@.len(),
            a@ == a0 + b@.subrange(0, i as int),
        decreases b@.len() - i,
    {
        a.push(b[i]);
        proof { assert(b@.subrange(0, i + 1) =~= b@.subrange(0, i as int).push(b@[i as int])); }
        i += 1;
    }
    proof { assert(b@.subrange(0, b@.len() as int) =~= b@); }
}

/// An `AuthRequest` is always answered with this device's details; a
/// mutual one also asks that the requester be recorded as authorized.
pub fn on_request(mutual: bool, info: DeviceInfo, local: DeviceInfo) -> (r: RequestHandling)
    ensures
        r.reply matches Message::AuthReply { ok, info: i } && ok && i == local,
        mutual ==> r.record == Some(info),
        !mutual ==> r.record is None,
{
    RequestHandling {
        reply: Message::AuthReply { ok: true, info: local },
        record: if mutual { Some(info) } else { None },
    }
}

/// `"peer not found in peers.toml (is it paired?)"`.
pub open spec fn not_paired_msg() -> Seq<char> {
    seq!['p', 'e', 'e', 'r', ' ', 'n', 'o', 't', ' ', 'f', 'o', 'u', 'n', 'd', ' ', 'i', 'n', ' ',
        'p', 'e', 'e', 'r', 's', '.', 't', 'o', 'm', 'l', ' ', '(', 'i', 's', ' ', 'i', 't', ' ', 'p', 'a', 'i', 'r', 'e', 'd', '?', ')']
}

/// Record `authorized` and the peer's label (hostname and MACs) on its
/// registry entry. The entry is found by device id, or failing that by name.
pub fn record(peers: &mut Peers, device_id: &str, info: &DeviceInfo, authorized: bool) -> (r: Result<(), String>)
    ensures
        r is Ok == (has_id(old(peers).peers@, device_id@) || has_name(old(peers).peers@, device_id@)),
        r matches Err(e) ==> e@ == not_paired_msg() && final(peers).peers@ == old(peers).peers@,
        r is Ok ==> exists|i: int| (first_with_id(old(peers).peers@, device_id@, i)
                || (!has_id(old(peers).peers@, device_id@) && first_named(old(peers).peers@, device_id@, i)))
            && final(peers).peers@.len() == old(peers).peers@.len()
            && (forall|j: int| 0 <= j < old(peers).peers@.len() && j != i ==> #[trigger] final(peers).peers@[j] == old(peers).peers@[j])
            && ({
                let a = old(peers).peers@[i];
                let b = final(peers).peers@[i];
                &&& b.authorized == authorized
                &&& b.hostname == Some(info.hostname)
                &&& b.macs@ == info.macs@
                &&& b.name == a.name && b.device_id == a.device_id && b.public_key == a.public_key
                &&& b.last_seen == a.last_seen && b.address == a.address
            }),
{
    let mut macs: Vec<String> = Vec::new();
    let mut k: usize = 0;
    while k < info.macs.len()
        invariant
            k <= info.macs@.len(),
            macs@ == info.macs@.subrange(0, k as int),
        decreases info.macs@.len() - k,
    {
        macs.push(info.macs[k].clone());
        proof { assert(macs@ =~= info.macs@.subrange(0, k + 1)); }
        k += 1;
    }
    proof { assert(macs@ =~= info.macs@); }
    let found = peers.set_authorization(device_id, authorized, info.hostname.clone(), macs);
    if found {
        Ok(())
    } else {
        let c: [char; 44] = ['p', 'e', 'e', 'r', ' ', 'n', 'o', 't', ' ', 'f', 'o', 'u', 'n', 'd', ' ', 'i', 'n', ' ',
            'p', 'e', 'e', 'r', 's', '.', 't', 'o', 'm', 'l', ' ', '(', 'i', 's', ' ', 'i', 't', ' ', 'p', 'a', 'i', 'r', 'e', 'd', '?', ')'];
        proof { assert(c@ =~= not_paired_msg()); }
        Err(string_from(c.as_slice()))
    }
}

/// `"peer is not connected"`.
pub open spec fn not_connected_msg() -> Seq<char> {
    seq!['p', 'e', 'e', 'r', ' ', 'i', 's', ' ', 'n', 'o', 't', ' ', 'c', 'o', 'n', 'n', 'e', 'c', 't', 'e', 'd']
}

/// `"peer is not connected — start both daemons and try again"`.
pub open spec fn start_daemons_msg() -> Seq<char> {
    not_connected_msg() + seq![' ', '\u{2014}', ' ', 's', 't', 'a', 'r', 't', ' ', 'b', 'o', 't', 'h', ' ', 'd', 'a', 'e', 'm', 'o', 'n', 's', ' ',
        'a', 'n', 'd', ' ', 't', 'r', 'y', ' ', 'a', 'g', 'a', 'i', 'n']
}

/// `"authorization channel closed"`.
pub open spec fn channel_closed_msg() -> Seq<char> {
    seq!['a', 'u', 't', 'h', 'o', 'r', 'i', 'z', 'a', 't', 'i', 'o', 'n', ' ', 'c', 'h', 'a', 'n', 'n', 'e', 'l', ' ', 'c', 'l', 'o', 's', 'e', 'd']
}

/// `"peer did not reply (it may be running an older qdrop)"`.
pub open spec fn no_reply_msg() -> Seq<char> {
    seq!['p', 'e', 'e', 'r', ' ', 'd', 'i', 'd', ' ', 'n', 'o', 't', ' ', 'r', 'e', 'p', 'l', 'y', ' ', '(', 'i', 't', ' ', 'm', 'a', 'y', ' ',
        'b', 'e', ' ', 'r', 'u', 'n', 'n', 'i', 'n', 'g', ' ', 'a', 'n', ' ', 'o', 'l', 'd', 'e', 'r', ' ', 'q', 'd', 'r', 'o', 'p', ')']
}

/// Authorizing needs the peer connected.
pub fn check_connected(connected: bool) -> (r: Result<(), String>)
    ensures
        connected ==> r is Ok,
        !connected ==> (r matches Err(e) && e@ == start_daemons_msg()),
{
    if connected {
        return Ok(());
    }
    let a: [char; 21] = ['p', 'e', 'e', 'r', ' ', 'i', 's', ' ', 'n', 'o', 't', ' ', 'c', 'o', 'n', 'n', 'e', 'c', 't', 'e', 'd'];
    let b: [char; 35] = [' ', '\u{2014}', ' ', 's', 't', 'a', 'r', 't', ' ', 'b', 'o', 't', 'h', ' ', 'd', 'a', 'e', 'm', 'o', 'n', 's', ' ',
        'a', 'n', 'd', ' ', 't', 'r', 'y', ' ', 'a', 'g', 'a', 'i', 'n'];
    let mut m: Vec<char> = Vec::new();
    push_all(&mut m, a.as_slice());
    push_all(&mut m, b.as_slice());
    proof { assert(m@ =~= start_daemons_msg()); }
    Err(string_from(m.as_slice()))
}

/// The result of an exchange: the peer's details when the request was
/// queued and answered; otherwise why not.
pub fn exchange_outcome(queued: bool, wait: ReplyWait) -> (r: Result<DeviceInfo, String>)
    ensures
        !queued ==> (r matches Err(e) && e@ == not_connected_msg()),
        queued ==> match wait {
            ReplyWait::Reply(i) => r == Ok::<DeviceInfo, String>(i),
            ReplyWait::Closed => r matches Err(e) && e@ == channel_closed_msg(),
            ReplyWait::TimedOut => r matches Err(e) && e@ == no_reply_msg(),
        },
{
    if !queued {
        let a: [char; 21] = ['p', 'e', 'e', 'r', ' ', 'i', 's', ' ', 'n', 'o', 't', ' ', 'c', 'o', 'n', 'n', 'e', 'c', 't', 'e', 'd'];
        proof { assert(a@ =~= not_connected_msg()); }
        return Err(string_from(a.as_slice()));
    }
    match wait {
        ReplyWait::Reply(i) => Ok(i),
        ReplyWait::Closed => {
            let a: [char; 28] = ['a', 'u', 't', 'h', 'o', 'r', 'i', 'z', 'a', 't', 'i', 'o', 'n', ' ', 'c', 'h', 'a', 'n', 'n', 'e', 'l', ' ', 'c', 'l', 'o', 's', 'e', 'd'];
            proof { assert(a@ =~= channel_closed_msg()); }
            Err(string_from(a.as_slice()))
        },
        ReplyWait::TimedOut => {
            let a: [char; 53] = ['p', 'e', 'e', 'r', ' ', 'd', 'i', 'd', ' ', 'n', 'o', 't', ' ', 'r', 'e', 'p', 'l', 'y', ' ', '(', 'i', 't', ' ', 'm', 'a', 'y', ' ',
                'b', 'e', ' ', 'r', 'u', 'n', 'n', 'i', 'n', 'g', ' ', 'a', 'n', ' ', 'o', 'l', 'd', 'e', 'r', ' ', 'q', 'd', 'r', 'o', 'p', ')'];
            proof { assert(a@ =~= no_reply_msg()); }
            Err(string_from(a.as_slice()))
        },
    }
}

/// The MACs recorded for `peer_id` when it is an authorized peer (the
/// first entry with that id); nothing to re-check otherwise.
pub fn recorded_macs(peers: &Peers, peer_id: &str) -> (r: Option<Vec<String>>)
    ensures
        match r {
            Some(m) => exists|i: int| first_with_id(peers.peers@, peer_id@, i)
                && peers.peers@[i].authorized && m@ == peers.peers@[i].macs@,
            None => !has_id(peers.peers@, peer_id@) || (exists|i: int| first_with_id(peers.peers@, peer_id@, i)
                && !peers.peers@[i].authorized),
        },
{
    match peers.find_by_id(peer_id) {
        Some(p) => {
            if p.authorized {
                let mut m: Vec<String> = Vec::new();
                let mut k: usize = 0;
                while k < p.macs.len()
                    invariant
                        k <= p.macs@.len(),
                        m@ == p.macs@.subrange(0, k as int),
                    decreases p.macs@.len() - k,
                {
                    m.push(p.macs[k].clone());
                    proof { assert(m@ =~= p.macs@.subrange(0, k + 1)); }
                    k += 1;
                }
                proof { assert(m@ =~= p.macs@); }
                Some(m)
            } else {
                None
            }
        },
        None => None,
    }
}

/// After a re-check: a warning notice when the peer's MACs no longer
/// overlap the recorded ones (`{hostname} — still trusted (its key is
/// pinned)`); it stays trusted either way.
pub fn recheck_notice(recorded: &Vec<String>, info: &DeviceInfo) -> (r: Option<(String, String)>)
    ensures
        spec_macs_match(recorded@, info.macs@) ==> r is None,
        !spec_macs_match(recorded@, info.macs@) ==> (r matches Some((t, b))
            && t@ == seq!['A', 'u', 't', 'h', 'o', 'r', 'i', 'z', 'e', 'd', ' ', 'd', 'e', 'v', 'i', 'c', 'e', ' ',
                'o', 'n', ' ', 'a', ' ', 'n', 'e', 'w', ' ', 'n', 'e', 't', 'w', 'o', 'r', 'k']
            && b@ == info.hostname@ + seq![' ', '\u{2014}', ' ', 's', 't', 'i', 'l', 'l', ' ', 't', 'r', 'u', 's', 't', 'e', 'd', ' ',
                '(', 'i', 't', 's', ' ', 'k', 'e', 'y', ' ', 'i', 's', ' ', 'p', 'i', 'n', 'n', 'e', 'd', ')']),
{
    if macs_still_match(recorded, &info.macs) {
        return None;
    }
    let t: [char; 34] = ['A', 'u', 't', 'h', 'o', 'r', 'i', 'z', 'e', 'd', ' ', 'd', 'e', 'v', 'i', 'c', 'e', ' ',
        'o', 'n', ' ', 'a', ' ', 'n', 'e', 'w', ' ', 'n', 'e', 't', 'w', 'o', 'r', 'k'];
    let s: [char; 36] = [' ', '\u{2014}', ' ', 's', 't', 'i', 'l', 'l', ' ', 't', 'r', 'u', 's', 't', 'e', 'd', ' ',
        '(', 'i', 't', 's', ' ', 'k', 'e', 'y', ' ', 'i', 's', ' ', 'p', 'i', 'n', 'n', 'e', 'd', ')'];
    let mut b: Vec<char> = Vec::new();
    push_all(&mut b, chars_of(info.hostname.as_str()).as_slice());
    push_all(&mut b, s.as_slice());
    proof {
        assert(t@ =~= seq!['A', 'u', 't', 'h', 'o', 'r', 'i', 'z', 'e', 'd', ' ', 'd', 'e', 'v', 'i', 'c', 'e', ' ',
            'o', 'n', ' ', 'a', ' ', 'n', 'e', 'w', ' ', 'n', 'e', 't', 'w', 'o', 'r', 'k']);
        assert(b@ =~= info.hostname@ + seq![' ', '\u{2014}', ' ', 's', 't', 'i', 'l', 'l', ' ', 't', 'r', 'u', 's', 't', 'e', 'd', ' ',
            '(', 'i', 't', 's', ' ', 'k', 'e', 'y', ' ', 'i', 's', ' ', 'p', 'i', 'n', 'n', 'e', 'd', ')']);
    }
    Some((string_from(t.as_slice()), string_from(b.as_slice())))
}

/// The notice shown after authorizing a peer mutually:
/// `{hostname} can now send here unattended`.
pub fn authorized_notice(info: &DeviceInfo) -> (r: (String, String))
    ensures
        r.0@ == seq!['D', 'e', 'v', 'i', 'c', 'e', ' ', 'a', 'u', 't', 'h', 'o', 'r', 'i', 'z', 'e', 'd'],
        r.1@ == info.hostname@ + seq![' ', 'c', 'a', 'n', ' ', 'n', 'o', 'w', ' ', 's', 'e', 'n', 'd', ' ', 'h', 'e', 'r', 'e', ' ',
            'u', 'n', 'a', 't', 't', 'e', 'n', 'd', 'e', 'd'],
{
    let t: [char; 17] = ['D', 'e', 'v', 'i', 'c', 'e', ' ', 'a', 'u', 't', 'h', 'o', 'r', 'i', 'z', 'e', 'd'];
    let s: [char; 29] = [' ', 'c', 'a', 'n', ' ', 'n', 'o', 'w', ' ', 's', 'e', 'n', 'd', ' ', 'h', 'e', 'r', 'e', ' ',
        'u', 'n', 'a', 't', 't', 'e', 'n', 'd', 'e', 'd'];
    let mut b: Vec<char> = Vec::new();
    push_all(&mut b, chars_of(info.hostname.as_str()).as_slice());
    push_all(&mut b, s.as_slice());
    proof {
        assert(t@ =~= seq!['D', 'e', 'v', 'i', 'c', 'e', ' ', 'a', 'u', 't', 'h', 'o', 'r', 'i', 'z', 'e', 'd']);
        assert(b@ =~= info.hostname@ + seq![' ', 'c', 'a', 'n', ' ', 'n', 'o', 'w', ' ', 's', 'e', 'n', 'd', ' ', 'h', 'e', 'r', 'e', ' ',
            'u', 'n', 'a', 't', 't', 'e', 'n', 'd', 'e', 'd']);
    }
    (string_from(t.as_slice()), string_from(b.as_slice()))
}

} // verus!
