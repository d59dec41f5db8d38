//! Pushing a URL to a peer's default browser. The scheme allowlist is
//! enforced on both the sending and the receiving side; a link from a peer
//! that needs confirmation is held and only announced.

use vstd::prelude::*;
use crate::config::{spec_needs_confirm, needs_confirm, ConfirmPolicy};
use crate::filexfer::{peer_label, spec_label, spec_resolve, resolve_peer};
use crate::peers::{first_with_id, has_id, Peers};
use crate::proto::{is_allowed_url, url_allowed};
use crate::text::{chars_of, string_from};

verus! {

/// The permitted URL schemes, as listed in refusals.
pub const URL_SCHEMES_TEXT: &'static str = "http, https, mailto";

/// Whether the registry marks `peer_id` as authorized (the first entry
/// with that id).
pub open spec fn spec_authorized(ps: Option<Seq<crate::peers::Peer>>, peer_id: Seq<char>) -> bool {
    ps is Some && has_id(ps->0, peer_id)
        && ps->0[choose|i: int| first_with_id(ps->0, peer_id, i)].authorized
}

/// Whether the registry marks `peer_id` as authorized.
pub fn peer_authorized(peers: Option<&Peers>, peer_id: &str) -> (b: bool)
    ensures b == spec_authorized(match peers { Some(p) => Some(p.peers@), None => None }, peer_id@),
{
    match peers {
        Some(ps) => match ps.find_by_id(peer_id) {
            Some(p) => {
                proof {
                    let i = choose|i: int| first_with_id(ps.peers@, peer_id@, i) && *p == ps.peers@[i];
                    let c = choose|c: int| first_with_id(ps.peers@, peer_id@, c);
                    assert(c == i) by {
                        if c < i { assert(ps.peers@[c].device_id@ == peer_id@); }
                        if i < c { assert(ps.peers@[i].device_id@ == peer_id@); }
                    }
                }
                p.authorized
            },
            None => false,
        },
        None => false,
    }
}

/// What to do with a link a peer pushed.
#[derive(Debug, Clone, PartialEq, Eq)]
pub enum InboundLink {
    /// The scheme is not allowed: drop it.
    Refuse,
    /// The peer needs confirmation: only announce it.
    Hold { title: String, body: String },
    /// Open it (then announce it with `title` and `body`).
    Open { title: String, body: String },
}

/// Append the characters of `b` to `a`.
fn push_all(a: &mut Vec<char>, b: &[char])
    ensures final(a)@ == old(a)@ + b@,
{
    let ghost a0 = a@;
    let mut i: usize = 0;
    while i < b.len()
        invariant
            i <= b@.len(),
            a@ == a0 + b@.subrange(0, i as int),
        decreases b@.len() - i,
    {
        a.push(b[i]);
        proof { assert(b@.subrange(0, i + 1) =~= b@.subrange(0, i as int).push(b@[i as int])); }
        i += 1;
    }
    proof { assert(b@.subrange(0, b@.len() as int) =~= b@); }
}

/// A link from `peer_id`: refused unless its scheme is allowed; held
/// (announced as `{label} wants to open: {url}`) when the peer needs
/// confirmation; otherwise opened (announced as `From {label}: {url}`).
pub fn handle_inbound(peer_id: &str, url: &str, confirm: ConfirmPolicy, peers: Option<&Peers>) -> (r: InboundLink)
    ensures
        !url_allowed(url@) ==> r is Refuse,
        url_allowed(url@) ==> {
            let pv = match peers { Some(p) => Some(p.peers@), None => None };
            if spec_needs_confirm(confirm, spec_authorized(pv, peer_id@)) {
                r matches InboundLink::Hold { title, body }
                    && title@ == seq!['L', 'i', 'n', 'k', ' ', 'f', 'r', 'o', 'm', ' ', 'a', ' ', 'd', 'e', 'v', 'i', 'c', 'e']
                    && body@ == spec_label(pv, peer_id@) + seq![' ', 'w', 'a', 'n', 't', 's', ' ', 't', 'o', ' ', 'o', 'p', 'e', 'n', ':', ' '] + url@
            } else {
                r matches InboundLink::Open { title, body }
                    && title@ == seq!['O', 'p', 'e', 'n', 'e', 'd', ' ', 'a', ' ', 'l', 'i', 'n', 'k']
                    && body@ == seq!['F', 'r', 'o', 'm', ' '] + spec_label(pv, peer_id@) + seq![':', ' '] + url@
            }
        },
{
    if !is_allowed_url(url) {
        return InboundLink::Refuse;
    }
    let label = peer_label(peers, peer_id);
    let lv = chars_of(label.as_str());
    let uv = chars_of(url);
    if needs_confirm(confirm, peer_authorized(peers, peer_id)) {
        let t: [char; 18] = ['L', 'i', 'n', 'k', ' ', 'f', 'r', 'o', 'm', ' ', 'a', ' ', 'd', 'e', 'v', 'i', 'c', 'e'];
        let mid: [char; 16] = [' ', 'w', 'a', 'n', 't', 's', ' ', 't', 'o', ' ', 'o', 'p', 'e', 'n', ':', ' '];
        let mut b: Vec<char> = Vec::new();
        push_all(&mut b, lv.as_slice());
        push_all(&mut b, mid.as_slice());
        push_all(&mut b, uv.as_slice());
        proof {
            assert(t@ =~= seq!['L', 'i', 'n', 'k', ' ', 'f', 'r', 'o', 'm', ' ', 'a', ' ', 'd', 'e', 'v', 'i', 'c', 'e']);
            assert(b@ =~= lv@ + seq![' ', 'w', 'a', 'n', 't', 's', ' ', 't', 'o', ' ', 'o', 'p', 'e', 'n', ':', ' '] + url@);
        }
        InboundLink::Hold { title: string_from(t.as_slice()), body: string_from(b.as_slice()) }
    } else {
        let t: [char; 13] = ['O', 'p', 'e', 'n', 'e', 'd', ' ', 'a', ' ', 'l', 'i', 'n', 'k'];
        let pre: [char; 5] = ['F', 'r', 'o', 'm', ' '];
        let mid: [char; 2] = [':', ' '];
        let mut b: Vec<char> = Vec::new();
        push_all(&mut b, pre.as_slice());
        push_all(&mut b, lv.as_slice());
        push_all(&mut b, mid.as_slice());
        push_all(&mut b, uv.as_slice());
        proof {
            assert(t@ =~= seq!['O', 'p', 'e', 'n', 'e', 'd', ' ', 'a', ' ', 'l', 'i', 'n', 'k']);
            assert(b@ =~= seq!['F', 'r', 'o', 'm', ' '] + lv@ + seq![':', ' '] + url@);
        }
        InboundLink::Open { title: string_from(t.as_slice()), body: string_from(b.as_slice()) }
    }
}

/// `"URL scheme not allowed (permitted: http, https, mailto)"`.
pub open spec fn scheme_refusal() -> Seq<char> {
    seq!['U', 'R', 'L', ' ', 's', 'c', 'h', 'e', 'm', 'e', ' ', 'n', 'o', 't', ' ', 'a', 'l', 'l', 'o', 'w', 'e', 'd', ' ',
        '(', 'p', 'e', 'r', 'm', 'i', 't', 't', 'e', 'd', ':', ' '] + URL_SCHEMES_TEXT@ + seq![')']
}

/// The peers a link goes to: a named peer that is connected under that id,
/// else the name (or id) resolved against the registry; without a name,
/// every connected peer. A link whose scheme is not allowed goes nowhere.
pub fn dispatch_targets(url: &str, to: Option<&str>, to_is_connected: bool, connected: &Vec<String>, peers: Option<&Peers>)
    -> (r: Result<Vec<String>, String>)
    ensures
        !url_allowed(url@) ==> (r matches Err(e) && e@ == scheme_refusal()),
        url_allowed(url@) ==> match to {
            Some(name) => if to_is_connected {
                r matches Ok(v) && v@.len() == 1 && v@[0]@ == name@
            } else {
                match (match peers { Some(p) => spec_resolve(p.peers@, name@), None => None }) {
                    Some(id) => r matches Ok(v) && v@.len() == 1 && v@[0]@ == id,
                    None => r matches Err(e) && e@ == seq!['n', 'o', ' ', 's', 'u', 'c', 'h', ' ', 'p', 'a', 'i', 'r', 'e', 'd', ' ',
                        'p', 'e', 'e', 'r', ':', ' '] + name@,
                }
            },
            None => if connected@.len() == 0 {
                r matches Err(e) && e@ == seq!['n', 'o', ' ', 'c', 'o', 'n', 'n', 'e', 'c', 't', 'e', 'd', ' ', 'p', 'e', 'e', 'r', 's']
            } else {
                r matches Ok(v) && v@ == connected@
            },
        },
{
    if !is_allowed_url(url) {
        let p: [char; 35] = ['U', 'R', 'L', ' ', 's', 'c', 'h', 'e', 'm', 'e', ' ', 'n', 'o', 't', ' ', 'a', 'l', 'l', 'o', 'w', 'e', 'd', ' ',
            '(', 'p', 'e', 'r', 'm', 'i', 't', 't', 'e', 'd', ':', ' '];
        let mut m: Vec<char> = Vec::new();
        push_all(&mut m, p.as_slice());
        push_all(&mut m, chars_of(URL_SCHEMES_TEXT).as_slice());
        m.push(')');
        proof { assert(m@ =~= scheme_refusal()); }
        return Err(string_from(m.as_slice()));
    }
    match to {
        Some(name) => {
            if to_is_connected {
                let mut v: Vec<String> = Vec::new();
                v.push(name.to_owned());
                return Ok(v);
            }
            let resolved = match peers {
                Some(p) => resolve_peer(p, name),
                None => None,
            };
            match resolved {
                Some(id) => {
                    let mut v: Vec<String> = Vec::new();
                    v.push(id);
                    Ok(v)
                },
                None => {
                    let p: [char; 21] = ['n', 'o', ' ', 's', 'u', 'c', 'h', ' ', 'p', 'a', 'i', 'r', 'e', 'd', ' ', 'p', 'e', 'e', 'r', ':', ' '];
                    let mut m: Vec<char> = Vec::new();
                    push_all(&mut m, p.as_slice());
                    push_all(&mut m, chars_of(name).as_slice());
                    proof {
                        assert(m@ =~= seq!['n', 'o', ' ', 's', 'u', 'c', 'h', ' ', 'p', 'a', 'i', 'r', 'e', 'd', ' ',
                            'p', 'e', 'e', 'r', ':', ' '] + name@);
                    }
                    Err(string_from(m.as_slice()))
                },
            }
        },
        None => {
            if connected.len() == 0 {
                let c: [char; 18] = ['n', 'o', ' ', 'c', 'o', 'n', 'n', 'e', 'c', 't', 'e', 'd', ' ', 'p', 'e', 'e', 'r', 's'];
                proof { assert(c@ =~= seq!['n', 'o', ' ', 'c', 'o', 'n', 'n', 'e', 'c', 't', 'e', 'd', ' ', 'p', 'e', 'e', 'r', 's']); }
                return Err(string_from(c.as_slice()));
            }
            let mut v: Vec<String> = Vec::new();
            let mut i: usize = 0;
            while i < connected.len()
                invariant
                    i <= connected@.len(),
                    v@ == connected@.subrange(0, i as int),
                decreases connected@.len() - i,
            {
                v.push(connected[i].clone());
                proof { assert(v@ =~= connected@.subrange(0, i + 1)); }
                i += 1;
            }
            proof { assert(connected@.subrange(0, connected@.len() as int) =~= connected@); }
            Ok(v)
        },
    }
}

/// A peer counts as authorized exactly as its first registry entry says:
/// when entry `i` is the first with that device id, the peer is authorized
/// if and only if that entry is marked authorized; a peer with no entry,
/// or with no registry at all, is not.
pub proof fn lemma_authorized_by_first_entry(ps: Seq<crate::peers::Peer>, id: Seq<char>, i: int)
    requires
        0 <= i < ps.len(),
        ps[i].device_id@ == id,
        forall|j: int| 0 <= j < i ==> ps[j].device_id@ != id,
    ensures
        spec_authorized(Some(ps), id) == ps[i].authorized,
{
    assert(first_with_id(ps, id, i));
    let c = choose|c: int| first_with_id(ps, id, c);
    assert(c == i) by {
        if c < i { assert(ps[c].device_id@ == id); }
        if i < c { assert(ps[i].device_id@ == id); }
    }
}

/// No entry, no registry: not authorized.
pub proof fn lemma_unlisted_not_authorized(ps: Seq<crate::peers::Peer>, id: Seq<char>)
    requires
        forall|j: int| 0 <= j < ps.len() ==> ps[j].device_id@ != id,
    ensures
        !spec_authorized(Some(ps), id),
        !spec_authorized(None, id),
{
}

/// A link from an authorized peer is opened at once under the `On`
/// confirmation policy; one from a peer that is not authorized is held.
pub proof fn lemma_authorized_links_skip_the_gate(ps: Option<Seq<crate::peers::Peer>>, id: Seq<char>)
    ensures
        spec_needs_confirm(ConfirmPolicy::On, spec_authorized(ps, id)) == !spec_authorized(ps, id),
{
}

} // verus!
