//! What mDNS discovery reports to the connection manager, and how a
//! resolved service record becomes a peer.
//!
//! Each device registers one instance of `_qdrop._tcp.local.` named by its
//! device id, with TXT keys `id`, `name` and `fp`, and browses for the
//! others, filtering itself out.

use vstd::prelude::*;
use crate::strmap::str_eq;
use crate::text::{chars_of, string_from};

verus! {

/// mDNS service type used for steady-state discovery.
pub const SERVICE_TYPE: &'static str = "_qdrop._tcp.local.";

/// mDNS service type advertised only while pairing runs.
pub const PAIR_SERVICE_TYPE: &'static str = "_qdrop-pair._tcp.local.";

/// A peer found on the network. Addresses are `ip:port` texts.
#[derive(Debug, Clone, PartialEq, Eq)]
pub struct DiscoveredPeer {
    pub device_id: String,
    pub device_name: String,
    pub fingerprint: String,
    pub addrs: Vec<String>,
}

/// Discovery-layer events fed to the connection manager.
#[derive(Debug, Clone, PartialEq, Eq)]
pub enum DiscoveryEvent {
    /// A peer appeared or its address set changed.
    Found(DiscoveredPeer),
    /// A peer's service record went away.
    Lost { device_id: String },
}

/// `.` followed by a service type: the suffix of its instance fullnames.
pub open spec fn dot_suffix(service: Seq<char>) -> Seq<char> {
    seq!['.'] + service
}

/// The instance label of a fullname of `service`, or `None` for a
/// fullname of another service.
pub open spec fn spec_instance_in(fullname: Seq<char>, service: Seq<char>) -> Option<Seq<char>> {
    let suf = dot_suffix(service);
    if fullname.len() >= suf.len() && fullname.subrange(fullname.len() - suf.len(), fullname.len() as int) == suf {
        Some(fullname.subrange(0, fullname.len() - suf.len()))
    } else {
        None
    }
}

/// The instance label of a steady-state service fullname such as
/// `deadbeef._qdrop._tcp.local.`.
pub open spec fn spec_instance_of(fullname: Seq<char>) -> Option<Seq<char>> {
    spec_instance_in(fullname, SERVICE_TYPE@)
}

/// The instance label of a fullname of `service`.
pub fn instance_in(fullname: &str, service: &str) -> (r: Option<String>)
    ensures
        match r {
            Some(s) => spec_instance_in(fullname@, service@) == Some(s@),
            None => spec_instance_in(fullname@, service@) is None,
        },
{
    let mut suf: Vec<char> = Vec::new();
    suf.push('.');
    let st = chars_of(service);
    let mut k: usize = 0;
    while k < st.len()
        invariant
            k <= st@.len(),
            suf@ == seq!['.'] + st@.subrange(0, k as int),
        decreases st@.len() - k,
    {
        suf.push(st[k]);
        proof { assert(st@.subrange(0, k + 1) =~= st@.subrange(0, k as int).push(st@[k as int])); }
        k += 1;
    }
    proof { assert(st@.subrange(0, st@.len() as int) =~= st@); }
    let v = chars_of(fullname);
    if v.len() < suf.len() {
        return None;
    }
    let n = v.len();
    let start = n - suf.len();
    let mut i: usize = 0;
    while i < suf.len()
        invariant
            suf@ == dot_suffix(service@),
            v@ == fullname@,
            n == v@.len(),
            v@.len() >= suf@.len(),
            start == v@.len() - suf@.len(),
            i <= suf@.len(),
            forall|j: int| 0 <= j < i ==> v@[start + j] == suf@[j],
        decreases suf@.len() - i,
    {
        assert(start + i < v@.len());
        if v[start + i] != suf[i] {
            proof {
                let tail = fullname@.subrange(start as int, fullname@.len() as int);
                assert(tail[i as int] != suf@[i as int]);
            }
            return None;
        }
        i += 1;
    }
    proof {
        assert(fullname@.subrange(start as int, fullname@.len() as int) =~= suf@);
    }
    let mut out: Vec<char> = Vec::new();
    let mut j: usize = 0;
    while j < start
        invariant
            j <= start,
            start <= v@.len(),
            v@ == fullname@,
            out@ == v@.subrange(0, j as int),
        decreases start - j,
    {
        out.push(v[j]);
        proof { assert(v@.subrange(0, j + 1) =~= v@.subrange(0, j as int).push(v@[j as int])); }
        j += 1;
    }
    Some(string_from(out.as_slice()))
}

/// The instance label (a device id) of a steady-state service fullname.
pub fn instance_of(fullname: &str) -> (r: Option<String>)
    ensures
        match r {
            Some(s) => spec_instance_of(fullname@) == Some(s@),
            None => spec_instance_of(fullname@) is None,
        },
{
    instance_in(fullname, SERVICE_TYPE)
}

/// The peer record a resolved service stands for, or `None` when it is this
/// device, lacks its `id` TXT entry, or resolved to no address. A missing
/// `name` or `fp` falls back to the device id.
pub fn peer_from_record(
    id: Option<String>,
    name: Option<String>,
    fingerprint: Option<String>,
    addrs: Vec<String>,
    own_id: &str,
) -> (r: Option<DiscoveredPeer>)
    ensures
        match r {
            Some(p) => {
                &&& id is Some
                &&& p.device_id@ == id->0@
                &&& id->0@ != own_id@
                &&& addrs@.len() > 0
                &&& p.addrs@ == addrs@
                &&& p.device_name@ == (match name { Some(n) => n@, None => id->0@ })
                &&& p.fingerprint@ == (match fingerprint { Some(f) => f@, None => id->0@ })
            },
            None => id is None || id->0@ == own_id@ || addrs@.len() == 0,
        },
{
    let device_id = match id {
        Some(s) => s,
        None => return None,
    };
    if str_eq(device_id.as_str(), own_id) {
        return None;
    }
    let device_name = match name {
        Some(n) => n,
        None => device_id.clone(),
    };
    let fp = match fingerprint {
        Some(f) => f,
        None => device_id.clone(),
    };
    if addrs.len() == 0 {
        return None;
    }
    Some(DiscoveredPeer { device_id, device_name, fingerprint: fp, addrs })
}

/// The device id a removed service record names, unless it is this device.
pub fn removed_peer(fullname: &str, own_id: &str) -> (r: Option<String>)
    ensures
        match r {
            Some(s) => spec_instance_of(fullname@) == Some(s@) && s@ != own_id@,
            None => match spec_instance_of(fullname@) {
                Some(s) => s == own_id@,
                None => true,
            },
        },
{
    match instance_of(fullname) {
        Some(id) => {
            if str_eq(id.as_str(), own_id) { None } else { Some(id) }
        },
        None => None,
    }
}

} // verus!
