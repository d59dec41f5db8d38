//! `qdrop doctor`: the verdicts of the checks that diagnose why sync does
//! not work (the probing itself is done by the caller).

use vstd::prelude::*;
use crate::state::{decimal, decimal_chars};
use crate::strmap::str_eq;
use crate::text::{chars_of, string_from};

verus! {

/// A check's verdict.
#[derive(Debug, Clone, Copy, PartialEq, Eq, Structural)]
pub enum Status {
    /// Fine (shown as `ok`).
    Pass,
    Warn,
    Fail,
}

/// One diagnosed aspect.
#[derive(Debug, Clone, PartialEq, Eq)]
pub struct Check {
    pub name: String,
    pub status: Status,
    pub detail: String,
    /// What to do about it (absent for a passing check).
    pub fix: Option<String>,
}

impl Check {
    /// A passing check.
    pub fn ok(name: &str, detail: String) -> (c: Check)
        ensures c.name@ == name@, c.status == Status::Pass, c.detail == detail, c.fix is None,
    {
        Check { name: name.to_owned(), status: Status::Pass, detail, fix: None }
    }

    /// A check that found something to look at.
    pub fn warn(name: &str, detail: String, fix: String) -> (c: Check)
        ensures c.name@ == name@, c.status == Status::Warn, c.detail == detail, c.fix == Some(fix),
    {
        Check { name: name.to_owned(), status: Status::Warn, detail, fix: Some(fix) }
    }

    /// A failing check.
    pub fn fail(name: &str, detail: String, fix: String) -> (c: Check)
        ensures c.name@ == name@, c.status == Status::Fail, c.detail == detail, c.fix == Some(fix),
    {
        Check { name: name.to_owned(), status: Status::Fail, detail, fix: Some(fix) }
    }
}

/// Append the characters of `b` to `a`.
fn push_all(a: &mut Vec<char>, b: &[char])
    ensures final(a)@ == old(a)@ + b@,
{
    let ghost a0 = a@;
    let mut i: usize = 0;
    while i < b.len()
        invariant
            i <= b@.len(),
            a@ == a0 + b@.subrange(0, i as int),
        decreases b@.len() - i,
    {
        a.push(b[i]);
        proof { assert(b@.subrange(0, i + 1) =~= b@.subrange(0, i as int).push(b@[i as int])); }
        i += 1;
    }
    proof { assert(b@.subrange(0, b@.len() as int) =~= b@); }
}

/// The string of a character array.
fn text_of(c: &[char]) -> (s: String)
    ensures s@ == c@,
{
    string_from(c)
}

/// The mDNS check: what browsing for the service saw.
pub fn mdns_check(services: usize, daemon_up: bool) -> (c: Check)
    ensures
        c.name@ == seq!['m', 'D', 'N', 'S'],
        (services == 0 && daemon_up) ==> c.status == Status::Warn
            && c.detail@ == "browsed for _qdrop._tcp and saw nothing (not even this daemon)"@
            && (c.fix matches Some(f)
                && f@ == "multicast may be blocked \u{2014} check the firewall / that Wi-Fi client isolation is off"@),
        (services == 0 && !daemon_up) ==> c.status == Status::Warn
            && c.detail@ == "no _qdrop._tcp services on the network"@
            && (c.fix matches Some(f) && f@ == "start `qdropd` on this and the other machine"@),
        (services > 0) ==> c.status == Status::Pass
            && c.detail@ == decimal(services as nat) + seq![' '] + crate::discovery::SERVICE_TYPE@.subrange(0, 11)
                + seq![' ', 's', 'e', 'r', 'v', 'i', 'c', 'e', '(', 's', ')', ' ', 'v', 'i', 's', 'i', 'b', 'l', 'e'],
{
    let name: [char; 4] = ['m', 'D', 'N', 'S'];
    let ghost nm = seq!['m', 'D', 'N', 'S'];
    proof { assert(name@ =~= nm); }
    let n = text_of(name.as_slice());
    if services == 0 && daemon_up {
        let d = "browsed for _qdrop._tcp and saw nothing (not even this daemon)".to_owned();
        let f = "multicast may be blocked \u{2014} check the firewall / that Wi-Fi client isolation is off".to_owned();
        return Check::warn(n.as_str(), d, f);
    }
    if services == 0 {
        let d = "no _qdrop._tcp services on the network".to_owned();
        let f = "start `qdropd` on this and the other machine".to_owned();
        return Check::warn(n.as_str(), d, f);
    }
    let mut v = decimal_chars(services as u64);
    v.push(' ');
    let st = chars_of(crate::discovery::SERVICE_TYPE);
    proof { reveal_strlit("_qdrop._tcp.local."); }
    let mut i: usize = 0;
    let ghost v0 = v@;
    while i < 11
        invariant
            st@ == crate::discovery::SERVICE_TYPE@,
            st@.len() == 18,
            i <= 11,
            v@ == v0 + st@.subrange(0, i as int),
        decreases 11 - i,
    {
        v.push(st[i]);
        proof { assert(st@.subrange(0, i + 1) =~= st@.subrange(0, i as int).push(st@[i as int])); }
        i += 1;
    }
    let tail: [char; 19] = [' ', 's', 'e', 'r', 'v', 'i', 'c', 'e', '(', 's', ')', ' ', 'v', 'i', 's', 'i', 'b', 'l', 'e'];
    push_all(&mut v, tail.as_slice());
    proof {
        assert(v@ =~= decimal(services as nat) + seq![' '] + crate::discovery::SERVICE_TYPE@.subrange(0, 11)
            + seq![' ', 's', 'e', 'r', 'v', 'i', 'c', 'e', '(', 's', ')', ' ', 'v', 'i', 's', 'i', 'b', 'l', 'e']);
    }
    Check::ok(n.as_str(), string_from(v.as_slice()))
}

/// Whether `v` holds the text `s`.
fn holds(v: &Vec<String>, s: &str) -> (b: bool)
    ensures b == exists|i: int| 0 <= i < v@.len() && #[trigger] v@[i]@ == s@,
{
    let mut i: usize = 0;
    while i < v.len()
        invariant
            i <= v@.len(),
            forall|j: int| 0 <= j < i ==> v@[j]@ != s@,
        decreases v@.len() - i,
    {
        if str_eq(v[i].as_str(), s) {
            return true;
        }
        i += 1;
    }
    false
}

/// The check for one paired peer: connected, discovered but not connected,
/// or not seen; nothing for this device itself.
pub fn peer_check(peer_name: &str, device_id: &str, online: &Vec<String>, services: &Vec<String>, own_id: Option<&str>)
    -> (r: Option<Check>)
    ensures
        ({
            let is_online = exists|i: int| 0 <= i < online@.len() && #[trigger] online@[i]@ == device_id@;
            let seen = exists|i: int| 0 <= i < services@.len() && #[trigger] services@[i]@ == device_id@;
            let own = own_id is Some && own_id->0@ == device_id@;
            &&& is_online ==> (r matches Some(c) && c.status == Status::Pass && c.detail@ == "connected"@ && c.fix is None)
            &&& (!is_online && seen) ==> (r matches Some(c) && c.status == Status::Warn
                && c.detail@ == "discovered but not connected"@
                && (c.fix matches Some(f)
                    && f@ == "check both daemons' logs; keys may not match (re-pair) or clocks may be skewed"@))
            &&& (!is_online && !seen && own) ==> r is None
            &&& (!is_online && !seen && !own) ==> (r matches Some(c) && c.status == Status::Warn
                && c.detail@ == "not seen on the network"@
                && (c.fix matches Some(f)
                    && f@ == "is its daemon running and on the same LAN? (or set a static endpoint)"@))
            &&& r matches Some(c) ==> c.name@ == seq!['p', 'e', 'e', 'r', ':'] + peer_name@
        }),
{
    let mut nm: Vec<char> = Vec::new();
    let p: [char; 5] = ['p', 'e', 'e', 'r', ':'];
    push_all(&mut nm, p.as_slice());
    push_all(&mut nm, chars_of(peer_name).as_slice());
    proof { assert(nm@ =~= seq!['p', 'e', 'e', 'r', ':'] + peer_name@); }
    let name = string_from(nm.as_slice());
    if holds(online, device_id) {
        return Some(Check::ok(name.as_str(), "connected".to_owned()));
    }
    if holds(services, device_id) {
        return Some(Check::warn(
            name.as_str(),
            "discovered but not connected".to_owned(),
            "check both daemons' logs; keys may not match (re-pair) or clocks may be skewed".to_owned(),
        ));
    }
    let own = match own_id {
        Some(o) => str_eq(o, device_id),
        None => false,
    };
    if own {
        return None;
    }
    Some(Check::warn(
        name.as_str(),
        "not seen on the network".to_owned(),
        "is its daemon running and on the same LAN? (or set a static endpoint)".to_owned(),
    ))
}

/// Remember a device id seen while browsing, once.
pub fn note_service(ids: &mut Vec<String>, id: &str)
    ensures
        (exists|i: int| 0 <= i < old(ids)@.len() && #[trigger] old(ids)@[i]@ == id@) ==> final(ids)@ == old(ids)@,
        !(exists|i: int| 0 <= i < old(ids)@.len() && #[trigger] old(ids)@[i]@ == id@) ==>
            final(ids)@.len() == old(ids)@.len() + 1 && final(ids)@.drop_last() == old(ids)@ && final(ids)@.last()@ == id@,
{
    if !holds(ids, id) {
        ids.push(id.to_owned());
        proof { assert(ids@.drop_last() =~= old(ids)@); }
    }
}

/// The port checked: the daemon's when it answered, else the configured one.
pub fn port_to_check(daemon_port: Option<u16>, config_port: u16) -> (p: u16)
    ensures p == (match daemon_port { Some(d) => d, None => config_port }),
{
    match daemon_port {
        Some(d) => d,
        None => config_port,
    }
}

/// The port check: fine when the daemon listens on it or it can be bound;
/// failing when something else holds it (`bind_error` describes why).
pub fn port_check(daemon_listening: bool, port: u16, bind_error: Option<String>) -> (c: Check)
    ensures
        c.name@ == seq!['p', 'o', 'r', 't'],
        daemon_listening ==> c.status == Status::Pass
            && c.detail@ == "daemon is listening on TCP "@ + decimal(port as nat),
        (!daemon_listening && bind_error is None) ==> c.status == Status::Pass
            && c.detail@ == "TCP "@ + decimal(port as nat) + " is bindable"@,
        (!daemon_listening && bind_error is Some) ==> c.status == Status::Fail
            && c.detail@ == "cannot bind TCP "@ + decimal(port as nat) + ": "@ + bind_error->0@
            && (c.fix matches Some(f) && f@ == "another process holds the port \u{2014} change `port` in config.toml"@),
{
    let name: [char; 4] = ['p', 'o', 'r', 't'];
    proof { assert(name@ =~= seq!['p', 'o', 'r', 't']); }
    let n = text_of(name.as_slice());
    let num = decimal_chars(port as u64);
    if daemon_listening {
        let mut v: Vec<char> = Vec::new();
        push_all(&mut v, chars_of("daemon is listening on TCP ").as_slice());
        push_all(&mut v, num.as_slice());
        return Check::ok(n.as_str(), string_from(v.as_slice()));
    }
    match bind_error {
        None => {
            let mut v: Vec<char> = Vec::new();
            push_all(&mut v, chars_of("TCP ").as_slice());
            push_all(&mut v, num.as_slice());
            push_all(&mut v, chars_of(" is bindable").as_slice());
            Check::ok(n.as_str(), string_from(v.as_slice()))
        },
        Some(e) => {
            let mut v: Vec<char> = Vec::new();
            push_all(&mut v, chars_of("cannot bind TCP ").as_slice());
            push_all(&mut v, num.as_slice());
            push_all(&mut v, chars_of(": ").as_slice());
            push_all(&mut v, chars_of(e.as_str()).as_slice());
            Check::fail(
                n.as_str(),
                string_from(v.as_slice()),
                "another process holds the port \u{2014} change `port` in config.toml".to_owned(),
            )
        },
    }
}

/// What probing the identity key file found.
#[derive(Debug, Clone, PartialEq, Eq)]
pub enum IdentityProbe {
    /// The key loaded; its fingerprint.
    Loaded(String),
    /// There is no key file yet.
    Missing,
    /// The key file exists but does not load; why.
    Corrupt(String),
    /// Where the key file lives cannot be worked out; why.
    PathError(String),
}

/// The text of `a` followed by that of `b`.
fn concat2(a: &str, b: &str) -> (s: String)
    ensures s@ == a@ + b@,
{
    let mut v: Vec<char> = Vec::new();
    push_all(&mut v, chars_of(a).as_slice());
    push_all(&mut v, chars_of(b).as_slice());
    string_from(v.as_slice())
}

/// The config check: the device name and port when the config loaded, the
/// load error when it did not (the caller then goes on with defaults).
pub fn config_check(loaded: Result<(String, u16), String>) -> (c: Check)
    ensures
        c.name@ == "config"@,
        match loaded {
            Ok((name, port)) => c.status == Status::Pass && c.fix is None
                && c.detail@ == "device \""@ + name@ + "\", port "@ + decimal(port as nat),
            Err(e) => c.status == Status::Fail && c.detail@ == e@
                && (c.fix matches Some(f) && f@ == "fix the syntax error in ~/.config/qdrop/config.toml"@),
        },
{
    match loaded {
        Ok((name, port)) => {
            let mut v: Vec<char> = Vec::new();
            push_all(&mut v, chars_of("device \"").as_slice());
            push_all(&mut v, chars_of(name.as_str()).as_slice());
            push_all(&mut v, chars_of("\", port ").as_slice());
            push_all(&mut v, decimal_chars(port as u64).as_slice());
            Check::ok("config", string_from(v.as_slice()))
        },
        Err(e) => Check::fail("config", e, "fix the syntax error in ~/.config/qdrop/config.toml".to_owned()),
    }
}

/// The identity check: the key's fingerprint, no key yet, a corrupt key
/// file, or no place for it.
pub fn identity_check(state: IdentityProbe) -> (c: Check)
    ensures
        c.name@ == "identity"@,
        match state {
            IdentityProbe::Loaded(fp) => c.status == Status::Pass && c.fix is None
                && c.detail@ == "fingerprint "@ + fp@,
            IdentityProbe::Missing => c.status == Status::Warn && c.detail@ == "no key yet"@
                && (c.fix matches Some(f) && f@ == "it is created on the first `qdropd` start"@),
            IdentityProbe::Corrupt(e) => c.status == Status::Fail && c.detail@ == e@
                && (c.fix matches Some(f)
                    && f@ == "the key file is corrupt \u{2014} stop the daemon, delete identity.pem, re-pair"@),
            IdentityProbe::PathError(e) => c.status == Status::Fail && c.detail@ == e@
                && (c.fix matches Some(f) && f@ == "check $HOME / $XDG_CONFIG_HOME"@),
        },
{
    match state {
        IdentityProbe::Loaded(fp) => Check::ok("identity", concat2("fingerprint ", fp.as_str())),
        IdentityProbe::Missing => Check::warn(
            "identity",
            "no key yet".to_owned(),
            "it is created on the first `qdropd` start".to_owned(),
        ),
        IdentityProbe::Corrupt(e) => Check::fail(
            "identity",
            e,
            "the key file is corrupt \u{2014} stop the daemon, delete identity.pem, re-pair".to_owned(),
        ),
        IdentityProbe::PathError(e) => Check::fail("identity", e, "check $HOME / $XDG_CONFIG_HOME".to_owned()),
    }
}

/// The daemon check: `None` when the control socket did not answer,
/// otherwise the version the daemon reported (`?` when it gave none).
pub fn daemon_check(version: Option<Option<String>>) -> (c: Check)
    ensures
        c.name@ == "daemon"@,
        match version {
            Some(Some(v)) => c.status == Status::Pass && c.fix is None && c.detail@ == "running, version "@ + v@,
            Some(None) => c.status == Status::Pass && c.fix is None && c.detail@ == "running, version ?"@,
            None => c.status == Status::Fail && c.detail@ == "not reachable on the control socket"@
                && (c.fix matches Some(f)
                    && f@ == "start it: `qdropd` (or `systemctl --user start qdropd` / launchd)"@),
        },
{
    match version {
        Some(Some(v)) => Check::ok("daemon", concat2("running, version ", v.as_str())),
        Some(None) => {
            proof {
                reveal_strlit("running, version ");
                reveal_strlit("?");
                reveal_strlit("running, version ?");
            }
            Check::ok("daemon", concat2("running, version ", "?"))
        },
        None => Check::fail(
            "daemon",
            "not reachable on the control socket".to_owned(),
            "start it: `qdropd` (or `systemctl --user start qdropd` / launchd)".to_owned(),
        ),
    }
}

/// The downloads check: where files land (or why that cannot be worked
/// out) and whether a probe file could be written there.
pub fn downloads_check(dir: Result<String, String>, write_error: Option<String>) -> (c: Check)
    ensures
        c.name@ == "downloads"@,
        match dir {
            Ok(d) => match write_error {
                None => c.status == Status::Pass && c.fix is None && c.detail@ == d@ + " is writable"@,
                Some(e) => c.status == Status::Fail && c.detail@ == "cannot write to "@ + d@ + ": "@ + e@
                    && (c.fix matches Some(f) && f@ == "fix permissions or set QDROP_DOWNLOAD_DIR"@),
            },
            Err(e) => c.status == Status::Fail && c.detail@ == e@
                && (c.fix matches Some(f) && f@ == "set QDROP_DOWNLOAD_DIR"@),
        },
{
    match dir {
        Ok(d) => match write_error {
            None => Check::ok("downloads", concat2(d.as_str(), " is writable")),
            Some(e) => {
                let mut v: Vec<char> = Vec::new();
                push_all(&mut v, chars_of("cannot write to ").as_slice());
                push_all(&mut v, chars_of(d.as_str()).as_slice());
                push_all(&mut v, chars_of(": ").as_slice());
                push_all(&mut v, chars_of(e.as_str()).as_slice());
                Check::fail("downloads", string_from(v.as_slice()), "fix permissions or set QDROP_DOWNLOAD_DIR".to_owned())
            },
        },
        Err(e) => Check::fail("downloads", e, "set QDROP_DOWNLOAD_DIR".to_owned()),
    }
}

/// The report in the order the checks run: config, identity, daemon, port,
/// mDNS, one entry per paired peer, then the downloads directory.
pub fn assemble(config: Check, identity: Check, daemon: Check, port: Check, mdns: Check, peers: Vec<Check>,
    downloads: Check) -> (out: Vec<Check>)
    ensures
        out@ == seq![config, identity, daemon, port, mdns] + peers@ + seq![downloads],
{
    let ghost head = seq![config, identity, daemon, port, mdns];
    let mut out: Vec<Check> = Vec::new();
    out.push(config);
    out.push(identity);
    out.push(daemon);
    out.push(port);
    out.push(mdns);
    proof { assert(out@ =~= head); }
    let mut rest = peers;
    out.append(&mut rest);
    out.push(downloads);
    out
}

} // verus!
