//! The `qdrop` command line: its arguments, and the decisions of its
//! subcommands (what a `clip` flag asks for, how a peer's status reads, how
//! a typed PIN is checked, how a device name is quoted for a shell).

use vstd::prelude::*;
use crate::pairing::Paired;
use crate::base64::b64;
use crate::peers::{first_with_id, has_id, Peer, Peers};
use crate::state::{spec_ago, ago_at, DaemonState};
use crate::text::{chars_of, is_ws, string_from, trim, trim_bounds, slice_chars};

verus! {

/// Global flags and the subcommand.
#[derive(Debug, Clone, PartialEq, Eq)]
pub struct Cli {
    /// More log output.
    pub verbose: bool,
    /// Less status output (errors still print).
    pub quiet: bool,
    pub command: Command,
}

/// The subcommands.
#[derive(Debug, Clone, PartialEq, Eq)]
pub enum Command {
    Pair(PairArgs),
    Peers(PeersArgs),
    Send(SendArgs),
    Recv(RecvArgs),
    Paste,
    Copy,
    Open(OpenArgs),
    Clip(ClipArgs),
    Auth(AuthArgs),
    Status(StatusArgs),
    Doctor(DoctorArgs),
    Daemon(DaemonArgs),
}

/// `qdrop doctor`.
#[derive(Debug, Clone, PartialEq, Eq)]
pub struct DoctorArgs {
    /// Emit the checks as JSON.
    pub json: bool,
}

/// `qdrop auth`: authorize a peer, revoke one, or list.
#[derive(Debug, Clone, PartialEq, Eq)]
pub struct AuthArgs {
    pub name: Option<String>,
    pub remove: Option<String>,
    /// Also ask the peer to authorize this machine back.
    pub mutual: bool,
}

/// `qdrop status`.
#[derive(Debug, Clone, PartialEq, Eq)]
pub struct StatusArgs {
    pub json: bool,
    /// One line of waybar JSON.
    pub waybar: bool,
}

/// `qdrop pair`: offer (no target), request (a target), or remove.
#[derive(Debug, Clone, PartialEq, Eq)]
pub struct PairArgs {
    pub target: Option<String>,
    pub remove: Option<String>,
}

/// `qdrop peers`.
#[derive(Debug, Clone, PartialEq, Eq)]
pub struct PeersArgs {
    pub json: bool,
}

/// `qdrop send`.
#[derive(Debug, Clone, PartialEq, Eq)]
pub struct SendArgs {
    /// Files to send; a single `-` reads stdin.
    pub paths: Vec<String>,
    pub to: Option<String>,
    /// File name for stdin.
    pub name: Option<String>,
}

/// `qdrop recv`.
#[derive(Debug, Clone, PartialEq, Eq)]
pub struct RecvArgs {
    pub stdout: bool,
    pub keep: bool,
    /// Seconds to wait (default 300).
    pub timeout: Option<u64>,
}

/// `qdrop open`.
#[derive(Debug, Clone, PartialEq, Eq)]
pub struct OpenArgs {
    pub url: String,
    pub to: Option<String>,
}

/// `qdrop clip`: with no flag, prints status.
#[derive(Debug, Clone, PartialEq, Eq)]
pub struct ClipArgs {
    pub pause: bool,
    pub resume: bool,
    pub toggle: bool,
    pub status: bool,
    pub history: bool,
    pub restore: Option<usize>,
    pub send: Option<usize>,
    pub to: Option<String>,
}

/// `qdrop daemon`.
#[derive(Debug, Clone, PartialEq, Eq)]
pub struct DaemonArgs {
    pub port: Option<u16>,
}

/// What `qdrop clip` is asked to do.
#[derive(Debug, Clone, Copy, PartialEq, Eq, Structural)]
pub enum ClipAction {
    Pause,
    Resume,
    Toggle,
    Status,
    History,
    Restore(usize),
    Send(usize),
}

impl ClipArgs {
    /// The first flag given, in the order pause, resume, toggle, history,
    /// restore, send; status otherwise.
    pub fn action(&self) -> (a: ClipAction)
        ensures
            a == (if self.pause {
                ClipAction::Pause
            } else if self.resume {
                ClipAction::Resume
            } else if self.toggle {
                ClipAction::Toggle
            } else if self.history {
                ClipAction::History
            } else if self.restore is Some {
                ClipAction::Restore(self.restore->0)
            } else if self.send is Some {
                ClipAction::Send(self.send->0)
            } else {
                ClipAction::Status
            }),
    {
        if self.pause {
            ClipAction::Pause
        } else if self.resume {
            ClipAction::Resume
        } else if self.toggle {
            ClipAction::Toggle
        } else if self.history {
            ClipAction::History
        } else if let Some(n) = self.restore {
            ClipAction::Restore(n)
        } else if let Some(n) = self.send {
            ClipAction::Send(n)
        } else {
            ClipAction::Status
        }
    }
}

/// The control request a `clip` action maps to, for those the daemon
/// serves: `clip_pause`, `clip_resume`, `clip_status`.
pub fn clip_command(a: ClipAction) -> (r: Option<String>)
    ensures
        a == ClipAction::Pause ==> (r matches Some(s) && s@ == seq!['c', 'l', 'i', 'p', '_', 'p', 'a', 'u', 's', 'e']),
        a == ClipAction::Resume ==> (r matches Some(s) && s@ == seq!['c', 'l', 'i', 'p', '_', 'r', 'e', 's', 'u', 'm', 'e']),
        a == ClipAction::Status ==> (r matches Some(s) && s@ == seq!['c', 'l', 'i', 'p', '_', 's', 't', 'a', 't', 'u', 's']),
        !(a == ClipAction::Pause || a == ClipAction::Resume || a == ClipAction::Status) ==> r is None,
{
    match a {
        ClipAction::Pause => {
            let c: [char; 10] = ['c', 'l', 'i', 'p', '_', 'p', 'a', 'u', 's', 'e'];
            proof { assert(c@ =~= seq!['c', 'l', 'i', 'p', '_', 'p', 'a', 'u', 's', 'e']); }
            Some(string_from(c.as_slice()))
        },
        ClipAction::Resume => {
            let c: [char; 11] = ['c', 'l', 'i', 'p', '_', 'r', 'e', 's', 'u', 'm', 'e'];
            proof { assert(c@ =~= seq!['c', 'l', 'i', 'p', '_', 'r', 'e', 's', 'u', 'm', 'e']); }
            Some(string_from(c.as_slice()))
        },
        ClipAction::Status => {
            let c: [char; 11] = ['c', 'l', 'i', 'p', '_', 's', 't', 'a', 't', 'u', 's'];
            proof { assert(c@ =~= seq!['c', 'l', 'i', 'p', '_', 's', 't', 'a', 't', 'u', 's']); }
            Some(string_from(c.as_slice()))
        },
        _ => None,
    }
}

/// A typed PIN is accepted when, trimmed, it is exactly six ASCII digits.
pub open spec fn spec_pin_ok(line: Seq<char>) -> bool {
    let t = trim(line);
    t.len() == 6 && forall|i: int| 0 <= i < 6 ==> '0' <= #[trigger] t[i] <= '9'
}

/// Whether a typed PIN line is six digits (surrounding whitespace aside).
pub fn pin_ok(line: &str) -> (b: bool)
    ensures b == spec_pin_ok(line@),
{
    let all = chars_of(line);
    let (lo, hi) = trim_bounds(all.as_slice());
    let t = slice_chars(all.as_slice(), lo, hi);
    assert(t@ == trim(line@));
    if t.len() != 6 {
        return false;
    }
    let mut i: usize = 0;
    while i < 6
        invariant
            t@.len() == 6,
            t@ == trim(line@),
            i <= 6,
            forall|j: int| 0 <= j < i ==> '0' <= #[trigger] t@[j] <= '9',
        decreases 6 - i,
    {
        if t[i] < '0' || t[i] > '9' {
            proof {
                let tt = trim(line@);
                assert(!('0' <= tt[i as int] <= '9'));
                assert(!(forall|j: int| 0 <= j < 6 ==> '0' <= #[trigger] tt[j] <= '9'));
            }
            return false;
        }
        i += 1;
    }
    true
}

/// `char::is_alphanumeric`: the Unicode alphabetic or numeric property.
pub uninterp spec fn unicode_alnum(c: char) -> bool;

/// `char::is_alphanumeric`: the property named `unicode_alnum`; ASCII
/// letters and digits have it.
#[verifier::external_body]
fn is_alnum(c: char) -> (b: bool)
    ensures
        b == unicode_alnum(c),
        ('a' <= c <= 'z' || 'A' <= c <= 'Z' || '0' <= c <= '9') ==> b,
{
    c.is_alphanumeric()
}

/// A character that needs no shell quoting.
pub open spec fn shell_safe(c: char) -> bool {
    unicode_alnum(c) || c == '-' || c == '_' || c == '.'
}

/// Single-quoting of a run of characters, each `'` written as `'\''`.
pub open spec fn squote_body(s: Seq<char>) -> Seq<char>
    decreases s.len(),
{
    if s.len() == 0 {
        Seq::empty()
    } else {
        squote_body(s.drop_last()) + (if s.last() == '\'' { seq!['\'', '\\', '\'', '\''] } else { seq![s.last()] })
    }
}

/// A device name as a shell word: as is when every character is safe,
/// otherwise single-quoted.
pub open spec fn spec_shell_quote(s: Seq<char>) -> Seq<char> {
    if forall|i: int| 0 <= i < s.len() ==> shell_safe(#[trigger] s[i]) {
        s
    } else {
        seq!['\''] + squote_body(s) + seq!['\'']
    }
}

/// Quote a device name for the shell command printed to the user.
pub fn shell_quote(s: &str) -> (r: String)
    ensures r@ == spec_shell_quote(s@),
{
    let v = chars_of(s);
    let mut safe = true;
    let mut i: usize = 0;
    while i < v.len()
        invariant
            i <= v@.len(),
            v@ == s@,
            safe == forall|j: int| 0 <= j < i ==> shell_safe(#[trigger] v@[j]),
        decreases v@.len() - i,
    {
        let c = v[i];
        let ok = is_alnum(c) || c == '-' || c == '_' || c == '.';
        proof {
            if !ok {
                assert(!shell_safe(v@[i as int]));
            }
        }
        safe = safe && ok;
        i += 1;
    }
    if safe {
        return string_from(v.as_slice());
    }
    let mut out: Vec<char> = Vec::new();
    out.push('\'');
    let mut k: usize = 0;
    while k < v.len()
        invariant
            k <= v@.len(),
            v@ == s@,
            out@ == seq!['\''] + squote_body(v@.subrange(0, k as int)),
        decreases v@.len() - k,
    {
        let c = v[k];
        let ghost pre = v@.subrange(0, k as int);
        proof {
            assert(v@.subrange(0, k + 1).drop_last() =~= pre);
            assert(v@.subrange(0, k + 1).last() == c);
        }
        if c == '\'' {
            out.push('\'');
            out.push('\\');
            out.push('\'');
            out.push('\'');
        } else {
            out.push(c);
        }
        proof {
            assert(out@ =~= seq!['\''] + squote_body(v@.subrange(0, k + 1)));
        }
        k += 1;
    }
    out.push('\'');
    proof { assert(v@.subrange(0, v@.len() as int) =~= v@); }
    string_from(out.as_slice())
}

/// How `qdrop peers` shows a peer: `online` since a time, `offline` last
/// seen at a time, or `offline` and `never`.
pub open spec fn spec_peer_status(online: Option<u64>, seen: Option<u64>, now: u64) -> (Seq<char>, Seq<char>) {
    match online {
        Some(since) => (seq!['o', 'n', 'l', 'i', 'n', 'e'], seq!['s', 'i', 'n', 'c', 'e', ' '] + spec_ago(now, since)),
        None => match seen {
            Some(t) => (seq!['o', 'f', 'f', 'l', 'i', 'n', 'e'], spec_ago(now, t)),
            None => (seq!['o', 'f', 'f', 'l', 'i', 'n', 'e'], seq!['n', 'e', 'v', 'e', 'r']),
        },
    }
}

/// A peer's status column and last-seen column at `now`.
pub fn peer_status(state: &DaemonState, device_id: &str, now: u64) -> (r: (String, String))
    requires state.wf(),
    ensures
        ({
            let on = state.online.view();
            let ls = state.last_seen.view();
            let o = if on.contains_key(device_id@) { Some(on[device_id@]) } else { None };
            let s = if ls.contains_key(device_id@) { Some(ls[device_id@]) } else { None };
            r.0@ == spec_peer_status(o, s, now).0 && r.1@ == spec_peer_status(o, s, now).1
        }),
{
    match state.online.get(device_id) {
        Some(since) => {
            let st: [char; 6] = ['o', 'n', 'l', 'i', 'n', 'e'];
            let mut w: Vec<char> = Vec::new();
            w.push('s');
            w.push('i');
            w.push('n');
            w.push('c');
            w.push('e');
            w.push(' ');
            let a = chars_of(ago_at(now, *since).as_str());
            let ghost w0 = w@;
            let mut i: usize = 0;
            while i < a.len()
                invariant
                    i <= a@.len(),
                    w@ == w0 + a@.subrange(0, i as int),
                decreases a@.len() - i,
            {
                w.push(a[i]);
                proof { assert(a@.subrange(0, i + 1) =~= a@.subrange(0, i as int).push(a@[i as int])); }
                i += 1;
            }
            proof {
                assert(a@.subrange(0, a@.len() as int) =~= a@);
                assert(st@ =~= seq!['o', 'n', 'l', 'i', 'n', 'e']);
                assert(w@ =~= seq!['s', 'i', 'n', 'c', 'e', ' '] + spec_ago(now, *since));
            }
            (string_from(st.as_slice()), string_from(w.as_slice()))
        },
        None => {
            let st: [char; 7] = ['o', 'f', 'f', 'l', 'i', 'n', 'e'];
            proof { assert(st@ =~= seq!['o', 'f', 'f', 'l', 'i', 'n', 'e']); }
            match state.last_seen.get(device_id) {
                Some(t) => (string_from(st.as_slice()), ago_at(now, *t)),
                None => {
                    let n: [char; 5] = ['n', 'e', 'v', 'e', 'r'];
                    proof { assert(n@ =~= seq!['n', 'e', 'v', 'e', 'r']); }
                    (string_from(st.as_slice()), string_from(n.as_slice()))
                },
            }
        },
    }
}

/// The time a peer was last seen for the JSON listing: since when it is
/// online, else when it was last seen.
pub fn last_seen_unix(state: &DaemonState, device_id: &str) -> (r: Option<u64>)
    requires state.wf(),
    ensures
        r == (if state.online.view().contains_key(device_id@) {
            Some(state.online.view()[device_id@])
        } else if state.last_seen.view().contains_key(device_id@) {
            Some(state.last_seen.view()[device_id@])
        } else {
            None
        }),
{
    match state.online.get(device_id) {
        Some(t) => Some(*t),
        None => match state.last_seen.get(device_id) {
            Some(t) => Some(*t),
            None => None,
        },
    }
}

/// The registry entry for a newly paired peer: its name, id and key,
/// nothing else known yet.
pub open spec fn fresh_entry(p: Peer, paired: Paired) -> bool {
    &&& p.name@ == paired.device_name@
    &&& p.device_id@ == paired.device_id@
    &&& p.public_key@ == b64(paired.public_key@)
    &&& p.last_seen is None && !p.authorized && p.hostname is None && p.macs@.len() == 0 && p.address is None
}

/// Record a newly paired peer in the registry, replacing the entry with its
/// device id or else appending.
pub fn record_peer(peers: &mut Peers, paired: &Paired)
    ensures
        has_id(old(peers).peers@, paired.device_id@) ==> exists|i: int|
            first_with_id(old(peers).peers@, paired.device_id@, i)
            && final(peers).peers@.len() == old(peers).peers@.len()
            && fresh_entry(final(peers).peers@[i], *paired)
            && forall|j: int| 0 <= j < old(peers).peers@.len() && j != i ==> #[trigger] final(peers).peers@[j] == old(peers).peers@[j],
        !has_id(old(peers).peers@, paired.device_id@) ==> {
            &&& final(peers).peers@.len() == old(peers).peers@.len() + 1
            &&& fresh_entry(final(peers).peers@.last(), *paired)
            &&& forall|j: int| 0 <= j < old(peers).peers@.len() ==> #[trigger] final(peers).peers@[j] == old(peers).peers@[j]
        },
{
    let p = Peer::new(paired.device_name.as_str(), paired.device_id.as_str(), &paired.public_key);
    peers.upsert(p);
}

} // verus!
