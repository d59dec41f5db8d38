//! `state.json`: the daemon's live view (who is online, when peers were
//! last seen, where they were last reached), published for `qdrop peers`.

use vstd::prelude::*;
use crate::crypto::digit;
use crate::store::{load_with, FileRead, LoadError};
use crate::strmap::StrMap;
use crate::text::string_from;

verus! {

/// `SystemTime::now().duration_since(UNIX_EPOCH)` in whole seconds, or
/// `None` when the clock is before the epoch. Nothing is stated of the
/// value: it is the time.
#[verifier::external_body]
fn clock_secs() -> (r: Option<u64>)
{
    std::time::SystemTime::now().duration_since(std::time::UNIX_EPOCH).ok().map(|d| d.as_secs())
}

/// Seconds since the Unix epoch, now, or 0 when the clock is before the
/// epoch.
pub fn now_unix() -> (t: u64)
{
    match clock_secs() {
        Some(s) => s,
        None => 0,
    }
}

/// Decimal digits of `n`, without leading zeros (`"0"` for zero).
pub open spec fn decimal(n: nat) -> Seq<char>
    decreases n,
{
    if n < 10 { seq![digit(n as int)] } else { decimal(n / 10).push(digit((n % 10) as int)) }
}

/// Decimal rendering of `n` into a character vector.
pub fn decimal_chars(n: u64) -> (v: Vec<char>)
    ensures v@ == decimal(n as nat),
    decreases n,
{
    if n < 10 {
        let mut v = Vec::new();
        v.push(crate::crypto::digit_char(n as u32));
        proof { assert(v@ =~= decimal(n as nat)); }
        v
    } else {
        let mut v = decimal_chars(n / 10);
        v.push(crate::crypto::digit_char((n % 10) as u32));
        v
    }
}

/// A coarse "time ago" rendering of `then` as seen at `now`: seconds under
/// a minute, minutes under an hour, hours under a day, else days; `unknown`
/// for a zero or future timestamp.
pub open spec fn spec_ago(now: u64, then: u64) -> Seq<char> {
    if then == 0 || then > now {
        seq!['u', 'n', 'k', 'n', 'o', 'w', 'n']
    } else {
        let secs = (now - then) as nat;
        if secs < 60 {
            decimal(secs) + seq!['s', ' ', 'a', 'g', 'o']
        } else if secs < 3600 {
            decimal(secs / 60) + seq!['m', ' ', 'a', 'g', 'o']
        } else if secs < 86400 {
            decimal(secs / 3600) + seq!['h', ' ', 'a', 'g', 'o']
        } else {
            decimal(secs / 86400) + seq!['d', ' ', 'a', 'g', 'o']
        }
    }
}

/// Render `then` relative to `now`.
pub fn ago_at(now: u64, then: u64) -> (s: String)
    ensures s@ == spec_ago(now, then),
{
    if then == 0 || then > now {
        let u: [char; 7] = ['u', 'n', 'k', 'n', 'o', 'w', 'n'];
        proof { assert(u@ =~= seq!['u', 'n', 'k', 'n', 'o', 'w', 'n']); }
        return string_from(u.as_slice());
    }
    let secs = now - then;
    let (n, unit) = if secs < 60 {
        (secs, 's')
    } else if secs < 3600 {
        (secs / 60, 'm')
    } else if secs < 86400 {
        (secs / 3600, 'h')
    } else {
        (secs / 86400, 'd')
    };
    let mut v = decimal_chars(n);
    let ghost d = v@;
    v.push(unit);
    v.push(' ');
    v.push('a');
    v.push('g');
    v.push('o');
    proof { assert(v@ =~= d + seq![unit, ' ', 'a', 'g', 'o']); }
    string_from(v.as_slice())
}

/// Render a unix timestamp as a coarse "time ago" string, relative to the
/// current time.
pub fn ago(then_unix: u64) -> (s: String)
    ensures exists|now: u64| s@ == spec_ago(now, then_unix),
{
    let now = now_unix();
    ago_at(now, then_unix)
}

/// The daemon's published state.
pub struct DaemonState {
    /// device id -> unix time the current connection was established.
    pub online: StrMap<u64>,
    /// device id -> unix time last seen (updated on disconnect).
    pub last_seen: StrMap<u64>,
    /// device id -> last address we successfully connected to.
    pub last_addr: StrMap<String>,
}

impl DaemonState {
    /// The three maps are well formed.
    pub open spec fn wf(&self) -> bool {
        self.online.wf() && self.last_seen.wf() && self.last_addr.wf()
    }

    /// Nobody online, nothing remembered.
    pub fn new() -> (s: DaemonState)
        ensures
            s.wf(),
            s.online.view() == Map::<Seq<char>, u64>::empty(),
            s.last_seen.view() == Map::<Seq<char>, u64>::empty(),
            s.last_addr.view() == Map::<Seq<char>, String>::empty(),
    {
        DaemonState { online: StrMap::new(), last_seen: StrMap::new(), last_addr: StrMap::new() }
    }

    /// Load semantics of `state.json`: the parsed file, or an empty state
    /// when there is none.
    pub fn load(read: FileRead<DaemonState>) -> (r: Result<DaemonState, LoadError>)
        ensures
            read is Missing ==> (r matches Ok(s) && s.wf() && s.online.view().dom().len() == 0
                && s.last_seen.view().dom().len() == 0 && s.last_addr.view().dom().len() == 0),
            read matches FileRead::Parsed(s) ==> r == Ok::<DaemonState, LoadError>(s),
            read matches FileRead::Invalid(e) ==> r == Err::<DaemonState, LoadError>(LoadError::Parse(e)),
            read matches FileRead::Unreadable(e) ==> r == Err::<DaemonState, LoadError>(LoadError::Read(e)),
    {
        let r = load_with(read, DaemonState::new());
        proof {
            if read is Missing {
                let s = r->Ok_0;
                assert(s.online.view().dom() =~= Set::empty());
                assert(s.last_seen.view().dom() =~= Set::empty());
                assert(s.last_addr.view().dom() =~= Set::empty());
            }
        }
        r
    }

    /// Record that `device_id` connected at `now`.
    pub fn mark_online_at(&mut self, device_id: &str, now: u64)
        requires old(self).wf(),
        ensures
            final(self).wf(),
            final(self).online.view() == old(self).online.view().insert(device_id@, now),
            final(self).last_seen.view() == old(self).last_seen.view(),
            final(self).last_addr.view() == old(self).last_addr.view(),
    {
        self.online.insert(String::from_str(device_id), now);
    }

    /// Record that `device_id` connected just now.
    pub fn mark_online(&mut self, device_id: &str)
        requires old(self).wf(),
        ensures
            final(self).wf(),
            exists|t: u64| final(self).online.view() == old(self).online.view().insert(device_id@, t),
            final(self).last_seen.view() == old(self).last_seen.view(),
            final(self).last_addr.view() == old(self).last_addr.view(),
    {
        let now = now_unix();
        self.mark_online_at(device_id, now);
    }

    /// Remember the address `device_id` was last reached at.
    pub fn remember_addr(&mut self, device_id: &str, addr: &str)
        requires old(self).wf(),
        ensures
            final(self).wf(),
            final(self).online.view() == old(self).online.view(),
            final(self).last_seen.view() == old(self).last_seen.view(),
            final(self).last_addr.view().dom() == old(self).last_addr.view().dom().insert(device_id@),
            final(self).last_addr.view()[device_id@]@ == addr@,
            forall|k: Seq<char>| k != device_id@ && #[trigger] old(self).last_addr.view().contains_key(k)
                ==> final(self).last_addr.view()[k] == old(self).last_addr.view()[k],
    {
        self.last_addr.insert(String::from_str(device_id), String::from_str(addr));
    }

    /// Record that `device_id` disconnected at `now`.
    pub fn mark_offline_at(&mut self, device_id: &str, now: u64)
        requires old(self).wf(),
        ensures
            final(self).wf(),
            final(self).online.view() == old(self).online.view().remove(device_id@),
            final(self).last_seen.view() == old(self).last_seen.view().insert(device_id@, now),
            final(self).last_addr.view() == old(self).last_addr.view(),
    {
        self.online.remove(device_id);
        self.last_seen.insert(String::from_str(device_id), now);
    }

    /// Record that `device_id` disconnected just now.
    pub fn mark_offline(&mut self, device_id: &str)
        requires old(self).wf(),
        ensures
            final(self).wf(),
            final(self).online.view() == old(self).online.view().remove(device_id@),
            exists|t: u64| final(self).last_seen.view() == old(self).last_seen.view().insert(device_id@, t),
            final(self).last_addr.view() == old(self).last_addr.view(),
    {
        let now = now_unix();
        self.mark_offline_at(device_id, now);
    }

    /// Whether `device_id` is connected.
    pub fn is_online(&self, device_id: &str) -> (b: bool)
        requires self.wf(),
        ensures b == self.online.view().contains_key(device_id@),
    {
        self.online.contains_key(device_id)
    }

    /// Forget every live connection (a fresh daemon has none yet).
    pub fn clear_online(&mut self)
        requires old(self).wf(),
        ensures
            final(self).wf(),
            final(self).online.view() == Map::<Seq<char>, u64>::empty(),
            final(self).last_seen.view() == old(self).last_seen.view(),
            final(self).last_addr.view() == old(self).last_addr.view(),
    {
        self.online = StrMap::new();
    }
}

} // verus!
