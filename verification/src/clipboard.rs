//! Decisions of the local clipboard watcher.
//!
//! The watcher polls the clipboard. A change is noticed by its change token;
//! concealed or transient items (password managers) never leave it; what it
//! just wrote itself (a remote update) is recognised by digest and not
//! reported back.

use vstd::prelude::*;
use vstd::string::StringSliceAdditionalSpecFns;
use vstd::utf8::encode_utf8;
use crate::crypto::{ct_eq, sha256, sha256_digest};
use crate::sync::{held, LocalClip};

verus! {

/// What one poll of the clipboard saw.
#[derive(Debug)]
pub struct Snapshot {
    /// Change signal: differs whenever the content changed.
    pub token: i64,
    /// The item is marked concealed or transient.
    pub concealed: bool,
    pub text: Option<String>,
    pub image_png: Option<Vec<u8>>,
}

/// What a poll reports: the content of a genuine local change, if any.
pub open spec fn spec_content(s: Snapshot) -> Option<Seq<u8>> {
    match s.image_png {
        Some(p) => Some(p@),
        None => match s.text {
            Some(t) => Some(encode_utf8(t@)),
            None => None,
        },
    }
}

/// The watcher's state.
pub struct ClipWatcher {
    /// Token of the last content seen or written.
    pub last_token: Option<i64>,
    /// Digest of the content just written, whose echo is not reported.
    pub suppress: Option<[u8; 32]>,
}

/// One poll, from watcher state `before` to `after`, reporting `r`:
/// nothing when the clipboard could not be read or its token is unchanged
/// (the state stays); otherwise the token is remembered, and nothing is
/// reported for a concealed item or one holding neither an image nor text;
/// content whose digest is the one held from a write is that write's echo,
/// swallowed once; any other content is reported, an image before text.
pub open spec fn poll_step(before: ClipWatcher, snap: Option<Snapshot>, after: ClipWatcher, r: Option<LocalClip>) -> bool {
    match snap {
        None => r is None && after == before,
        Some(s) => if before.last_token == Some(s.token) {
            r is None && after == before
        } else {
            &&& after.last_token == Some(s.token)
            &&& if s.concealed || spec_content(s) is None {
                r is None && after.suppress == before.suppress
            } else {
                let d = sha256_digest(spec_content(s)->0);
                if held(before.suppress) == Some(d) {
                    r is None && after.suppress is None
                } else {
                    &&& after.suppress == before.suppress
                    &&& r matches Some(c)
                    &&& match c {
                        LocalClip::Image(p) => s.image_png is Some && p@ == s.image_png->0@,
                        LocalClip::Text(t) => s.image_png is None && s.text is Some && t@ == s.text->0@,
                    }
                }
            }
        },
    }
}

/// The poll sees new, shareable content whose digest is `d`.
pub open spec fn sees_new_content(w: ClipWatcher, snap: Option<Snapshot>, d: Seq<u8>) -> bool {
    snap matches Some(s) && w.last_token != Some(s.token) && !s.concealed && spec_content(s) is Some
        && sha256_digest(spec_content(s)->0) == d
}

/// Over a run of polls: a concealed item is never reported, and once the
/// digest `d` of a written item is held, the polls before the first one that
/// sees new content with that digest report only other content, and that
/// first one (the write's echo) reports nothing.
pub proof fn lemma_watch_run(ws: Seq<ClipWatcher>, snaps: Seq<Option<Snapshot>>, rs: Seq<Option<LocalClip>>, d: Seq<u8>)
    requires
        ws.len() == snaps.len() + 1,
        rs.len() == snaps.len(),
        forall|i: int| #![trigger snaps[i]] 0 <= i < snaps.len() ==> poll_step(ws[i], snaps[i], ws[i + 1], rs[i]),
        held(ws[0].suppress) == Some(d),
    ensures
        forall|i: int| #![trigger snaps[i]] 0 <= i < snaps.len() && rs[i] is Some
            ==> (snaps[i] matches Some(s) && !s.concealed),
        forall|j: int| #![trigger snaps[j]] 0 <= j < snaps.len() && sees_new_content(ws[j], snaps[j], d)
            && (forall|i: int| 0 <= i < j ==> !sees_new_content(ws[i], snaps[i], d))
            ==> rs[j] is None,
        forall|j: int| #![trigger snaps[j]] 0 <= j < snaps.len() && rs[j] is Some
            && (forall|i: int| 0 <= i < j ==> !sees_new_content(ws[i], snaps[i], d))
            ==> (snaps[j] matches Some(s) && sha256_digest(spec_content(s)->0) != d),
{
    assert forall|i: int| #![trigger snaps[i]] 0 <= i < snaps.len() && rs[i] is Some
        implies (snaps[i] matches Some(s) && !s.concealed) by {
        assert(poll_step(ws[i], snaps[i], ws[i + 1], rs[i]));
    }
    assert forall|j: int| #![trigger snaps[j]] 0 <= j < snaps.len()
        && (forall|i: int| 0 <= i < j ==> !sees_new_content(ws[i], snaps[i], d))
        implies held(ws[j].suppress) == Some(d) by {
        lemma_suppress_held(ws, snaps, rs, d, j);
    }
    assert forall|j: int| #![trigger snaps[j]] 0 <= j < snaps.len() && sees_new_content(ws[j], snaps[j], d)
        && (forall|i: int| 0 <= i < j ==> !sees_new_content(ws[i], snaps[i], d))
        implies rs[j] is None by {
        lemma_suppress_held(ws, snaps, rs, d, j);
        assert(poll_step(ws[j], snaps[j], ws[j + 1], rs[j]));
    }
    assert forall|j: int| #![trigger snaps[j]] 0 <= j < snaps.len() && rs[j] is Some
        && (forall|i: int| 0 <= i < j ==> !sees_new_content(ws[i], snaps[i], d))
        implies (snaps[j] matches Some(s) && sha256_digest(spec_content(s)->0) != d) by {
        lemma_suppress_held(ws, snaps, rs, d, j);
        assert(poll_step(ws[j], snaps[j], ws[j + 1], rs[j]));
    }
}

/// Until a poll sees new content with digest `d`, the digest stays held.
proof fn lemma_suppress_held(ws: Seq<ClipWatcher>, snaps: Seq<Option<Snapshot>>, rs: Seq<Option<LocalClip>>, d: Seq<u8>, n: int)
    requires
        ws.len() == snaps.len() + 1,
        rs.len() == snaps.len(),
        forall|i: int| #![trigger snaps[i]] 0 <= i < snaps.len() ==> poll_step(ws[i], snaps[i], ws[i + 1], rs[i]),
        held(ws[0].suppress) == Some(d),
        0 <= n <= snaps.len(),
        forall|i: int| 0 <= i < n ==> !sees_new_content(ws[i], snaps[i], d),
    ensures
        held(ws[n].suppress) == Some(d),
    decreases n,
{
    if n > 0 {
        lemma_suppress_held(ws, snaps, rs, d, n - 1);
        assert(poll_step(ws[n - 1], snaps[n - 1], ws[n], rs[n - 1]));
        assert(!sees_new_content(ws[n - 1], snaps[n - 1], d));
    }
}

impl ClipWatcher {
    /// A watcher that starts from the clipboard's current token.
    pub fn new(initial_token: Option<i64>) -> (w: ClipWatcher)
        ensures w.last_token == initial_token, w.suppress is None,
    {
        ClipWatcher { last_token: initial_token, suppress: None }
    }

    /// About to write remote text: its echo will be suppressed.
    pub fn will_write_text(&mut self, text: &str)
        ensures
            held(final(self).suppress) == Some(sha256_digest(text.spec_bytes())),
            final(self).last_token == old(self).last_token,
    {
        self.suppress = Some(sha256(text.as_bytes()));
    }

    /// About to write a remote image: its echo will be suppressed.
    pub fn will_write_image(&mut self, png: &[u8])
        ensures
            held(final(self).suppress) == Some(sha256_digest(png@)),
            final(self).last_token == old(self).last_token,
    {
        self.suppress = Some(sha256(png));
    }

    /// After a write, the clipboard's token is the one to compare against.
    pub fn wrote(&mut self, token: Option<i64>)
        ensures final(self).last_token == token, final(self).suppress == old(self).suppress,
    {
        self.last_token = token;
    }

    /// One poll. Nothing is reported when the clipboard could not be read,
    /// its token is unchanged, the item is concealed, or it holds neither an
    /// image nor text. An image wins over text. Content equal to what was
    /// just written is the echo of that write: it is swallowed once.
    pub fn on_poll(&mut self, snap: Option<Snapshot>) -> (r: Option<LocalClip>)
        ensures
            poll_step(*old(self), snap, *final(self), r),
    {
        let s = match snap {
            Some(s) => s,
            None => return None,
        };
        match self.last_token {
            Some(t) => {
                if t == s.token {
                    return None;
                }
            },
            None => {},
        }
        self.last_token = Some(s.token);
        if s.concealed {
            return None;
        }
        let clip = match s.image_png {
            Some(p) => LocalClip::Image(p),
            None => match s.text {
                Some(t) => LocalClip::Text(t),
                None => return None,
            },
        };
        let h = match &clip {
            LocalClip::Text(t) => sha256(t.as_str().as_bytes()),
            LocalClip::Image(b) => sha256(b.as_slice()),
        };
        let echo = match &self.suppress {
            Some(x) => ct_eq(x, &h),
            None => false,
        };
        if echo {
            self.suppress = None;
            return None;
        }
        Some(clip)
    }
}

/// The text `qdrop paste` reports: the clipboard's text, when not empty.
pub fn paste_text(text: Option<String>) -> (r: Option<String>)
    ensures
        match r {
            Some(t) => text is Some && t@ == text->0@ && t@.len() > 0,
            None => text is None || text->0@.len() == 0,
        },
{
    match text {
        Some(t) => {
            if t.as_str().is_empty() { None } else { Some(t) }
        },
        None => None,
    }
}

/// The little-endian value of eight bytes.
pub open spec fn le8(b: Seq<u8>) -> int {
    b[0] + 256 * (b[1] + 256 * (b[2] + 256 * (b[3] + 256 * (b[4] + 256 * (b[5] + 256 * (b[6] + 256 * b[7] as int))))))
}

/// The bytes hashed for a change token: `t` and the text, then `i` and the
/// PNG bytes, each part only when present.
pub open spec fn token_input(text: Option<Seq<char>>, png: Option<Seq<u8>>) -> Seq<u8> {
    let t = match text { Some(s) => seq![116u8] + encode_utf8(s), None => Seq::empty() };
    let i = match png { Some(p) => seq![105u8] + p, None => Seq::empty() };
    t + i
}

/// The change token of clipboard content on platforms without a change
/// counter: the first eight bytes of a digest of the content, little-endian.
pub fn content_token(text: Option<&str>, png: Option<&[u8]>) -> (t: i64)
    ensures
        t == (le8(sha256_digest(token_input(
            match text { Some(s) => Some(s@), None => None },
            match png { Some(p) => Some(p@), None => None },
        ))) as u64) as i64,
{
    let mut input: Vec<u8> = Vec::new();
    match text {
        Some(s) => {
            input.push(116u8);
            let b = s.as_bytes();
            let mut i: usize = 0;
            while i < b.len()
                invariant
                    i <= b@.len(),
                    input@ == seq![116u8] + b@.subrange(0, i as int),
                decreases b@.len() - i,
            {
                input.push(b[i]);
                proof { assert(b@.subrange(0, i + 1) =~= b@.subrange(0, i as int).push(b@[i as int])); }
                i += 1;
            }
            proof { assert(b@.subrange(0, b@.len() as int) =~= b@); }
        },
        None => {},
    }
    let ghost after_text = input@;
    match png {
        Some(p) => {
            input.push(105u8);
            let mut i: usize = 0;
            while i < p.len()
                invariant
                    i <= p@.len(),
                    input@ == after_text + seq![105u8] + p@.subrange(0, i as int),
                decreases p@.len() - i,
            {
                input.push(p[i]);
                proof { assert(p@.subrange(0, i + 1) =~= p@.subrange(0, i as int).push(p@[i as int])); }
                i += 1;
            }
            proof { assert(p@.subrange(0, p@.len() as int) =~= p@); }
        },
        None => {},
    }
    proof {
        let ti = token_input(
            match text { Some(s) => Some(s@), None => None },
            match png { Some(p) => Some(p@), None => None },
        );
        assert(input@ =~= ti);
    }
    let d = sha256(input.as_slice());
    let v: u64 = (d[0] as u64) + 256 * ((d[1] as u64) + 256 * ((d[2] as u64) + 256 * ((d[3] as u64)
        + 256 * ((d[4] as u64) + 256 * ((d[5] as u64) + 256 * ((d[6] as u64) + 256 * (d[7] as u64)))))));
    v as i64
}

} // verus!
