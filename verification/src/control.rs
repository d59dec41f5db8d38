//! The daemon's control channel (newline-delimited JSON over a Unix
//! socket): the runtime toggles it flips and what each request does, plus
//! the quoting used for desktop notifications.

use vstd::prelude::*;
use crate::filexfer::SendOutcome;
use crate::text::{chars_of, string_from};

verus! {

/// Runtime toggles shared with clipboard sync. `sync_images` mirrors the
/// configuration and is refreshed when it changes, without a restart.
#[derive(Debug, Clone, Copy, PartialEq, Eq, Structural)]
pub struct Controls {
    pub clipboard_paused: bool,
    pub sync_images: bool,
}

impl Controls {
    /// Sync running, images off.
    pub fn new() -> (c: Controls)
        ensures !c.clipboard_paused, !c.sync_images,
    {
        Controls { clipboard_paused: false, sync_images: false }
    }

    /// Whether clipboard sync is paused.
    pub fn clipboard_paused(&self) -> (b: bool)
        ensures b == self.clipboard_paused,
    {
        self.clipboard_paused
    }

    /// Pause or resume clipboard sync.
    pub fn set_clipboard_paused(&mut self, v: bool)
        ensures final(self).clipboard_paused == v, final(self).sync_images == old(self).sync_images,
    {
        self.clipboard_paused = v;
    }

    /// Whether clipboard images are synced.
    pub fn sync_images(&self) -> (b: bool)
        ensures b == self.sync_images,
    {
        self.sync_images
    }

    /// Turn image sync on or off.
    pub fn set_sync_images(&mut self, v: bool)
        ensures final(self).sync_images == v, final(self).clipboard_paused == old(self).clipboard_paused,
    {
        self.sync_images = v;
    }
}

/// A control request.
#[derive(Debug, Clone, PartialEq, Eq)]
pub enum ControlRequest {
    ClipPause,
    ClipResume,
    ClipStatus,
    Status,
    Send { paths: Vec<String>, to: Option<String> },
    Open { url: String, to: Option<String> },
}

/// What the daemon does for a request, after applying any toggle.
#[derive(Debug, Clone, PartialEq, Eq)]
pub enum ControlAction {
    /// Answer with the status (paused flag and connected peers).
    ReportStatus,
    /// Send these files and answer with the outcomes.
    SendFiles { paths: Vec<String>, to: Option<String> },
    /// Push this link and answer with how many peers it reached.
    OpenUrl { url: String, to: Option<String> },
}

/// Apply a request's toggle and say what else to do: pausing and resuming
/// flip the clipboard toggle and report status; the status requests only
/// report; sends and links are handed on.
pub fn apply_request(controls: &mut Controls, req: ControlRequest) -> (a: ControlAction)
    ensures
        final(controls).sync_images == old(controls).sync_images,
        match req {
            ControlRequest::ClipPause => final(controls).clipboard_paused && a is ReportStatus,
            ControlRequest::ClipResume => !final(controls).clipboard_paused && a is ReportStatus,
            ControlRequest::ClipStatus | ControlRequest::Status =>
                final(controls).clipboard_paused == old(controls).clipboard_paused && a is ReportStatus,
            ControlRequest::Send { paths, to } =>
                final(controls).clipboard_paused == old(controls).clipboard_paused
                && a == ControlAction::SendFiles { paths, to },
            ControlRequest::Open { url, to } =>
                final(controls).clipboard_paused == old(controls).clipboard_paused
                && a == ControlAction::OpenUrl { url, to },
        },
{
    match req {
        ControlRequest::ClipPause => {
            controls.set_clipboard_paused(true);
            ControlAction::ReportStatus
        },
        ControlRequest::ClipResume => {
            controls.set_clipboard_paused(false);
            ControlAction::ReportStatus
        },
        ControlRequest::ClipStatus | ControlRequest::Status => ControlAction::ReportStatus,
        ControlRequest::Send { paths, to } => ControlAction::SendFiles { paths, to },
        ControlRequest::Open { url, to } => ControlAction::OpenUrl { url, to },
    }
}

/// A send succeeded when there was at least one outcome and all were ok.
pub fn send_ok(outcomes: &Vec<SendOutcome>) -> (b: bool)
    ensures b == (outcomes@.len() > 0 && forall|i: int| 0 <= i < outcomes@.len() ==> #[trigger] outcomes@[i].ok),
{
    if outcomes.len() == 0 {
        return false;
    }
    let mut i: usize = 0;
    while i < outcomes.len()
        invariant
            i <= outcomes@.len(),
            forall|j: int| 0 <= j < i ==> #[trigger] outcomes@[j].ok,
        decreases outcomes@.len() - i,
    {
        if !outcomes[i].ok {
            return false;
        }
        i += 1;
    }
    true
}

/// The request line a client sends for a bare command:
/// `{"cmd":"<cmd>"}` and a newline.
pub open spec fn spec_request_line(cmd: Seq<char>) -> Seq<char> {
    seq!['{', '"', 'c', 'm', 'd', '"', ':', '"'] + cmd + seq!['"', '}', '\n']
}

/// The request line for a bare command.
pub fn request_line(cmd: &str) -> (r: String)
    ensures r@ == spec_request_line(cmd@),
{
    let mut v: Vec<char> = Vec::new();
    let pre: [char; 8] = ['{', '"', 'c', 'm', 'd', '"', ':', '"'];
    let c = chars_of(cmd);
    let mut i: usize = 0;
    while i < 8
        invariant
            i <= 8,
            v@ == pre@.subrange(0, i as int),
        decreases 8 - i,
    {
        v.push(pre[i]);
        proof { assert(pre@.subrange(0, i + 1) =~= pre@.subrange(0, i as int).push(pre@[i as int])); }
        i += 1;
    }
    let mut j: usize = 0;
    while j < c.len()
        invariant
            j <= c@.len(),
            v@ == pre@ + c@.subrange(0, j as int),
        decreases c@.len() - j,
    {
        v.push(c[j]);
        proof { assert(c@.subrange(0, j + 1) =~= c@.subrange(0, j as int).push(c@[j as int])); }
        j += 1;
    }
    v.push('"');
    v.push('}');
    v.push('\n');
    proof {
        assert(c@.subrange(0, c@.len() as int) =~= c@);
        assert(v@ =~= spec_request_line(cmd@));
    }
    string_from(v.as_slice())
}

/// The AppleScript quoting of one character: `"` and `\` escaped, a line
/// break turned into a space.
pub open spec fn quote_char(c: char) -> Seq<char> {
    if c == '"' || c == '\\' {
        seq!['\\', c]
    } else if c == '\n' {
        seq![' ']
    } else {
        seq![c]
    }
}

/// The quoting of a run of characters.
pub open spec fn quote_body(s: Seq<char>) -> Seq<char>
    decreases s.len(),
{
    if s.len() == 0 { Seq::empty() } else { quote_body(s.drop_last()) + quote_char(s.last()) }
}

/// An AppleScript string literal holding `s`.
pub fn applescript_quote(s: &str) -> (r: String)
    ensures r@ == seq!['"'] + quote_body(s@) + seq!['"'],
{
    let v = chars_of(s);
    let mut out: Vec<char> = Vec::new();
    out.push('"');
    let mut i: usize = 0;
    while i < v.len()
        invariant
            i <= v@.len(),
            v@ == s@,
            out@ == seq!['"'] + quote_body(v@.subrange(0, i as int)),
        decreases v@.len() - i,
    {
        let c = v[i];
        let ghost pre = v@.subrange(0, i as int);
        proof {
            assert(v@.subrange(0, i + 1).drop_last() =~= pre);
            assert(v@.subrange(0, i + 1).last() == c);
        }
        if c == '"' || c == '\\' {
            out.push('\\');
            out.push(c);
            proof { assert(out@ =~= seq!['"'] + quote_body(pre) + quote_char(c)); }
        } else if c == '\n' {
            out.push(' ');
            proof { assert(out@ =~= seq!['"'] + quote_body(pre) + quote_char(c)); }
        } else {
            out.push(c);
            proof { assert(out@ =~= seq!['"'] + quote_body(pre) + quote_char(c)); }
        }
        i += 1;
    }
    out.push('"');
    proof { assert(v@.subrange(0, v@.len() as int) =~= s@); }
    string_from(out.as_slice())
}

/// The helper command that posts a desktop notification: on macOS
/// `osascript -e 'display notification <body> with title <summary>'`
/// (both AppleScript-quoted), elsewhere
/// `notify-send --app-name=qdrop <summary> <body>`.
pub fn notification_command(macos: bool, summary: &str, body: &str) -> (r: (String, Vec<String>))
    ensures
        macos ==> {
            &&& r.0@ == seq!['o', 's', 'a', 's', 'c', 'r', 'i', 'p', 't']
            &&& r.1@.len() == 2
            &&& r.1@[0]@ == seq!['-', 'e']
            &&& r.1@[1]@ == seq!['d', 'i', 's', 'p', 'l', 'a', 'y', ' ', 'n', 'o', 't', 'i', 'f', 'i', 'c', 'a', 't', 'i', 'o', 'n', ' ']
                + (seq!['"'] + quote_body(body@) + seq!['"'])
                + seq![' ', 'w', 'i', 't', 'h', ' ', 't', 'i', 't', 'l', 'e', ' ']
                + (seq!['"'] + quote_body(summary@) + seq!['"'])
        },
        !macos ==> {
            &&& r.0@ == seq!['n', 'o', 't', 'i', 'f', 'y', '-', 's', 'e', 'n', 'd']
            &&& r.1@.len() == 3
            &&& r.1@[0]@ == seq!['-', '-', 'a', 'p', 'p', '-', 'n', 'a', 'm', 'e', '=', 'q', 'd', 'r', 'o', 'p']
            &&& r.1@[1]@ == summary@
            &&& r.1@[2]@ == body@
        },
{
    let mut args: Vec<String> = Vec::new();
    if macos {
        let prog: [char; 9] = ['o', 's', 'a', 's', 'c', 'r', 'i', 'p', 't'];
        let e: [char; 2] = ['-', 'e'];
        let a: [char; 21] = ['d', 'i', 's', 'p', 'l', 'a', 'y', ' ', 'n', 'o', 't', 'i', 'f', 'i', 'c', 'a', 't', 'i', 'o', 'n', ' '];
        let w: [char; 12] = [' ', 'w', 'i', 't', 'h', ' ', 't', 'i', 't', 'l', 'e', ' '];
        let mut script: Vec<char> = Vec::new();
        push_all(&mut script, a.as_slice());
        push_all(&mut script, chars_of(applescript_quote(body).as_str()).as_slice());
        push_all(&mut script, w.as_slice());
        push_all(&mut script, chars_of(applescript_quote(summary).as_str()).as_slice());
        args.push(string_from(e.as_slice()));
        args.push(string_from(script.as_slice()));
        proof {
            assert(prog@ =~= seq!['o', 's', 'a', 's', 'c', 'r', 'i', 'p', 't']);
            assert(e@ =~= seq!['-', 'e']);
            assert(script@ =~= seq!['d', 'i', 's', 'p', 'l', 'a', 'y', ' ', 'n', 'o', 't', 'i', 'f', 'i', 'c', 'a', 't', 'i', 'o', 'n', ' ']
                + (seq!['"'] + quote_body(body@) + seq!['"'])
                + seq![' ', 'w', 'i', 't', 'h', ' ', 't', 'i', 't', 'l', 'e', ' ']
                + (seq!['"'] + quote_body(summary@) + seq!['"']));
        }
        (string_from(prog.as_slice()), args)
    } else {
        let prog: [char; 11] = ['n', 'o', 't', 'i', 'f', 'y', '-', 's', 'e', 'n', 'd'];
        let app: [char; 16] = ['-', '-', 'a', 'p', 'p', '-', 'n', 'a', 'm', 'e', '=', 'q', 'd', 'r', 'o', 'p'];
        args.push(string_from(app.as_slice()));
        args.push(summary.to_owned());
        args.push(body.to_owned());
        proof {
            assert(prog@ =~= seq!['n', 'o', 't', 'i', 'f', 'y', '-', 's', 'e', 'n', 'd']);
            assert(app@ =~= seq!['-', '-', 'a', 'p', 'p', '-', 'n', 'a', 'm', 'e', '=', 'q', 'd', 'r', 'o', 'p']);
        }
        (string_from(prog.as_slice()), args)
    }
}

/// Append the characters of `b` to `a`.
fn push_all(a: &mut Vec<char>, b: &[char])
    ensures final(a)@ == old(a)@ + b@,
{
    let ghost a0 = a@;
    let mut i: usize = 0;
    while i < b.len()
        invariant
            i <= b@.len(),
            a@ == a0 + b@.subrange(0, i as int),
        decreases b@.len() - i,
    {
        a.push(b[i]);
        proof { assert(b@.subrange(0, i + 1) =~= b@.subrange(0, i as int).push(b@[i as int])); }
        i += 1;
    }
    proof { assert(b@.subrange(0, b@.len() as int) =~= b@); }
}

} // verus!
