//! Wire protocol: message types and capability negotiation.

use vstd::prelude::*;
use vstd::slice::slice_to_vec;
use vstd::string::StringSliceAdditionalSpecFns;
use crate::text::{chars_of, eq_ignore_ascii_case, has_char, is_control, is_ctrl, is_whitespace, is_ws, lower_seq, slice_chars, starts_with, string_from, trim, trim_bounds, utf8_len};

verus! {

/// Bumped on any incompatible change to the message set or framing.
pub const PROTOCOL_VERSION: u32 = 1;

/// Capabilities a peer advertises in its `Hello`. The effective set for a
/// connection is the intersection of both sides' caps.
#[derive(Debug, Clone, Copy, PartialEq, Eq, Structural)]
pub struct Caps {
    pub clipboard_text: bool,
    pub clipboard_images: bool,
    pub file_send: bool,
    pub open_url: bool,
    pub auth: bool,
}

impl Caps {
    /// No capabilities.
    pub open spec fn spec_none() -> Caps {
        Caps { clipboard_text: false, clipboard_images: false, file_send: false, open_url: false, auth: false }
    }

    /// Everything this build knows how to do.
    pub open spec fn spec_all() -> Caps {
        Caps { clipboard_text: true, clipboard_images: true, file_send: true, open_url: true, auth: true }
    }

    /// No capabilities.
    pub fn none() -> (c: Caps)
        ensures c == Caps::spec_none(),
    {
        Caps { clipboard_text: false, clipboard_images: false, file_send: false, open_url: false, auth: false }
    }

    /// Everything this build knows how to do.
    pub fn all() -> (c: Caps)
        ensures c == Caps::spec_all(),
    {
        Caps { clipboard_text: true, clipboard_images: true, file_send: true, open_url: true, auth: true }
    }

    /// Field-wise conjunction of two capability sets.
    pub open spec fn meet(self, other: Caps) -> Caps {
        Caps {
            clipboard_text: self.clipboard_text && other.clipboard_text,
            clipboard_images: self.clipboard_images && other.clipboard_images,
            file_send: self.file_send && other.file_send,
            open_url: self.open_url && other.open_url,
            auth: self.auth && other.auth,
        }
    }

    /// The capabilities both sides share.
    pub fn intersect(self, other: Caps) -> (c: Caps)
        ensures c == self.meet(other),
    {
        Caps {
            clipboard_text: self.clipboard_text && other.clipboard_text,
            clipboard_images: self.clipboard_images && other.clipboard_images,
            file_send: self.file_send && other.file_send,
            open_url: self.open_url && other.open_url,
            auth: self.auth && other.auth,
        }
    }
}

/// Negotiation is symmetric: both ends of a connection compute the same
/// effective capability set.
pub proof fn lemma_intersect_commutes(a: Caps, b: Caps)
    ensures a.meet(b) == b.meet(a),
{
}


/// Identifying facts a device shares during the authorization exchange.
/// None of it is a security boundary: the pinned key is.
#[derive(Debug, Clone, PartialEq, Eq)]
pub struct DeviceInfo {
    pub hostname: String,
    /// MAC addresses of non-loopback interfaces, lowercase `aa:bb:...`.
    pub macs: Vec<String>,
    /// Operating system name of the peer.
    pub os: String,
}

/// First frame each side sends after the connection opens.
#[derive(Debug, Clone, PartialEq, Eq)]
pub struct Hello {
    pub protocol_version: u32,
    pub device_id: String,
    pub device_name: String,
    pub caps: Caps,
}

/// MIME type for the plain-text clipboard entry.
pub const MIME_TEXT: &'static str = "text/plain;charset=utf-8";
/// MIME type for clipboard images; PNG on the wire regardless of source.
pub const MIME_PNG: &'static str = "image/png";
/// Clipboard images at or below this size travel inline in a `Clipboard`
/// frame; larger ones go through the blob path.
pub const CLIP_IMAGE_INLINE_MAX: usize = 262144;
/// Blob chunk size on the wire.
pub const BLOB_CHUNK: usize = 65536;

/// What a blob transfer is for.
#[derive(Debug, Clone, Copy, PartialEq, Eq, Structural)]
pub enum BlobPurpose {
    /// A file, saved to the downloads directory.
    File,
    /// A clipboard image, applied to the local clipboard.
    ClipboardImage,
}

impl BlobPurpose {
    /// The purpose assumed when a peer leaves it out: a file.
    pub fn default_purpose() -> (p: BlobPurpose)
        ensures p == BlobPurpose::File,
    {
        BlobPurpose::File
    }
}

/// One typed payload in a clipboard update.
#[derive(Debug, Clone, PartialEq, Eq)]
pub struct ClipEntry {
    pub mime: String,
    pub data: Vec<u8>,
}

/// `"text/"`, the prefix of every text MIME type.
pub open spec fn text_prefix() -> Seq<char> {
    seq!['t', 'e', 'x', 't', '/']
}

/// `"image/"`, the prefix of every image MIME type.
pub open spec fn image_prefix() -> Seq<char> {
    seq!['i', 'm', 'a', 'g', 'e', '/']
}

/// `p` is a prefix of `s`.
pub open spec fn is_prefix(p: Seq<char>, s: Seq<char>) -> bool {
    p.len() <= s.len() && s.subrange(0, p.len() as int) == p
}

/// `std::str::from_utf8`: `Some` exactly when the bytes are valid UTF-8,
/// and then a string slice whose encoding is those bytes.
#[verifier::external_body]
fn utf8_str(data: &[u8]) -> (r: Option<&str>)
    ensures
        r is Some <==> vstd::utf8::valid_utf8(data@),
        r matches Some(t) ==> t.spec_bytes() == data@,
{
    std::str::from_utf8(data).ok()
}

impl ClipEntry {
    /// A plain-text entry holding the UTF-8 bytes of `s`.
    pub fn text(s: &str) -> (e: ClipEntry)
        ensures
            e.mime@ == MIME_TEXT@,
            e.data@ == s.spec_bytes(),
    {
        ClipEntry { mime: String::from_str(MIME_TEXT), data: slice_to_vec(s.as_bytes()) }
    }

    /// A PNG image entry.
    pub fn png(bytes: Vec<u8>) -> (e: ClipEntry)
        ensures
            e.mime@ == MIME_PNG@,
            e.data@ == bytes@,
    {
        ClipEntry { mime: String::from_str(MIME_PNG), data: bytes }
    }

    /// The entry's text, if it is a text MIME type and valid UTF-8.
    pub fn as_text(&self) -> (r: Option<&str>)
        ensures
            r is Some <==> (is_prefix(text_prefix(), self.mime@) && vstd::utf8::valid_utf8(self.data@)),
            r matches Some(t) ==> t.spec_bytes() == self.data@,
    {
        let m = chars_of(self.mime.as_str());
        let p: [char; 5] = ['t', 'e', 'x', 't', '/'];
        proof { assert(p@ =~= text_prefix()); }
        if starts_with(m.as_slice(), p.as_slice()) {
            utf8_str(self.data.as_slice())
        } else {
            None
        }
    }

    /// The entry's bytes, if it is an image.
    pub fn as_image(&self) -> (r: Option<&[u8]>)
        ensures
            r is Some <==> is_prefix(image_prefix(), self.mime@),
            r matches Some(b) ==> b@ == self.data@,
    {
        let m = chars_of(self.mime.as_str());
        let p: [char; 6] = ['i', 'm', 'a', 'g', 'e', '/'];
        proof { assert(p@ =~= image_prefix()); }
        if starts_with(m.as_slice(), p.as_slice()) {
            Some(self.data.as_slice())
        } else {
            None
        }
    }
}

/// Every frame on the wire.
#[derive(Debug, Clone, PartialEq, Eq)]
pub enum Message {
    Hello(Hello),
    Ping { seq: u64 },
    Pong { seq: u64 },
    /// A clipboard update. `origin_id` is the device the copy happened on
    /// and `seq` is monotonic per origin; together they let receivers drop
    /// echoes.
    Clipboard { seq: u64, origin_id: String, entries: Vec<ClipEntry> },
    /// Begin a blob transfer. `name` is a bare filename; the receiver
    /// sanitises it again regardless.
    BlobStart { id: u64, name: String, size: u64, purpose: BlobPurpose },
    /// One chunk of a blob. Chunks for a given `id` arrive in order.
    BlobChunk { id: u64, data: Vec<u8> },
    /// End a blob transfer; `sha256` is the digest of the whole payload.
    BlobEnd { id: u64, sha256: [u8; 32] },
    /// Receiver's verdict on a completed (or rejected) transfer.
    BlobAck { id: u64, ok: bool, detail: String },
    /// Ask the peer to open a URL in its default handler.
    OpenUrl { url: String },
    /// Ask the peer to pre-authorize us as an unattended sender; `mutual`
    /// asks it to be authorized back in the same exchange.
    AuthRequest { mutual: bool, info: DeviceInfo },
    /// Reply to an `AuthRequest` with the replier's details.
    AuthReply { ok: bool, info: DeviceInfo },
}

// ---------------------------------------------------------------------------
// URL allowlist

/// Characters no allowed URL may contain: controls, white space, quotes
/// and backticks.
pub open spec fn url_forbidden(c: char) -> bool {
    is_ctrl(c) || is_ws(c) || c == '"' || c == '\'' || c == '`'
}

/// `p` is the position of the first `:` in `t`.
pub open spec fn first_colon_at(t: Seq<char>, p: int) -> bool {
    0 <= p < t.len() && t[p] == ':' && forall|j: int| 0 <= j < p ==> t[j] != ':'
}

pub open spec fn http_seq() -> Seq<char> { seq!['h', 't', 't', 'p'] }
pub open spec fn https_seq() -> Seq<char> { seq!['h', 't', 't', 'p', 's'] }
pub open spec fn mailto_seq() -> Seq<char> { seq!['m', 'a', 'i', 'l', 't', 'o'] }

/// What an allowed scheme requires of the rest of the URL: `http` and
/// `https` need `//` and a non-empty authority, `mailto` an `@`. No other
/// scheme is allowed.
pub open spec fn scheme_target_ok(scheme: Seq<char>, rest: Seq<char>) -> bool {
    let s = lower_seq(scheme);
    if s == http_seq() || s == https_seq() {
        rest.len() > 2 && rest[0] == '/' && rest[1] == '/'
    } else if s == mailto_seq() {
        rest.contains('@')
    } else {
        false
    }
}

/// Whether `u` may be handed to the peer's URL opener: after trimming it is
/// non-empty, at most 4096 UTF-8 bytes, free of controls, white space and
/// quotes, and of the form `http://…`, `https://…` or `mailto:…@…`
/// (scheme compared case-insensitively).
pub open spec fn url_allowed(u: Seq<char>) -> bool {
    let t = trim(u);
    &&& t.len() > 0
    &&& vstd::utf8::encode_utf8(t).len() <= 4096
    &&& forall|i: int| 0 <= i < t.len() ==> !url_forbidden(#[trigger] t[i])
    &&& exists|p: int| #[trigger] first_colon_at(t, p)
        && scheme_target_ok(t.subrange(0, p), t.subrange(p + 1, t.len() as int))
}

/// Only `http`, `https` and `mailto` URLs are ever allowed: the text before
/// the first colon is one of those schemes, in any letter case.
pub proof fn lemma_allowed_schemes(u: Seq<char>)
    ensures
        url_allowed(u) ==> exists|p: int| #[trigger] first_colon_at(trim(u), p) && {
            let s = lower_seq(trim(u).subrange(0, p));
            s == http_seq() || s == https_seq() || s == mailto_seq()
        },
{
}

/// Whether `url` is safe to hand to `open` / `xdg-open` on the peer.
pub fn is_allowed_url(url: &str) -> (b: bool)
    ensures b == url_allowed(url@),
{
    let all = chars_of(url);
    let (lo, hi) = trim_bounds(all.as_slice());
    let t = slice_chars(all.as_slice(), lo, hi);
    let ghost tt = trim(url@);
    assert(t@ == tt);
    if t.len() == 0 {
        return false;
    }
    if utf8_len(t.as_slice()) > 4096 {
        return false;
    }
    let mut i: usize = 0;
    while i < t.len()
        invariant
            t@ == trim(url@),
            i <= t@.len(),
            forall|j: int| 0 <= j < i ==> !url_forbidden(#[trigger] t@[j]),
        decreases t@.len() - i,
    {
        let c = t[i];
        if is_control(c) || is_whitespace(c) || c == '"' || c == '\'' || c == '`' {
            assert(url_forbidden(t@[i as int]));
            return false;
        }
        i += 1;
    }
    let mut p: usize = 0;
    while p < t.len() && t[p] != ':'
        invariant
            p <= t@.len(),
            forall|j: int| 0 <= j < p ==> t@[j] != ':',
        decreases t@.len() - p,
    {
        p += 1;
    }
    if p == t.len() {
        assert forall|q: int| !#[trigger] first_colon_at(tt, q) by {
            if first_colon_at(tt, q) {
                assert(t@[q] != ':');
            }
        }
        return false;
    }
    assert(first_colon_at(tt, p as int));
    assert forall|q: int| #[trigger] first_colon_at(tt, q) implies q == p by {
        if q < p {
            assert(t@[q] != ':');
        } else if q > p {
            assert(tt[p as int] != ':');
        }
    }
    let scheme = slice_chars(t.as_slice(), 0, p);
    let rest = slice_chars(t.as_slice(), p + 1, t.len());
    let http: [char; 4] = ['h', 't', 't', 'p'];
    let https: [char; 5] = ['h', 't', 't', 'p', 's'];
    let mailto: [char; 6] = ['m', 'a', 'i', 'l', 't', 'o'];
    proof {
        assert(http@ =~= http_seq());
        assert(https@ =~= https_seq());
        assert(mailto@ =~= mailto_seq());
        assert(lower_seq(http_seq()) =~= http_seq());
        assert(lower_seq(https_seq()) =~= https_seq());
        assert(lower_seq(mailto_seq()) =~= mailto_seq());
    }
    let ok = if eq_ignore_ascii_case(&scheme, http.as_slice()) || eq_ignore_ascii_case(&scheme, https.as_slice()) {
        rest.len() > 2 && rest[0] == '/' && rest[1] == '/'
    } else if eq_ignore_ascii_case(&scheme, mailto.as_slice()) {
        has_char(rest.as_slice(), '@')
    } else {
        false
    };
    assert(ok == scheme_target_ok(scheme@, rest@));
    ok
}

// ---------------------------------------------------------------------------
// Blob file names

/// `t` split at every `/` (`"a//b"` gives `["a", "", "b"]`; there is always
/// at least one piece).
pub open spec fn split_slash(t: Seq<char>) -> Seq<Seq<char>>
    decreases t.len(),
{
    if t.len() == 0 {
        seq![Seq::<char>::empty()]
    } else {
        let p = split_slash(t.drop_last());
        if t.last() == '/' {
            p.push(Seq::<char>::empty())
        } else {
            p.update(p.len() - 1, p.last().push(t.last()))
        }
    }
}

pub proof fn lemma_split_slash_nonempty(t: Seq<char>)
    ensures split_slash(t).len() >= 1,
    decreases t.len(),
{
    if t.len() > 0 {
        lemma_split_slash_nonempty(t.drop_last());
    }
}

/// A piece that names a path component: not empty and not `.`.
pub open spec fn names_component(seg: Seq<char>) -> bool {
    seg.len() > 0 && seg != seq!['.']
}

/// The pieces of `t` that are path components (`Path::components` on a
/// relative Unix path drops empty pieces and `.`).
pub open spec fn component_pieces(t: Seq<char>) -> Seq<Seq<char>> {
    split_slash(t).filter(comp_pred())
}

/// `names_component` as a predicate value.
pub open spec fn comp_pred() -> spec_fn(Seq<char>) -> bool {
    |seg: Seq<char>| names_component(seg)
}

/// The safe basename an incoming blob name stands for, if any. After
/// trimming, the name must be exactly one normal path component: not
/// empty, not `.` or `..`, not absolute, not starting with `./`, with only
/// empty or `.` pieces besides that one component, which itself must not be
/// `..` nor contain a backslash.
pub open spec fn blob_name(name: Seq<char>) -> Option<Seq<char>> {
    let t = trim(name);
    if t.len() == 0 || t == seq!['.'] || t == seq!['.', '.'] || t[0] == '/'
        || (t.len() >= 2 && t[0] == '.' && t[1] == '/') {
        None
    } else {
        let k = component_pieces(t);
        if k.len() == 1 && k[0] != seq!['.', '.'] && !k[0].contains('\\') {
            Some(k[0])
        } else {
            None
        }
    }
}

/// No piece of a split contains a `/`.
pub proof fn lemma_split_pieces_slash_free(t: Seq<char>)
    ensures forall|i: int| 0 <= i < split_slash(t).len() ==> !(#[trigger] split_slash(t)[i]).contains('/'),
    decreases t.len(),
{
    if t.len() > 0 {
        let p = split_slash(t.drop_last());
        lemma_split_pieces_slash_free(t.drop_last());
        lemma_split_slash_nonempty(t.drop_last());
        if t.last() != '/' {
            let last = p.last().push(t.last());
            assert(!last.contains('/')) by {
                if last.contains('/') {
                    let q = choose|q: int| 0 <= q < last.len() && last[q] == '/';
                    if q < last.len() - 1 {
                        assert(p.last()[q] == '/');
                        assert(p[p.len() - 1].contains('/'));
                    }
                }
            }
            assert forall|i: int| 0 <= i < split_slash(t).len() implies !(#[trigger] split_slash(t)[i]).contains('/') by {
                if i < p.len() - 1 {
                    assert(split_slash(t)[i] == p[i]);
                }
            }
        } else {
            assert forall|i: int| 0 <= i < split_slash(t).len() implies !(#[trigger] split_slash(t)[i]).contains('/') by {
                if i < p.len() {
                    assert(split_slash(t)[i] == p[i]);
                } else {
                    assert(split_slash(t)[i] =~= Seq::<char>::empty());
                }
            }
        }
    }
}

/// A sanitised blob name is a single plain file name: not empty, not `.`
/// or `..`, and free of `/` and `\`, so it cannot leave the directory it
/// is saved in.
pub proof fn lemma_blob_name_safe(name: Seq<char>)
    ensures
        blob_name(name) matches Some(s) ==> {
            &&& s.len() > 0
            &&& s != seq!['.']
            &&& s != seq!['.', '.']
            &&& !s.contains('/')
            &&& !s.contains('\\')
        },
{
    if blob_name(name) is Some {
        let t = trim(name);
        let k = component_pieces(t);
        let s = k[0];
        split_slash(t).lemma_filter_pred(comp_pred(), 0);
        split_slash(t).lemma_filter_contains_rev(comp_pred(), s);
        assert(k.contains(s));
        let j = choose|j: int| 0 <= j < split_slash(t).len() && split_slash(t)[j] == s;
        lemma_split_pieces_slash_free(t);
        assert(!split_slash(t)[j].contains('/'));
    }
}

/// Validate an incoming blob filename. Returns the safe basename, or `None`
/// if it tries to escape the download directory.
pub fn safe_blob_name(name: &str) -> (r: Option<String>)
    ensures
        match r {
            Some(s) => blob_name(name@) == Some(s@),
            None => blob_name(name@) is None,
        },
{
    let all = chars_of(name);
    let (lo, hi) = trim_bounds(all.as_slice());
    let t = slice_chars(all.as_slice(), lo, hi);
    let ghost tt = trim(name@);
    assert(t@ == tt);
    let n = t.len();
    if n == 0 {
        return None;
    }
    if n == 1 && t[0] == '.' {
        assert(tt =~= seq!['.']);
        return None;
    }
    if n == 2 && t[0] == '.' && t[1] == '.' {
        assert(tt =~= seq!['.', '.']);
        return None;
    }
    if t[0] == '/' || (n >= 2 && t[0] == '.' && t[1] == '/') {
        return None;
    }
    assert(tt != seq!['.']) by { if n == 1 { assert(tt[0] != seq!['.'][0]); } else { assert(tt.len() != 1); } }
    assert(tt != seq!['.', '.']) by {
        if n == 2 { assert(!(tt[0] == '.' && tt[1] == '.')); } else { assert(tt.len() != 2); }
    }
    let ghost pred = comp_pred();
    // Scan pieces left to right: `cur` is the piece being read, `count` and
    // `last` describe the component pieces already completed.
    let mut cur: Vec<char> = Vec::new();
    let mut count: usize = 0;
    let mut last: Vec<char> = Vec::new();
    let mut i: usize = 0;
    proof {
        assert(t@.subrange(0, 0) =~= Seq::<char>::empty());
        reveal_with_fuel(Seq::filter, 1);
    }
    while i < n
        invariant
            n == t@.len(),
            i <= n,
            split_slash(t@.subrange(0, i as int)).len() >= 1,
            cur@ == split_slash(t@.subrange(0, i as int)).last(),
            count == split_slash(t@.subrange(0, i as int)).drop_last().filter(pred).len(),
            count + cur@.len() <= i,
            count > 0 ==> last@ == split_slash(t@.subrange(0, i as int)).drop_last().filter(pred).last(),
            pred == comp_pred(),
        decreases n - i,
    {
        let ghost pre = t@.subrange(0, i as int);
        let ghost p = split_slash(pre);
        let c = t[i];
        let ghost post = t@.subrange(0, i + 1);
        assert(post.drop_last() =~= pre);
        assert(post.last() == c);
        if c == '/' {
            let is_comp = cur.len() > 0 && !(cur.len() == 1 && cur[0] == '.');
            assert(is_comp == names_component(cur@)) by {
                if cur@.len() == 1 { if cur@ == seq!['.'] { assert(cur@[0] == '.'); } else { assert(cur@ =~= seq![cur@[0]]); } }
            }
            let ghost q = split_slash(post);
            assert(q == p.push(Seq::<char>::empty()));
            assert(q.drop_last() =~= p);
            assert(p =~= p.drop_last().push(p.last()));
            reveal_with_fuel(Seq::filter, 1);
            assert(p.filter(pred) == (if pred(p.last()) { p.drop_last().filter(pred).push(p.last()) } else { p.drop_last().filter(pred) }));
            if is_comp {
                count += 1;
                last = cur;
            }
            cur = Vec::new();
            proof {
                lemma_split_slash_nonempty(post);
                assert(cur@ =~= q.last());
            }
        } else {
            let ghost q = split_slash(post);
            assert(q == p.update(p.len() - 1, p.last().push(c)));
            assert(q.drop_last() =~= p.drop_last());
            cur.push(c);
            proof { lemma_split_slash_nonempty(post); }
        }
        i += 1;
    }
    let ghost p = split_slash(t@);
    assert(t@.subrange(0, n as int) =~= t@);
    assert(p =~= p.drop_last().push(p.last()));
    let is_comp = cur.len() > 0 && !(cur.len() == 1 && cur[0] == '.');
    assert(is_comp == names_component(cur@)) by {
        if cur@.len() == 1 { if cur@ == seq!['.'] { assert(cur@[0] == '.'); } else { assert(cur@ =~= seq![cur@[0]]); } }
    }
    proof {
        reveal_with_fuel(Seq::filter, 1);
        assert(p.filter(pred) == (if pred(p.last()) { p.drop_last().filter(pred).push(p.last()) } else { p.drop_last().filter(pred) }));
        assert(component_pieces(tt) == p.filter(pred));
    }
    let total = if is_comp { count + 1 } else { count };
    if total != 1 {
        return None;
    }
    let the_one = if is_comp { cur } else { last };
    proof {
        let k = component_pieces(tt);
        assert(k.len() == 1);
        assert(the_one@ == k[0]);
    }
    let dotdot = the_one.len() == 2 && the_one[0] == '.' && the_one[1] == '.';
    assert(dotdot == (the_one@ == seq!['.', '.'])) by {
        if the_one@.len() == 2 && !dotdot {
            assert(!(the_one@[0] == '.' && the_one@[1] == '.'));
        }
        if dotdot { assert(the_one@ =~= seq!['.', '.']); }
    }
    if dotdot || has_char(the_one.as_slice(), '\\') {
        return None;
    }
    Some(string_from(the_one.as_slice()))
}

} // verus!
