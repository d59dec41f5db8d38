//! Clipboard history: a small ring of recent clipboard entries, text and
//! images, newest first. An entry that repeats the newest one is not
//! recorded again; when the ring is full the oldest entries go, and the
//! image files they refer to are deleted. A maximum of 0 disables history.
//! Concealed or transient items never reach here.

use vstd::prelude::*;
use crate::crypto::{hex, hex_seq, sha256, sha256_digest};
use crate::filexfer::counted;
use crate::paths::{history_dir, join_spec};
use crate::peers::{first_with_id, has_id, Peers};
use crate::state::{decimal, decimal_chars, now_unix};
use crate::strmap::str_eq;
use crate::text::{chars_of, string_from};
use vstd::string::StringSliceAdditionalSpecFns;
use image::GenericImageView;

verus! {

/// What an entry holds.
#[derive(Debug, Clone, PartialEq, Eq)]
pub enum Body {
    Text { text: String },
    /// An image saved as `file` in the history directory.
    Image { file: String, w: u32, h: u32 },
}

/// One remembered clipboard item.
#[derive(Debug, Clone, PartialEq, Eq)]
pub struct Entry {
    pub body: Body,
    /// Seconds since the Unix epoch when it was recorded.
    pub when: u64,
    /// The device it was copied on (`local` for this one).
    pub origin: String,
    /// Hex SHA-256 of the content, for dedup.
    pub hash: String,
}

/// Restored content: text, or the image file to read back.
#[derive(Debug, Clone, PartialEq, Eq)]
pub enum Restored {
    Text(String),
    ImageFile(String),
}

/// One row of the history listing.
#[derive(Debug, Clone, PartialEq, Eq)]
pub struct ListItem {
    pub index: usize,
    /// `text` or `image`.
    pub kind: String,
    pub preview: String,
    pub when_unix: u64,
    /// The origin's name: `local`, a paired peer's name, or the first eight
    /// characters of its id.
    pub origin: String,
}

/// An image about to be recorded: its file, digest and size.
#[derive(Debug, Clone, PartialEq, Eq)]
pub struct ImagePlan {
    pub file: String,
    pub hash: String,
    pub w: u32,
    pub h: u32,
}

/// The ring, newest first.
pub struct HistoryRing {
    pub max: usize,
    pub entries: Vec<Entry>,
    /// Number of the next image file.
    pub next_file: u64,
}

/// The image files of a run of entries, in order.
pub open spec fn image_files(s: Seq<Entry>) -> Seq<Seq<char>>
    decreases s.len(),
{
    if s.len() == 0 {
        Seq::empty()
    } else {
        let rest = image_files(s.drop_last());
        match s.last().body {
            Body::Image { file, .. } => rest.push(file@),
            Body::Text { .. } => rest,
        }
    }
}

/// The first entry's hash is `h`.
pub open spec fn repeats_newest(q: Seq<Entry>, h: Seq<char>) -> bool {
    q.len() > 0 && q[0].hash@ == h
}

/// The ring after pushing `e` onto `q` with room for `max` entries.
pub open spec fn pushed(q: Seq<Entry>, e: Entry, max: nat) -> Seq<Entry> {
    if repeats_newest(q, e.hash@) {
        q
    } else {
        let n = seq![e] + q;
        if n.len() > max { n.subrange(0, max as int) } else { n }
    }
}

/// The entries a push evicts.
pub open spec fn evicted(q: Seq<Entry>, e: Entry, max: nat) -> Seq<Entry> {
    if repeats_newest(q, e.hash@) {
        Seq::empty()
    } else {
        let n = seq![e] + q;
        if n.len() > max { n.subrange(max as int, n.len() as int) } else { Seq::empty() }
    }
}

/// The ring never holds more than its maximum, and a new entry, unless it
/// repeats the newest one, is the newest afterwards.
pub proof fn lemma_ring_bounded(q: Seq<Entry>, e: Entry, max: nat)
    requires q.len() <= max, max > 0,
    ensures
        pushed(q, e, max).len() <= max,
        !repeats_newest(q, e.hash@) ==> pushed(q, e, max)[0] == e,
        repeats_newest(q, e.hash@) ==> pushed(q, e, max) == q,
{
}

/// What a push keeps and what it evicts make up the new entry followed by
/// the old ring, unless the entry repeated the newest one.
pub proof fn lemma_push_partition(q: Seq<Entry>, e: Entry, max: nat)
    requires !repeats_newest(q, e.hash@),
    ensures pushed(q, e, max) + evicted(q, e, max) == seq![e] + q,
{
    let n = seq![e] + q;
    if n.len() > max {
        assert(n.subrange(0, max as int) + n.subrange(max as int, n.len() as int) =~= n);
    } else {
        assert(n + Seq::<Entry>::empty() =~= n);
    }
}

/// `"local"`.
pub open spec fn local_seq() -> Seq<char> {
    seq!['l', 'o', 'c', 'a', 'l']
}

/// The first (at most) 60 characters of a text, line breaks shown as `⏎`.
pub open spec fn text_preview(t: Seq<char>) -> Seq<char> {
    let k = if t.len() < 60 { t.len() } else { 60 };
    Seq::new(k, |i: int| if t[i] == '\n' { '\u{23ce}' } else { t[i] })
}

/// `[image {w}×{h}]`.
pub open spec fn image_preview(w: u32, h: u32) -> Seq<char> {
    seq!['[', 'i', 'm', 'a', 'g', 'e', ' '] + decimal(w as nat) + seq!['\u{d7}'] + decimal(h as nat) + seq![']']
}

/// The listing's preview of an entry.
pub open spec fn spec_preview(e: Entry) -> Seq<char> {
    match e.body {
        Body::Text { text } => text_preview(text@),
        Body::Image { w, h, .. } => image_preview(w, h),
    }
}

/// The name an origin is listed under.
pub open spec fn origin_name(ps: Option<Seq<crate::peers::Peer>>, origin: Seq<char>) -> Seq<char> {
    if origin == local_seq() {
        local_seq()
    } else if ps is Some && has_id(ps->0, origin) {
        ps->0[choose|i: int| first_with_id(ps->0, origin, i)].name@
    } else {
        origin.subrange(0, if origin.len() < 8 { origin.len() as int } else { 8 })
    }
}

/// Append the characters of `b` to `a`.
fn push_all(a: &mut Vec<char>, b: &[char])
    ensures final(a)@ == old(a)@ + b@,
{
    let ghost a0 = a@;
    let mut i: usize = 0;
    while i < b.len()
        invariant
            i <= b@.len(),
            a@ == a0 + b@.subrange(0, i as int),
        decreases b@.len() - i,
    {
        a.push(b[i]);
        proof { assert(b@.subrange(0, i + 1) =~= b@.subrange(0, i as int).push(b@[i as int])); }
        i += 1;
    }
    proof { assert(b@.subrange(0, b@.len() as int) =~= b@); }
}

/// The listing's preview of an entry.
pub fn preview(e: &Entry) -> (r: String)
    ensures r@ == spec_preview(*e),
{
    match &e.body {
        Body::Text { text } => {
            let v = chars_of(text.as_str());
            let k = if v.len() < 60 { v.len() } else { 60 };
            let mut out: Vec<char> = Vec::new();
            let mut i: usize = 0;
            while i < k
                invariant
                    k <= v@.len(),
                    k == (if v@.len() < 60 { v@.len() } else { 60 }),
                    i <= k,
                    out@.len() == i,
                    forall|j: int| 0 <= j < i ==> out@[j] == (if v@[j] == '\n' { '\u{23ce}' } else { v@[j] }),
                decreases k - i,
            {
                out.push(if v[i] == '\n' { '\u{23ce}' } else { v[i] });
                i += 1;
            }
            proof { assert(out@ =~= text_preview(text@)); }
            string_from(out.as_slice())
        },
        Body::Image { w, h, .. } => {
            let mut out: Vec<char> = Vec::new();
            let a: [char; 7] = ['[', 'i', 'm', 'a', 'g', 'e', ' '];
            push_all(&mut out, a.as_slice());
            push_all(&mut out, decimal_chars(*w as u64).as_slice());
            out.push('\u{d7}');
            push_all(&mut out, decimal_chars(*h as u64).as_slice());
            out.push(']');
            proof { assert(out@ =~= image_preview(*w, *h)); }
            string_from(out.as_slice())
        },
    }
}

/// The name an origin is listed under: `local`, a paired peer's name, or
/// the first eight characters of the id.
pub fn name_of_origin(peers: Option<&Peers>, origin: &str) -> (r: String)
    ensures
        r@ == origin_name(match peers { Some(p) => Some(p.peers@), None => None }, origin@),
{
    let v = chars_of(origin);
    let l: [char; 5] = ['l', 'o', 'c', 'a', 'l'];
    proof { assert(l@ =~= local_seq()); }
    if v.len() == 5 && v[0] == 'l' && v[1] == 'o' && v[2] == 'c' && v[3] == 'a' && v[4] == 'l' {
        proof { assert(origin@ =~= local_seq()); }
        return string_from(l.as_slice());
    }
    proof { assert(origin@ != local_seq()); }
    match peers {
        Some(ps) => match ps.find_by_id(origin) {
            Some(p) => {
                proof {
                    let i = choose|i: int| first_with_id(ps.peers@, origin@, i) && *p == ps.peers@[i];
                    let c = choose|c: int| first_with_id(ps.peers@, origin@, c);
                    assert(c == i) by {
                        if c < i { assert(ps.peers@[c].device_id@ == origin@); }
                        if i < c { assert(ps.peers@[i].device_id@ == origin@); }
                    }
                }
                return p.name.clone();
            },
            None => {},
        },
        None => {},
    }
    let k = if v.len() < 8 { v.len() } else { 8 };
    let mut out: Vec<char> = Vec::new();
    let mut i: usize = 0;
    while i < k
        invariant
            k <= v@.len(),
            i <= k,
            out@ == v@.subrange(0, i as int),
        decreases k - i,
    {
        out.push(v[i]);
        proof { assert(v@.subrange(0, i + 1) =~= v@.subrange(0, i as int).push(v@[i as int])); }
        i += 1;
    }
    string_from(out.as_slice())
}

/// The image files of `v[lo..]`, in order.
fn files_from(v: &Vec<Entry>, lo: usize) -> (r: Vec<String>)
    requires lo <= v@.len(),
    ensures
        r@.len() == image_files(v@.subrange(lo as int, v@.len() as int)).len(),
        forall|i: int| 0 <= i < r@.len() ==> #[trigger] r@[i]@ == image_files(v@.subrange(lo as int, v@.len() as int))[i],
{
    let mut r: Vec<String> = Vec::new();
    let mut i: usize = lo;
    proof { assert(v@.subrange(lo as int, lo as int) =~= Seq::<Entry>::empty()); }
    while i < v.len()
        invariant
            lo <= i <= v@.len(),
            r@.len() == image_files(v@.subrange(lo as int, i as int)).len(),
            forall|q: int| 0 <= q < r@.len() ==> #[trigger] r@[q]@ == image_files(v@.subrange(lo as int, i as int))[q],
        decreases v@.len() - i,
    {
        let ghost pre = v@.subrange(lo as int, i as int);
        let ghost post = v@.subrange(lo as int, i + 1);
        proof {
            assert(post.drop_last() =~= pre);
            assert(post.last() == v@[i as int]);
        }
        match &v[i].body {
            Body::Image { file, .. } => {
                r.push(file.clone());
            },
            Body::Text { .. } => {},
        }
        i += 1;
    }
    r
}

/// What recording a copied text at `when` does to the ring `q` (giving
/// `e`): nothing when history is off or the text empty (and no file list
/// comes back); otherwise a file list comes back and the newest entry
/// carries the text's digest: the ring is unchanged when that repeats the
/// newest entry, else the text is pushed in front, the oldest entries
/// falling off beyond the maximum.
pub open spec fn text_recorded(q: Seq<Entry>, e: Seq<Entry>, max: nat, text: Seq<char>, bytes: Seq<u8>,
    origin: Seq<char>, when: u64, listed: bool) -> bool
{
    if max == 0 || text.len() == 0 {
        !listed && e == q
    } else {
        &&& listed
        &&& e.len() > 0
        &&& e[0].hash@ == hex_seq(sha256_digest(bytes))
        &&& if repeats_newest(q, e[0].hash@) {
            e == q
        } else {
            &&& e[0].body matches Body::Text { text: t } && t@ == text
            &&& e[0].when == when
            &&& e[0].origin@ == origin
            &&& e.len() == (if q.len() + 1 > max { max as int } else { q.len() + 1int })
            &&& forall|i: int| 1 <= i < e.len() ==> #[trigger] e[i] == q[i - 1]
        }
    }
}

/// The number an entry's image file claims for the next file: one past
/// its own (saturating), or 0 for text and unnumbered files.
pub open spec fn claimed_number(e: Entry) -> u64 {
    match e.body {
        Body::Image { file, .. } => match spec_image_number(file@) {
            Some(n) => if n >= u64::MAX { u64::MAX } else { (n + 1) as u64 },
            None => 0,
        },
        Body::Text { .. } => 0,
    }
}

/// The number of the next image file: one past the highest image number
/// among the entries (saturating), 0 when none is numbered.
pub open spec fn next_number(v: Seq<Entry>) -> u64
    decreases v.len(),
{
    if v.len() == 0 {
        0
    } else {
        let rest = next_number(v.drop_last());
        let c = claimed_number(v.last());
        if c > rest { c } else { rest }
    }
}

impl HistoryRing {
    /// History as loaded: at most `max` entries of what was stored, and
    /// image files numbered after the highest one stored.
    pub fn from_loaded(stored: Vec<Entry>, max: usize) -> (h: HistoryRing)
        ensures
            h.max == max,
            h.entries@ == (if stored@.len() > max { stored@.subrange(0, max as int) } else { stored@ }),
            h.next_file == next_number(h.entries@),
    {
        let mut entries = stored;
        entries.truncate(max);
        let mut next: u64 = 0;
        let mut i: usize = 0;
        while i < entries.len()
            invariant
                i <= entries@.len(),
                next == next_number(entries@.subrange(0, i as int)),
            decreases entries@.len() - i,
        {
            proof {
                let pre = entries@.subrange(0, i as int);
                let post = entries@.subrange(0, i + 1);
                assert(post.drop_last() =~= pre);
                assert(post.last() == entries@[i as int]);
            }
            match &entries[i].body {
                Body::Image { file, .. } => match image_number(file.as_str()) {
                    Some(n) => {
                        let cand = if n == u64::MAX { u64::MAX } else { n + 1 };
                        if cand > next {
                            next = cand;
                        }
                    },
                    None => {},
                },
                Body::Text { .. } => {},
            }
            i += 1;
        }
        proof { assert(entries@.subrange(0, entries@.len() as int) =~= entries@); }
        HistoryRing { max, entries, next_file: next }
    }

    /// History is on unless its maximum is 0.
    pub fn enabled(&self) -> (b: bool)
        ensures b == (self.max > 0),
    {
        self.max > 0
    }

    /// Record an entry: nothing changes when it repeats the newest one;
    /// otherwise it becomes the newest and entries beyond the maximum are
    /// dropped. The image files of dropped entries are returned for
    /// deletion.
    pub fn push(&mut self, entry: Entry) -> (gone: Vec<String>)
        ensures
            final(self).max == old(self).max,
            final(self).next_file == old(self).next_file,
            final(self).entries@ == pushed(old(self).entries@, entry, old(self).max as nat),
            gone@.len() == image_files(evicted(old(self).entries@, entry, old(self).max as nat)).len(),
            forall|i: int| 0 <= i < gone@.len()
                ==> #[trigger] gone@[i]@ == image_files(evicted(old(self).entries@, entry, old(self).max as nat))[i],
    {
        let ghost q = self.entries@;
        let ghost e = entry;
        if self.entries.len() > 0 && str_eq(self.entries[0].hash.as_str(), entry.hash.as_str()) {
            proof { assert(image_files(Seq::<Entry>::empty()).len() == 0); }
            return Vec::new();
        }
        self.entries.insert(0, entry);
        proof { assert(self.entries@ =~= seq![e] + q); }
        let mut gone: Vec<String> = Vec::new();
        if self.entries.len() > self.max {
            gone = files_from(&self.entries, self.max);
            self.entries.truncate(self.max);
        } else {
            proof { assert(image_files(Seq::<Entry>::empty()).len() == 0); }
        }
        gone
    }

    /// Record a copied text (not when disabled or empty).
    pub fn record_text_at(&mut self, text: &str, origin: &str, when: u64) -> (gone: Option<Vec<String>>)
        ensures
            final(self).max == old(self).max,
            text_recorded(old(self).entries@, final(self).entries@, old(self).max as nat, text@, text.spec_bytes(),
                origin@, when, gone is Some),
    {
        if self.max == 0 || text.is_empty() {
            return None;
        }
        let h = hex(sha256(text.as_bytes()).as_slice());
        let entry = Entry { body: Body::Text { text: text.to_owned() }, when, origin: origin.to_owned(), hash: h };
        let gone = self.push(entry);
        Some(gone)
    }

    /// Record a copied text now.
    pub fn record_text(&mut self, text: &str, origin: &str) -> (gone: Option<Vec<String>>)
        ensures
            final(self).max == old(self).max,
            exists|when: u64| #[trigger] text_recorded(old(self).entries@, final(self).entries@, old(self).max as nat, text@,
                text.spec_bytes(), origin@, when, gone is Some),
    {
        let now = now_unix();
        let gone = self.record_text_at(text, origin, now);
        proof {
            assert(text_recorded(old(self).entries@, self.entries@, old(self).max as nat, text@, text.spec_bytes(),
                origin@, now, gone is Some));
        }
        gone
    }

    /// The listing, newest first.
    pub fn list(&self, peers: Option<&Peers>) -> (r: Vec<ListItem>)
        ensures
            r@.len() == self.entries@.len(),
            forall|i: int| 0 <= i < r@.len() ==> {
                let it = #[trigger] r@[i];
                let e = self.entries@[i];
                &&& it.index == i
                &&& it.kind@ == (match e.body { Body::Text { .. } => seq!['t', 'e', 'x', 't'], Body::Image { .. } => seq!['i', 'm', 'a', 'g', 'e'] })
                &&& it.preview@ == spec_preview(e)
                &&& it.when_unix == e.when
                &&& it.origin@ == origin_name(match peers { Some(p) => Some(p.peers@), None => None }, e.origin@)
            },
    {
        let mut out: Vec<ListItem> = Vec::new();
        let mut i: usize = 0;
        while i < self.entries.len()
            invariant
                i <= self.entries@.len(),
                out@.len() == i,
                forall|q: int| 0 <= q < i ==> {
                    let it = #[trigger] out@[q];
                    let e = self.entries@[q];
                    &&& it.index == q
                    &&& it.kind@ == (match e.body { Body::Text { .. } => seq!['t', 'e', 'x', 't'], Body::Image { .. } => seq!['i', 'm', 'a', 'g', 'e'] })
                    &&& it.preview@ == spec_preview(e)
                    &&& it.when_unix == e.when
                    &&& it.origin@ == origin_name(match peers { Some(p) => Some(p.peers@), None => None }, e.origin@)
                },
            decreases self.entries@.len() - i,
        {
            let e = &self.entries[i];
            let kind = match &e.body {
                Body::Text { .. } => {
                    let k: [char; 4] = ['t', 'e', 'x', 't'];
                    proof { assert(k@ =~= seq!['t', 'e', 'x', 't']); }
                    string_from(k.as_slice())
                },
                Body::Image { .. } => {
                    let k: [char; 5] = ['i', 'm', 'a', 'g', 'e'];
                    proof { assert(k@ =~= seq!['i', 'm', 'a', 'g', 'e']); }
                    string_from(k.as_slice())
                },
            };
            let item = ListItem {
                index: i,
                kind,
                preview: preview(e),
                when_unix: e.when,
                origin: name_of_origin(peers, e.origin.as_str()),
            };
            out.push(item);
            i += 1;
        }
        out
    }

    /// Entry `index`, for restore or send.
    pub fn get(&self, index: usize) -> (r: Option<Restored>)
        ensures
            index >= self.entries@.len() ==> r is None,
            index < self.entries@.len() ==> match self.entries@[index as int].body {
                Body::Text { text } => r matches Some(Restored::Text(t)) && t@ == text@,
                Body::Image { file, .. } => r matches Some(Restored::ImageFile(f)) && f@ == file@,
            },
    {
        if index >= self.entries.len() {
            return None;
        }
        match &self.entries[index].body {
            Body::Text { text } => Some(Restored::Text(text.clone())),
            Body::Image { file, .. } => Some(Restored::ImageFile(file.clone())),
        }
    }

    /// Before saving a copied image: nothing when history is off or the
    /// image repeats the newest entry; otherwise its file (the next number,
    /// `n.png`), digest and size (0×0 when it does not decode).
    pub fn plan_image(&mut self, png: &[u8]) -> (r: Option<ImagePlan>)
        ensures
            final(self).max == old(self).max,
            final(self).entries@ == old(self).entries@,
            (old(self).max == 0 || repeats_newest(old(self).entries@, hex_seq(sha256_digest(png@)))) ==> {
                &&& r is None
                &&& final(self).next_file == old(self).next_file
            },
            !(old(self).max == 0 || repeats_newest(old(self).entries@, hex_seq(sha256_digest(png@)))) ==> {
                &&& r matches Some(p)
                &&& p.hash@ == hex_seq(sha256_digest(png@))
                &&& p.file@ == decimal(old(self).next_file as nat) + seq!['.', 'p', 'n', 'g']
                &&& (p.w, p.h) == (match png_dims(png@) { Some(d) => d, None => (0u32, 0u32) })
                &&& final(self).next_file == (if old(self).next_file == u64::MAX { 0 } else { (old(self).next_file + 1) as u64 })
            },
    {
        if self.max == 0 {
            return None;
        }
        let h = hex(sha256(png).as_slice());
        if self.entries.len() > 0 && str_eq(self.entries[0].hash.as_str(), h.as_str()) {
            return None;
        }
        let (w, hh) = match image_dims(png) {
            Some(d) => d,
            None => (0u32, 0u32),
        };
        let n = self.next_file;
        self.next_file = n.wrapping_add(1);
        let mut f = decimal_chars(n);
        f.push('.');
        f.push('p');
        f.push('n');
        f.push('g');
        proof { assert(f@ =~= decimal(n as nat) + seq!['.', 'p', 'n', 'g']); }
        Some(ImagePlan { file: string_from(f.as_slice()), hash: h, w, h: hh })
    }

    /// The planned image file was written: record it. The image files of
    /// entries that fall off the ring are returned for deletion.
    pub fn push_image(&mut self, plan: ImagePlan, origin: &str, when: u64) -> (gone: Vec<String>)
        ensures
            final(self).max == old(self).max,
            final(self).next_file == old(self).next_file,
            repeats_newest(old(self).entries@, plan.hash@) ==> final(self).entries@ == old(self).entries@ && gone@.len() == 0,
            (!repeats_newest(old(self).entries@, plan.hash@) && old(self).max > 0) ==> {
                let e = final(self).entries@;
                let q = old(self).entries@;
                &&& e[0].body == Body::Image { file: plan.file, w: plan.w, h: plan.h }
                &&& e[0].when == when
                &&& e[0].origin@ == origin@
                &&& e[0].hash == plan.hash
                &&& e.len() == (if q.len() + 1 > old(self).max { old(self).max as int } else { q.len() + 1int })
                &&& forall|i: int| 1 <= i < e.len() ==> #[trigger] e[i] == q[i - 1]
                &&& q.len() + 1 > old(self).max ==> {
                    &&& gone@.len() == image_files(q.subrange(old(self).max - 1, q.len() as int)).len()
                    &&& forall|i: int| 0 <= i < gone@.len()
                        ==> #[trigger] gone@[i]@ == image_files(q.subrange(old(self).max - 1, q.len() as int))[i]
                }
                &&& q.len() + 1 <= old(self).max ==> gone@.len() == 0
            },
    {
        let o = origin.to_owned();
        let e = Entry { body: Body::Image { file: plan.file, w: plan.w, h: plan.h }, when, origin: o, hash: plan.hash };
        let ghost q = self.entries@;
        let ghost ee = e;
        let gone = self.push(e);
        proof {
            if !repeats_newest(q, ee.hash@) && self.max > 0 {
                let n = seq![ee] + q;
                if n.len() > self.max {
                    assert(n.subrange(self.max as int, n.len() as int) =~= q.subrange(self.max - 1, q.len() as int));
                }
            }
            if repeats_newest(q, ee.hash@) {
                assert(image_files(Seq::<Entry>::empty()).len() == 0);
            }
        }
        gone
    }
}

/// The number `n` of an image file named `n.png`.
pub open spec fn spec_image_number(file: Seq<char>) -> Option<nat> {
    if file.len() > 4 && file.subrange(file.len() - 4, file.len() as int) == seq!['.', 'p', 'n', 'g'] {
        crate::history::spec_parse_u64(file.subrange(0, file.len() - 4))
    } else {
        None
    }
}

/// The value of a decimal numeral (an optional `+`, then digits) that fits
/// in a `u64`, as `str::parse::<u64>` reads it.
pub open spec fn spec_parse_u64(s: Seq<char>) -> Option<nat> {
    let d = strip_plus(s);
    if d.len() > 0 && all_digits(d) && digits_value(d) <= u64::MAX {
        Some(digits_value(d))
    } else {
        None
    }
}

/// Without one leading `+`.
pub open spec fn strip_plus(s: Seq<char>) -> Seq<char> {
    if s.len() > 0 && s[0] == '+' { s.drop_first() } else { s }
}

/// Every character is a decimal digit.
pub open spec fn all_digits(d: Seq<char>) -> bool {
    forall|i: int| 0 <= i < d.len() ==> '0' <= #[trigger] d[i] <= '9'
}

/// The value of a run of decimal digits.
pub open spec fn digits_value(d: Seq<char>) -> nat
    decreases d.len(),
{
    if d.len() == 0 { 0 } else { digits_value(d.drop_last()) * 10 + ((d.last() as int - '0' as int) as nat) }
}

/// Parse a decimal `u64` as `str::parse` does.
pub fn parse_u64(s: &[char]) -> (r: Option<u64>)
    ensures
        match r {
            Some(n) => spec_parse_u64(s@) == Some(n as nat),
            None => spec_parse_u64(s@) is None,
        },
{
    let start: usize = if s.len() > 0 && s[0] == '+' { 1 } else { 0 };
    let ghost d = strip_plus(s@);
    proof { assert(d =~= s@.subrange(start as int, s@.len() as int)); }
    if start >= s.len() {
        return None;
    }
    let mut v: u64 = 0;
    let mut i: usize = start;
    while i < s.len()
        invariant
            start <= i <= s@.len(),
            d == s@.subrange(start as int, s@.len() as int),
            d == strip_plus(s@),
            forall|j: int| start <= j < i ==> '0' <= #[trigger] s@[j] <= '9',
            v as nat == digits_value(s@.subrange(start as int, i as int)),
        decreases s@.len() - i,
    {
        let c = s[i];
        let ghost pre = s@.subrange(start as int, i as int);
        let ghost post = s@.subrange(start as int, i + 1);
        proof {
            assert(post.drop_last() =~= pre);
            assert(post.last() == c);
        }
        if c < '0' || c > '9' {
            proof {
                assert(d[i - start] == c);
                assert(!all_digits(d));
                assert(spec_parse_u64(s@) is None);
            }
            return None;
        }
        let digit: u64 = (c as u32 - '0' as u32) as u64;
        if v > (u64::MAX - digit) / 10 {
            proof {
                assert(digits_value(post) == v * 10 + digit);
                assert(v * 10 + digit > u64::MAX) by (nonlinear_arith)
                    requires v > (u64::MAX - digit) / 10, digit <= 9;
                if all_digits(d) {
                    lemma_digits_monotone(d, (i - start) as int + 1);
                    assert(d.subrange(0, (i - start) as int + 1) =~= post);
                    assert(digits_value(d) > u64::MAX);
                }
                assert(spec_parse_u64(s@) is None);
            }
            return None;
        }
        v = v * 10 + digit;
        i += 1;
    }
    proof { assert(s@.subrange(start as int, s@.len() as int) =~= d); }
    Some(v)
}

/// A longer run of digits is worth at least as much as its prefix.
proof fn lemma_digits_monotone(d: Seq<char>, k: int)
    requires
        0 <= k <= d.len(),
        forall|j: int| 0 <= j < d.len() ==> '0' <= #[trigger] d[j] <= '9',
    ensures digits_value(d) >= digits_value(d.subrange(0, k)),
    decreases d.len() - k,
{
    if k < d.len() {
        lemma_digits_monotone(d.drop_last(), k);
        assert(d.drop_last().subrange(0, k) =~= d.subrange(0, k));
        if k == d.len() - 1 {
            assert(d.drop_last() =~= d.subrange(0, k));
        }
    } else {
        assert(d.subrange(0, k) =~= d);
    }
}

/// The number of an image file named `n.png`.
pub fn image_number(file: &str) -> (r: Option<u64>)
    ensures
        match r {
            Some(n) => spec_image_number(file@) == Some(n as nat),
            None => spec_image_number(file@) is None,
        },
{
    let v = chars_of(file);
    let n = v.len();
    if n <= 4 || v[n - 4] != '.' || v[n - 3] != 'p' || v[n - 2] != 'n' || v[n - 1] != 'g' {
        proof {
            if n > 4 {
                let t = file@.subrange(n - 4, n as int);
                assert(t[0] == v@[n - 4] && t[1] == v@[n - 3] && t[2] == v@[n - 2] && t[3] == v@[n - 1]);
            }
        }
        return None;
    }
    proof { assert(file@.subrange(n - 4, n as int) =~= seq!['.', 'p', 'n', 'g']); }
    let mut stem: Vec<char> = Vec::new();
    let mut i: usize = 0;
    while i < n - 4
        invariant
            n == v@.len(),
            n > 4,
            i <= n - 4,
            stem@ == v@.subrange(0, i as int),
        decreases n - 4 - i,
    {
        stem.push(v[i]);
        proof { assert(v@.subrange(0, i + 1) =~= v@.subrange(0, i as int).push(v@[i as int])); }
        i += 1;
    }
    parse_u64(stem.as_slice())
}

/// The width and height `image::load_from_memory` decodes from the bytes,
/// or `None` when they do not decode as an image.
pub uninterp spec fn png_dims(png: Seq<u8>) -> Option<(u32, u32)>;

/// `image::load_from_memory`, keeping the decoded image's width and height:
/// the value named `png_dims` of the bytes.
#[verifier::external_body]
fn image_dims(png: &[u8]) -> (r: Option<(u32, u32)>)
    ensures r == png_dims(png@),
{
    match image::load_from_memory(png) {
        Ok(i) => Some((i.width(), i.height())),
        Err(_) => None,
    }
}

/// The history directory: `history` in the config directory, or
/// `qdrop-history` when there is none.
pub fn dir(config_dir: Option<&str>) -> (r: String)
    ensures
        match config_dir {
            Some(c) => r@ == join_spec(c@, seq!['h', 'i', 's', 't', 'o', 'r', 'y']),
            None => r@ == seq!['q', 'd', 'r', 'o', 'p', '-', 'h', 'i', 's', 't', 'o', 'r', 'y'],
        },
{
    match config_dir {
        Some(c) => history_dir(c),
        None => {
            let n: [char; 13] = ['q', 'd', 'r', 'o', 'p', '-', 'h', 'i', 's', 't', 'o', 'r', 'y'];
            proof { assert(n@ =~= seq!['q', 'd', 'r', 'o', 'p', '-', 'h', 'i', 's', 't', 'o', 'r', 'y']); }
            string_from(n.as_slice())
        },
    }
}

/// The next image number after loading is one past the highest image
/// number stored (saturating at `u64::MAX`): it is above every stored
/// number `n` (or equal to it when `n` is `u64::MAX`), and, unless it is 0
/// with no image numbered, it is one past some stored number.
pub proof fn lemma_next_number_is_past_every_image(v: Seq<Entry>)
    ensures
        forall|i: int, f: String, w: u32, h: u32, n: nat|
            0 <= i < v.len() && v[i].body == (Body::Image { file: f, w, h }) && spec_image_number(f@) == Some(n)
            ==> (n < u64::MAX ==> n < next_number(v)) && (n >= u64::MAX ==> next_number(v) == u64::MAX),
        next_number(v) == 0 || exists|i: int| 0 <= i < v.len() && #[trigger] v[i].body is Image
            && spec_image_number(v[i].body->Image_file@) is Some
            && next_number(v) == (if spec_image_number(v[i].body->Image_file@)->0 >= u64::MAX { u64::MAX as int }
                else { spec_image_number(v[i].body->Image_file@)->0 + 1int }),
    decreases v.len(),
{
    if v.len() > 0 {
        let pre = v.drop_last();
        lemma_next_number_is_past_every_image(pre);
        assert forall|i: int, f: String, w: u32, h: u32, n: nat|
            0 <= i < v.len() && v[i].body == (Body::Image { file: f, w, h }) && spec_image_number(f@) == Some(n)
            implies (n < u64::MAX ==> n < next_number(v)) && (n >= u64::MAX ==> next_number(v) == u64::MAX) by {
            if i < v.len() - 1 {
                assert(pre[i] == v[i]);
            } else {
                assert(v.last() == v[i]);
            }
        }
        let c = claimed_number(v.last());
        if c > next_number(pre) {
            assert(v[v.len() - 1] == v.last());
            assert(v[v.len() - 1].body is Image);
        } else if next_number(v) != 0 {
            let i = choose|i: int| 0 <= i < pre.len() && #[trigger] pre[i].body is Image
                && spec_image_number(pre[i].body->Image_file@) is Some
                && next_number(pre) == (if spec_image_number(pre[i].body->Image_file@)->0 >= u64::MAX { u64::MAX as int }
                    else { spec_image_number(pre[i].body->Image_file@)->0 + 1int });
            assert(v[i] == pre[i]);
        }
    }
}

} // verus!
