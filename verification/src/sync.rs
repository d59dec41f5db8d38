//! Clipboard sync decisions (text and images).
//!
//! A local copy is broadcast to the peers; a remote update is applied
//! locally. Echo suppression is layered: the clipboard watcher drops the
//! echo of what it just wrote (by digest); here remote updates whose origin
//! is this device are ignored, and content equal to the last synced digest
//! is never sent or applied again. Outbound broadcasts are rate-limited so a
//! script hammering the clipboard cannot saturate the link.

use vstd::prelude::*;
use vstd::string::StringSliceAdditionalSpecFns;
use vstd::utf8::{encode_utf8, valid_utf8};
use crate::crypto::{ct_eq, sha256, sha256_digest};
use crate::proto::{image_prefix, is_prefix, text_prefix, ClipEntry, Message, CLIP_IMAGE_INLINE_MAX, MIME_PNG, MIME_TEXT};
use crate::strmap::str_eq;
use crate::text::string_from;

verus! {

/// Minimum gap between two outbound clipboard broadcasts, in milliseconds.
pub const MIN_BROADCAST_GAP_MS: u64 = 300;

/// Something the user copied locally.
#[derive(Debug)]
pub enum LocalClip {
    Text(String),
    /// PNG bytes.
    Image(Vec<u8>),
}

/// What to do with a local clipboard change.
#[derive(Debug)]
pub enum LocalOutcome {
    Ignored,
    /// Send this frame to every connected peer.
    Broadcast(Message),
    /// The image is too large to travel inline: send it on the blob path.
    SendBlob(Vec<u8>),
}

/// What to do with a clipboard frame from a peer.
#[derive(Debug)]
pub enum RemoteOutcome {
    Ignored,
    ApplyText(String),
    ApplyImage(Vec<u8>),
}

/// The sync loop's state.
pub struct ClipSync {
    /// This device's id, the origin of its broadcasts.
    pub own_id: String,
    /// Largest clipboard text synced, in bytes.
    pub max_text: usize,
    /// Sequence number of the last broadcast.
    pub seq: u64,
    /// Digest of the last content sent or applied.
    pub last_synced: Option<[u8; 32]>,
    /// Monotonic time of the last broadcast, in milliseconds.
    pub last_broadcast_ms: Option<u64>,
}

/// The digest held, as a sequence.
pub open spec fn held(h: Option<[u8; 32]>) -> Option<Seq<u8>> {
    match h {
        Some(d) => Some(d@),
        None => None,
    }
}

/// A change at `now` falls within the minimum gap after the last broadcast.
pub open spec fn rate_limited(last: Option<u64>, now: u64) -> bool {
    match last {
        Some(t) => now - t < MIN_BROADCAST_GAP_MS,
        None => false,
    }
}

/// The sequence number after `seq`.
pub open spec fn next_seq(seq: u64) -> u64 {
    if seq == u64::MAX { 0 } else { (seq + 1) as u64 }
}

/// `m` is a clipboard frame from `origin` with sequence number `seq`
/// holding exactly one entry, of MIME type `mime` and content `data`.
pub open spec fn single_entry_frame(m: Message, seq: u64, origin: Seq<char>, mime: Seq<char>, data: Seq<u8>) -> bool {
    &&& m matches Message::Clipboard { seq: s, origin_id, entries }
    &&& s == seq
    &&& origin_id@ == origin
    &&& entries@.len() == 1
    &&& entries@[0].mime@ == mime
    &&& entries@[0].data@ == data
}

/// The entry reads as text: a text MIME type and valid UTF-8.
pub open spec fn text_entry(e: ClipEntry) -> bool {
    is_prefix(text_prefix(), e.mime@) && valid_utf8(e.data@)
}

/// The entry is an image.
pub open spec fn image_entry(e: ClipEntry) -> bool {
    is_prefix(image_prefix(), e.mime@)
}

/// `i` is the first text entry.
pub open spec fn first_text(es: Seq<ClipEntry>, i: int) -> bool {
    0 <= i < es.len() && text_entry(es[i]) && forall|j: int| 0 <= j < i ==> !text_entry(#[trigger] es[j])
}

/// `i` is the first image entry.
pub open spec fn first_image(es: Seq<ClipEntry>, i: int) -> bool {
    0 <= i < es.len() && image_entry(es[i]) && forall|j: int| 0 <= j < i ==> !image_entry(#[trigger] es[j])
}

/// The first entry that reads as text, and its text.
fn find_text(es: &Vec<ClipEntry>) -> (r: Option<(usize, &str)>)
    ensures
        match r {
            Some((i, t)) => first_text(es@, i as int) && t.spec_bytes() == es@[i as int].data@,
            None => forall|j: int| 0 <= j < es@.len() ==> !text_entry(#[trigger] es@[j]),
        },
{
    let mut i: usize = 0;
    while i < es.len()
        invariant
            i <= es@.len(),
            forall|j: int| 0 <= j < i ==> !text_entry(#[trigger] es@[j]),
        decreases es@.len() - i,
    {
        match es[i].as_text() {
            Some(t) => return Some((i, t)),
            None => {},
        }
        i += 1;
    }
    None
}

/// The first image entry.
fn find_image(es: &Vec<ClipEntry>) -> (r: Option<usize>)
    ensures
        match r {
            Some(i) => first_image(es@, i as int),
            None => forall|j: int| 0 <= j < es@.len() ==> !image_entry(#[trigger] es@[j]),
        },
{
    let mut i: usize = 0;
    while i < es.len()
        invariant
            i <= es@.len(),
            forall|j: int| 0 <= j < i ==> !image_entry(#[trigger] es@[j]),
        decreases es@.len() - i,
    {
        if es[i].as_image().is_some() {
            return Some(i);
        }
        i += 1;
    }
    None
}

/// Whether the digest held equals `d`.
fn same_digest(held_d: &Option<[u8; 32]>, d: &[u8; 32]) -> (b: bool)
    ensures b == (held(*held_d) == Some(d@)),
{
    match held_d {
        Some(h) => ct_eq(h, d),
        None => false,
    }
}

/// What a local clipboard change at `now_ms` does: from state `pre` to
/// state `post`, with outcome `r`.
pub open spec fn local_step(pre: ClipSync, now_ms: u64, paused: bool, sync_images: bool, clip: LocalClip,
    post: ClipSync, r: LocalOutcome) -> bool
{
    &&& post.own_id == pre.own_id
    &&& post.max_text == pre.max_text
    &&& (paused || rate_limited(pre.last_broadcast_ms, now_ms)) ==> {
        &&& r is Ignored
        &&& post.seq == pre.seq
        &&& post.last_synced == pre.last_synced
        &&& post.last_broadcast_ms == pre.last_broadcast_ms
    }
    &&& !(paused || rate_limited(pre.last_broadcast_ms, now_ms)) ==> {
        &&& post.last_broadcast_ms == Some(now_ms)
        &&& match clip {
            LocalClip::Text(t) => {
                let data = encode_utf8(t@);
                let h = sha256_digest(data);
                if data.len() > pre.max_text || held(pre.last_synced) == Some(h) {
                    &&& r is Ignored
                    &&& post.seq == pre.seq
                    &&& post.last_synced == pre.last_synced
                } else {
                    &&& held(post.last_synced) == Some(h)
                    &&& post.seq == next_seq(pre.seq)
                    &&& r matches LocalOutcome::Broadcast(m)
                    &&& single_entry_frame(m, post.seq, pre.own_id@, MIME_TEXT@, data)
                }
            },
            LocalClip::Image(png) => {
                let h = sha256_digest(png@);
                if !sync_images || held(pre.last_synced) == Some(h) {
                    &&& r is Ignored
                    &&& post.seq == pre.seq
                    &&& post.last_synced == pre.last_synced
                } else {
                    &&& held(post.last_synced) == Some(h)
                    &&& if png@.len() <= CLIP_IMAGE_INLINE_MAX {
                        &&& post.seq == next_seq(pre.seq)
                        &&& r matches LocalOutcome::Broadcast(m)
                        &&& single_entry_frame(m, post.seq, pre.own_id@, MIME_PNG@, png@)
                    } else {
                        &&& post.seq == pre.seq
                        &&& r matches LocalOutcome::SendBlob(b)
                        &&& b@ == png@
                    }
                }
            },
        }
    }
}

/// What a frame from a peer does: from state `pre` to state `post`, with
/// outcome `r`.
pub open spec fn remote_step(pre: ClipSync, paused: bool, sync_images: bool, has_clipboard: bool, msg: Message,
    post: ClipSync, r: RemoteOutcome) -> bool
{
    &&& post.own_id == pre.own_id
    &&& post.max_text == pre.max_text
    &&& post.seq == pre.seq
    &&& post.last_broadcast_ms == pre.last_broadcast_ms
    &&& r is Ignored ==> post.last_synced == pre.last_synced
    &&& match msg {
        Message::Clipboard { origin_id, entries, .. } => {
            if paused || origin_id@ == pre.own_id@ || !has_clipboard {
                r is Ignored
            } else if exists|i: int| first_text(entries@, i) {
                let i = choose|i: int| first_text(entries@, i);
                let data = entries@[i].data@;
                let h = sha256_digest(data);
                if data.len() > pre.max_text || held(pre.last_synced) == Some(h) {
                    r is Ignored
                } else {
                    &&& held(post.last_synced) == Some(h)
                    &&& r matches RemoteOutcome::ApplyText(t)
                    &&& encode_utf8(t@) == data
                }
            } else if sync_images && exists|i: int| first_image(entries@, i) {
                let i = choose|i: int| first_image(entries@, i);
                let data = entries@[i].data@;
                let h = sha256_digest(data);
                if held(pre.last_synced) == Some(h) {
                    r is Ignored
                } else {
                    &&& held(post.last_synced) == Some(h)
                    &&& r matches RemoteOutcome::ApplyImage(b)
                    &&& b@ == data
                }
            } else {
                r is Ignored
            }
        },
        _ => r is Ignored,
    }
}

impl ClipSync {
    /// A fresh sync state for this device.
    pub fn new(own_id: String, max_text: usize) -> (s: ClipSync)
        ensures
            s.own_id@ == own_id@,
            s.max_text == max_text,
            s.seq == 0,
            s.last_synced is None,
            s.last_broadcast_ms is None,
    {
        ClipSync { own_id, max_text, seq: 0, last_synced: None, last_broadcast_ms: None }
    }

    /// A local clipboard change at monotonic time `now_ms`. Nothing happens
    /// while sync is paused or within the rate limit; otherwise the change
    /// counts as a broadcast attempt. Text over the limit, content equal to
    /// what was last synced, and images while image sync is off are dropped;
    /// small images and text go out inline with the next sequence number,
    /// larger images on the blob path.
    pub fn on_local(&mut self, now_ms: u64, paused: bool, sync_images: bool, clip: LocalClip) -> (r: LocalOutcome)
        ensures
            local_step(*old(self), now_ms, paused, sync_images, clip, *final(self), r),
    {
        if paused {
            return LocalOutcome::Ignored;
        }
        match self.last_broadcast_ms {
            Some(t) => {
                if now_ms < t || now_ms - t < MIN_BROADCAST_GAP_MS {
                    return LocalOutcome::Ignored;
                }
            },
            None => {},
        }
        self.last_broadcast_ms = Some(now_ms);
        match clip {
            LocalClip::Text(text) => {
                let bytes = text.as_str().as_bytes();
                if bytes.len() > self.max_text {
                    return LocalOutcome::Ignored;
                }
                let h = sha256(bytes);
                if same_digest(&self.last_synced, &h) {
                    return LocalOutcome::Ignored;
                }
                self.last_synced = Some(h);
                self.seq = self.seq.wrapping_add(1);
                let mut entries: Vec<ClipEntry> = Vec::new();
                entries.push(ClipEntry::text(text.as_str()));
                LocalOutcome::Broadcast(Message::Clipboard { seq: self.seq, origin_id: self.own_id.clone(), entries })
            },
            LocalClip::Image(png) => {
                if !sync_images {
                    return LocalOutcome::Ignored;
                }
                let h = sha256(png.as_slice());
                if same_digest(&self.last_synced, &h) {
                    return LocalOutcome::Ignored;
                }
                self.last_synced = Some(h);
                if png.len() <= CLIP_IMAGE_INLINE_MAX {
                    self.seq = self.seq.wrapping_add(1);
                    let mut entries: Vec<ClipEntry> = Vec::new();
                    entries.push(ClipEntry::png(png));
                    LocalOutcome::Broadcast(Message::Clipboard { seq: self.seq, origin_id: self.own_id.clone(), entries })
                } else {
                    LocalOutcome::SendBlob(png)
                }
            },
        }
    }

    /// A frame from a peer. Only a clipboard frame from another origin is
    /// considered, and only while sync runs and a clipboard is available.
    /// Its first text entry is applied (unless over the limit); without one,
    /// and with image sync on, its first image entry. Content equal to what
    /// was last synced is not applied again.
    pub fn on_remote(&mut self, paused: bool, sync_images: bool, has_clipboard: bool, msg: Message) -> (r: RemoteOutcome)
        ensures
            remote_step(*old(self), paused, sync_images, has_clipboard, msg, *final(self), r),
    {
        let (origin_id, entries) = match msg {
            Message::Clipboard { origin_id, entries, .. } => (origin_id, entries),
            _ => return RemoteOutcome::Ignored,
        };
        if paused || str_eq(origin_id.as_str(), self.own_id.as_str()) || !has_clipboard {
            return RemoteOutcome::Ignored;
        }
        match find_text(&entries) {
            Some((i, text)) => {
                proof {
                    assert(first_text(entries@, i as int));
                    let c = choose|c: int| first_text(entries@, c);
                    assert(c == i) by {
                        if c < i { assert(!text_entry(entries@[c])); }
                        if i < c { assert(!text_entry(entries@[i as int])); }
                    }
                }
                let bytes = text.as_bytes();
                if bytes.len() > self.max_text {
                    return RemoteOutcome::Ignored;
                }
                let h = sha256(bytes);
                if same_digest(&self.last_synced, &h) {
                    return RemoteOutcome::Ignored;
                }
                self.last_synced = Some(h);
                RemoteOutcome::ApplyText(text.to_owned())
            },
            None => {
                proof {
                    assert(!exists|c: int| first_text(entries@, c));
                }
                if !sync_images {
                    return RemoteOutcome::Ignored;
                }
                match find_image(&entries) {
                    Some(i) => {
                        proof {
                            let c = choose|c: int| first_image(entries@, c);
                            assert(c == i) by {
                                if c < i { assert(!image_entry(entries@[c])); }
                                if i < c { assert(!image_entry(entries@[i as int])); }
                            }
                        }
                        let h = sha256(entries[i].data.as_slice());
                        if same_digest(&self.last_synced, &h) {
                            return RemoteOutcome::Ignored;
                        }
                        self.last_synced = Some(h);
                        RemoteOutcome::ApplyImage(copy_bytes(&entries[i].data))
                    },
                    None => {
                        proof {
                            assert(!exists|c: int| first_image(entries@, c));
                        }
                        RemoteOutcome::Ignored
                    },
                }
            },
        }
    }
}

/// A copy of a byte vector.
fn copy_bytes(v: &Vec<u8>) -> (r: Vec<u8>)
    ensures r@ == v@,
{
    vstd::slice::slice_to_vec(v.as_slice())
}


/// Only one entry is the first text entry.
proof fn lemma_first_text_unique(es: Seq<ClipEntry>, i: int, j: int)
    requires first_text(es, i), first_text(es, j),
    ensures i == j,
{
    if i < j {
        assert(!text_entry(es[i]));
    } else if j < i {
        assert(!text_entry(es[j]));
    }
}

/// Only one entry is the first image entry.
proof fn lemma_first_image_unique(es: Seq<ClipEntry>, i: int, j: int)
    requires first_image(es, i), first_image(es, j),
    ensures i == j,
{
    if i < j {
        assert(!image_entry(es[i]));
    } else if j < i {
        assert(!image_entry(es[j]));
    }
}

/// A text a peer's update put on the clipboard is not broadcast back when
/// it shows up as a local change: once applied, the same text copied here
/// is ignored.
pub proof fn lemma_applied_text_not_rebroadcast(
    s0: ClipSync, paused0: bool, images0: bool, has_clipboard: bool, msg: Message, s1: ClipSync, applied: String,
    now_ms: u64, paused1: bool, images1: bool, copied: String, s2: ClipSync, r: LocalOutcome,
)
    requires
        remote_step(s0, paused0, images0, has_clipboard, msg, s1, RemoteOutcome::ApplyText(applied)),
        local_step(s1, now_ms, paused1, images1, LocalClip::Text(copied), s2, r),
        copied@ == applied@,
    ensures
        r is Ignored,
{
}

/// An image a peer's update put on the clipboard is not sent back when it
/// shows up as a local change.
pub proof fn lemma_applied_image_not_rebroadcast(
    s0: ClipSync, paused0: bool, images0: bool, has_clipboard: bool, msg: Message, s1: ClipSync, applied: Vec<u8>,
    now_ms: u64, paused1: bool, images1: bool, copied: Vec<u8>, s2: ClipSync, r: LocalOutcome,
)
    requires
        remote_step(s0, paused0, images0, has_clipboard, msg, s1, RemoteOutcome::ApplyImage(applied)),
        local_step(s1, now_ms, paused1, images1, LocalClip::Image(copied), s2, r),
        copied@ == applied@,
    ensures
        r is Ignored,
{
}

/// A text this device broadcast is not applied again when a peer's update
/// brings the same text back.
pub proof fn lemma_sent_text_not_reapplied(
    s0: ClipSync, now_ms: u64, paused0: bool, images0: bool, sent: String, s1: ClipSync, m: Message,
    paused1: bool, images1: bool, has_clipboard: bool, msg: Message, k: int, s2: ClipSync, r: RemoteOutcome,
)
    requires
        local_step(s0, now_ms, paused0, images0, LocalClip::Text(sent), s1, LocalOutcome::Broadcast(m)),
        msg matches Message::Clipboard { entries, .. } && first_text(entries@, k)
            && entries@[k].data@ == encode_utf8(sent@),
        remote_step(s1, paused1, images1, has_clipboard, msg, s2, r),
    ensures
        r is Ignored,
{
    if let Message::Clipboard { entries, .. } = msg {
        let i = choose|i: int| first_text(entries@, i);
        lemma_first_text_unique(entries@, i, k);
    }
}

/// An image this device sent is not applied again when a peer's update
/// brings the same image back.
pub proof fn lemma_sent_image_not_reapplied(
    s0: ClipSync, now_ms: u64, paused0: bool, images0: bool, sent: Vec<u8>, s1: ClipSync, out: LocalOutcome,
    paused1: bool, images1: bool, has_clipboard: bool, msg: Message, k: int, s2: ClipSync, r: RemoteOutcome,
)
    requires
        local_step(s0, now_ms, paused0, images0, LocalClip::Image(sent), s1, out),
        !(out is Ignored),
        msg matches Message::Clipboard { entries, .. } && first_image(entries@, k) && entries@[k].data@ == sent@
            && forall|j: int| 0 <= j < entries@.len() ==> !text_entry(#[trigger] entries@[j]),
        remote_step(s1, paused1, images1, has_clipboard, msg, s2, r),
    ensures
        r is Ignored,
{
    if let Message::Clipboard { entries, .. } = msg {
        if exists|i: int| first_text(entries@, i) {
            let i = choose|i: int| first_text(entries@, i);
            assert(!text_entry(entries@[i]));
        }
        if exists|i: int| first_image(entries@, i) {
            let i = choose|i: int| first_image(entries@, i);
            lemma_first_image_unique(entries@, i, k);
        }
    }
}

/// While sync is paused, every frame from a peer is ignored and nothing
/// about it is remembered: the peer's clipboard never overwrites ours.
pub proof fn lemma_paused_ignores_remote(
    pre: ClipSync, sync_images: bool, has_clipboard: bool, msg: Message, post: ClipSync, r: RemoteOutcome,
)
    requires
        remote_step(pre, true, sync_images, has_clipboard, msg, post, r),
    ensures
        r is Ignored,
        post.last_synced == pre.last_synced,
        post == pre,
{
}

/// Our own update coming back from a peer is never applied, nor is any
/// update when there is no clipboard to write to.
pub proof fn lemma_own_or_clipboardless_ignored(
    pre: ClipSync, paused: bool, sync_images: bool, has_clipboard: bool, seq: u64, origin_id: String,
    entries: Vec<ClipEntry>, post: ClipSync, r: RemoteOutcome,
)
    requires
        remote_step(pre, paused, sync_images, has_clipboard, Message::Clipboard { seq, origin_id, entries }, post, r),
        origin_id@ == pre.own_id@ || !has_clipboard,
    ensures
        r is Ignored,
        post == pre,
{
}

/// Only clipboard frames can change the clipboard: any other frame is
/// ignored and leaves the state as it was.
pub proof fn lemma_only_clipboard_frames_apply(
    pre: ClipSync, paused: bool, sync_images: bool, has_clipboard: bool, msg: Message, post: ClipSync, r: RemoteOutcome,
)
    requires
        remote_step(pre, paused, sync_images, has_clipboard, msg, post, r),
        !(msg is Clipboard),
    ensures
        r is Ignored,
        post == pre,
{
}

/// While sync is paused a local copy is never sent, and nothing about it
/// is remembered.
pub proof fn lemma_paused_sends_nothing(
    pre: ClipSync, now_ms: u64, sync_images: bool, clip: LocalClip, post: ClipSync, r: LocalOutcome,
)
    requires
        local_step(pre, now_ms, true, sync_images, clip, post, r),
    ensures
        r is Ignored,
        post == pre,
{
}

/// Broadcasts are rate limited: a local copy less than the minimum gap
/// after the last broadcast attempt is not sent and does not count as one.
pub proof fn lemma_rate_limited_sends_nothing(
    pre: ClipSync, now_ms: u64, paused: bool, sync_images: bool, clip: LocalClip, post: ClipSync, r: LocalOutcome,
    last: u64,
)
    requires
        local_step(pre, now_ms, paused, sync_images, clip, post, r),
        pre.last_broadcast_ms == Some(last),
        last <= now_ms,
        now_ms - last < MIN_BROADCAST_GAP_MS,
    ensures
        r is Ignored,
        post == pre,
{
}

/// Text over the size limit never leaves this device, and text from a
/// peer over the limit is never applied.
pub proof fn lemma_oversized_text_never_crosses(
    pre: ClipSync, now_ms: u64, paused: bool, sync_images: bool, t: String, post: ClipSync, r: LocalOutcome,
)
    requires
        local_step(pre, now_ms, paused, sync_images, LocalClip::Text(t), post, r),
        encode_utf8(t@).len() > pre.max_text,
    ensures
        r is Ignored,
        post.seq == pre.seq,
        post.last_synced == pre.last_synced,
{
}

/// A local text copy that may go out (not paused, outside the rate limit,
/// within the size limit, not what was last synced) is broadcast as one
/// text entry carrying exactly its bytes, from this device, under the next
/// sequence number.
pub proof fn lemma_fresh_text_is_broadcast(
    pre: ClipSync, now_ms: u64, sync_images: bool, t: String, post: ClipSync, r: LocalOutcome,
)
    requires
        local_step(pre, now_ms, false, sync_images, LocalClip::Text(t), post, r),
        !rate_limited(pre.last_broadcast_ms, now_ms),
        encode_utf8(t@).len() <= pre.max_text,
        held(pre.last_synced) != Some(sha256_digest(encode_utf8(t@))),
    ensures
        r matches LocalOutcome::Broadcast(Message::Clipboard { seq, origin_id, entries })
            && origin_id@ == pre.own_id@ && seq == post.seq && entries@.len() == 1
            && entries@[0].data@ == encode_utf8(t@) && entries@[0].mime@ == MIME_TEXT@,
        post.seq == (if pre.seq == u64::MAX { 0 } else { pre.seq + 1 }),
        post.last_broadcast_ms == Some(now_ms),
{
}
/// A peer's update whose only entry is new text within the limit (sync
/// not paused, from another device, a clipboard to write to) is applied:
/// the clipboard gets exactly that text, and it is remembered as synced.
pub proof fn lemma_fresh_remote_text_applied(
    pre: ClipSync, sync_images: bool, seq: u64, origin_id: String, entries: Vec<ClipEntry>, post: ClipSync,
    r: RemoteOutcome,
)
    requires
        remote_step(pre, false, sync_images, true, Message::Clipboard { seq, origin_id, entries }, post, r),
        origin_id@ != pre.own_id@,
        entries@.len() == 1,
        text_entry(entries@[0]),
        entries@[0].data@.len() <= pre.max_text,
        held(pre.last_synced) != Some(sha256_digest(entries@[0].data@)),
    ensures
        r matches RemoteOutcome::ApplyText(t) && encode_utf8(t@) == entries@[0].data@,
        held(post.last_synced) == Some(sha256_digest(entries@[0].data@)),
{
    assert(first_text(entries@, 0));
}
} // verus!
