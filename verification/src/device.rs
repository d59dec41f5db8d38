//! Stable per-installation device identity: a random 128-bit value,
//! hex-encoded, persisted next to the config.

use vstd::prelude::*;
use crate::crypto::{hex, hex_seq, lemma_hex_seq_len};
use crate::text::{chars_of, lemma_lead_ws_unique, lemma_trail_ws_unique, slice_chars, string_from, trim, trim_bounds, trim_start};

verus! {

/// An ASCII hex digit, either case (`u8::is_ascii_hexdigit`).
pub open spec fn is_hex_char(c: char) -> bool {
    ('0' <= c <= '9') || ('a' <= c <= 'f') || ('A' <= c <= 'F')
}

/// A well-formed device id: exactly 32 hex digits.
pub open spec fn valid_id(id: Seq<char>) -> bool {
    id.len() == 32 && forall|i: int| 0 <= i < id.len() ==> is_hex_char(#[trigger] id[i])
}

/// Whether `id` is a well-formed device id.
pub fn is_valid(id: &str) -> (b: bool)
    ensures b == valid_id(id@),
{
    let v = chars_of(id);
    if v.len() != 32 {
        return false;
    }
    let mut i: usize = 0;
    while i < v.len()
        invariant
            v@ == id@,
            i <= v@.len(),
            forall|j: int| 0 <= j < i ==> is_hex_char(#[trigger] v@[j]),
        decreases v@.len() - i,
    {
        let c = v[i];
        if !(('0' <= c && c <= '9') || ('a' <= c && c <= 'f') || ('A' <= c && c <= 'F')) {
            return false;
        }
        i += 1;
    }
    true
}

/// Sixteen bytes from `fastrand::fill`; nothing is stated of them beyond
/// their number: they are random.
#[verifier::external_body]
fn random16() -> (b: [u8; 16])
{
    let mut b = [0u8; 16];
    fastrand::fill(&mut b);
    b
}

/// Every lowercase hex rendering is a valid id character string.
pub proof fn lemma_hex_chars(s: Seq<u8>)
    ensures forall|i: int| 0 <= i < hex_seq(s).len() ==> is_hex_char(#[trigger] hex_seq(s)[i]),
    decreases s.len(),
{
    lemma_hex_seq_len(s);
    if s.len() > 0 {
        lemma_hex_chars(s.drop_last());
        lemma_hex_seq_len(s.drop_last());
        let b = s.last();
        assert(b / 16 < 16 && b % 16 < 16);
    }
}

/// The id a given 16-byte draw becomes: its lowercase hex.
pub fn id_from_bytes(bytes: &[u8; 16]) -> (id: String)
    ensures
        id@ == hex_seq(bytes@),
        valid_id(id@),
{
    let s = hex(bytes.as_slice());
    proof {
        lemma_hex_seq_len(bytes@);
        lemma_hex_chars(bytes@);
    }
    s
}

/// The lowercase hex rendering of some 16 bytes.
pub open spec fn minted_id(id: Seq<char>) -> bool {
    exists|b: Seq<u8>| #[trigger] hex_seq(b) == id && b.len() == 16
}

/// A fresh random device id: the lowercase hex of 16 random bytes.
pub fn generate() -> (id: String)
    ensures valid_id(id@), minted_id(id@),
{
    let b = random16();
    let id = id_from_bytes(&b);
    proof { assert(hex_seq(b@) == id@ && b@.len() == 16); }
    id
}

/// The persisted device id file is corrupt.
#[derive(Debug, Clone, PartialEq, Eq)]
pub enum DeviceIdError {
    Corrupt,
}

/// Interpret the contents of the device id file: the trimmed text when it
/// is a valid id, otherwise an error.
pub fn parse_id_file(text: &str) -> (r: Result<String, DeviceIdError>)
    ensures
        valid_id(trim(text@)) ==> (r matches Ok(id) && id@ == trim(text@)),
        !valid_id(trim(text@)) ==> r == Err::<String, DeviceIdError>(DeviceIdError::Corrupt),
{
    let v = chars_of(text);
    let (lo, hi) = trim_bounds(v.as_slice());
    let t = string_from(slice_chars(v.as_slice(), lo, hi).as_slice());
    if is_valid(t.as_str()) {
        Ok(t)
    } else {
        Err(DeviceIdError::Corrupt)
    }
}

/// What loading the device id file found.
pub enum IdFileRead {
    /// The file holds this text.
    Text(String),
    /// There is no such file.
    Missing,
    /// Reading failed for another reason.
    Failed(String),
}

/// What `load_or_create` must do next.
#[derive(Debug, Clone, PartialEq, Eq)]
pub enum IdFileOutcome {
    /// Use this id as it is.
    Existing(String),
    /// Persist this new id (followed by a newline), then use it.
    Create(String),
    /// The file is corrupt.
    Corrupt,
    /// The file could not be read.
    Unreadable(String),
}

/// Decide what to do with the device id file: reuse a valid id, mint a new
/// one when there is no file, and refuse a corrupt or unreadable file.
pub fn load_or_create(read: IdFileRead) -> (r: IdFileOutcome)
    ensures
        read matches IdFileRead::Text(t) ==> (
            (valid_id(trim(t@)) ==> (r matches IdFileOutcome::Existing(id) && id@ == trim(t@)))
            && (!valid_id(trim(t@)) ==> r == IdFileOutcome::Corrupt)),
        read matches IdFileRead::Missing ==> (r matches IdFileOutcome::Create(id) && valid_id(id@) && minted_id(id@)),
        read matches IdFileRead::Failed(e) ==> r == IdFileOutcome::Unreadable(e),
{
    match read {
        IdFileRead::Text(t) => match parse_id_file(t.as_str()) {
            Ok(id) => IdFileOutcome::Existing(id),
            Err(_) => IdFileOutcome::Corrupt,
        },
        IdFileRead::Missing => IdFileOutcome::Create(generate()),
        IdFileRead::Failed(e) => IdFileOutcome::Unreadable(e),
    }
}


/// A minted id, written to the id file followed by a newline, reads back
/// as itself: the file then holds a valid id, the one written.
pub proof fn lemma_written_id_reads_back(id: Seq<char>)
    requires valid_id(id),
    ensures
        trim(id + seq!['\n']) == id,
        valid_id(trim(id + seq!['\n'])),
{
    let s = id + seq!['\n'];
    assert(s[0] == id[0]);
    assert(is_hex_char(id[0]));
    lemma_lead_ws_unique(s, 0);
    assert(trim_start(s) =~= s);
    assert(s[s.len() - 1] == '\n');
    assert(s[s.len() - 2] == id[31]);
    assert(is_hex_char(id[31]));
    lemma_trail_ws_unique(s, 1);
    assert(trim(s) =~= id);
}

} // verus!
