//! Small crypto helpers shared by pairing and key pinning: digests, MACs,
//! OS randomness, pairing PINs, constant-time comparison and hex text.

use vstd::prelude::*;
use crate::text::string_from;
use hmac::Mac;
use sha2::Digest;

verus! {

/// The SHA-256 digest of a byte string.
pub uninterp spec fn sha256_digest(data: Seq<u8>) -> Seq<u8>;

/// HMAC-SHA-256 of `data` under `key`.
pub uninterp spec fn hmac_sha256_tag(key: Seq<u8>, data: Seq<u8>) -> Seq<u8>;

/// A streaming SHA-256 computation (`sha2::Sha256`). Opaque: only the
/// `sha2` crate reads it.
#[verifier::external_body]
pub struct Digester {
    inner: sha2::Sha256,
}

/// The bytes fed to a streaming digest so far.
pub uninterp spec fn digester_input(d: Digester) -> Seq<u8>;

/// `sha2::Sha256::new`: a digest that has been fed nothing.
#[verifier::external_body]
fn digester_new() -> (d: Digester)
    ensures digester_input(d) == Seq::<u8>::empty(),
{
    Digester { inner: sha2::Sha256::new() }
}

/// `sha2::Digest::update`: feed more bytes.
#[verifier::external_body]
fn digester_update(d: &mut Digester, data: &[u8])
    ensures digester_input(*final(d)) == digester_input(*old(d)) + data@,
{
    d.inner.update(data);
}

/// `sha2::Digest::finalize`: the SHA-256 digest (named `sha256_digest`) of
/// all the bytes fed, in order.
#[verifier::external_body]
fn digester_finish(d: Digester) -> (r: [u8; 32])
    ensures r@ == sha256_digest(digester_input(d)),
{
    d.inner.finalize().into()
}

impl Digester {
    /// A digest that has been fed nothing.
    pub fn start() -> (d: Digester)
        ensures digester_input(d) == Seq::<u8>::empty(),
    {
        digester_new()
    }

    /// Feed more bytes.
    pub fn feed(&mut self, data: &[u8])
        ensures digester_input(*final(self)) == digester_input(*old(self)) + data@,
    {
        digester_update(self, data)
    }

    /// The digest of everything fed.
    pub fn finish(self) -> (r: [u8; 32])
        ensures r@ == sha256_digest(digester_input(self)),
    {
        digester_finish(self)
    }
}

/// SHA-256 digest of a byte string.
pub fn sha256(data: &[u8]) -> (d: [u8; 32])
    ensures d@ == sha256_digest(data@),
{
    let mut h = digester_new();
    digester_update(&mut h, data);
    proof { assert(Seq::<u8>::empty() + data@ =~= data@); }
    digester_finish(h)
}

/// HMAC-SHA-256 (`hmac::Hmac<sha2::Sha256>`, which accepts a key of any
/// length): the tag named `hmac_sha256_tag` of the key and message bytes.
#[verifier::external_body]
pub fn hmac_sha256(key: &[u8], data: &[u8]) -> (t: [u8; 32])
    ensures t@ == hmac_sha256_tag(key@, data@),
{
    let mut mac = <hmac::Hmac<sha2::Sha256> as Mac>::new_from_slice(key).unwrap();
    mac.update(data);
    mac.finalize().into_bytes().into()
}

/// `N` bytes from the OS CSPRNG (`getrandom::fill`), or `None` when the OS
/// source fails. Nothing is stated of the bytes: they are random.
#[verifier::external_body]
pub fn random_bytes<const N: usize>() -> (r: Option<[u8; N]>)
{
    let mut buf = [0u8; N];
    match getrandom::fill(&mut buf) {
        Ok(()) => Some(buf),
        Err(_) => None,
    }
}

/// Errors from the OS randomness source.
#[derive(Debug, Clone, Copy, PartialEq, Eq, Structural)]
pub enum CryptoError {
    /// The OS random number generator failed.
    Rng,
    /// `PIN_ATTEMPTS` draws in a row fell in the rejected tail.
    PinSamplesExhausted,
}

/// Samples at or above this bound are rejected so that `n % 1_000_000` is
/// uniform: the largest multiple of 1,000,000 that fits in a `u32`.
pub const PIN_SAMPLE_LIMIT: u32 = 4294000000;

/// How many draws `gen_pin` takes before giving up: `u64::MAX`, which no
/// run reaches (the chance of one rejected draw is below 1 in 4000).
pub const PIN_ATTEMPTS: u64 = 18446744073709551615;

/// The ASCII digit for `d < 10`.
pub open spec fn digit(d: int) -> char {
    (('0' as u32) + d) as char
}

/// `v` as exactly six decimal digits, zero padded.
pub open spec fn six_digits(v: int) -> Seq<char> {
    seq![
        digit((v / 100000) % 10), digit((v / 10000) % 10), digit((v / 1000) % 10),
        digit((v / 100) % 10), digit((v / 10) % 10), digit(v % 10),
    ]
}

/// The executable digit character for `d < 10`.
pub fn digit_char(d: u32) -> (c: char)
    requires d < 10,
    ensures c == digit(d as int),
{
    let b: u8 = (d as u8) + 48;
    b as char
}

/// The PIN a random sample stands for: `None` for a sample in the rejected
/// tail, otherwise the six-digit rendering of `n % 1_000_000`.
pub fn pin_from_sample(n: u32) -> (r: Option<String>)
    ensures
        n >= PIN_SAMPLE_LIMIT ==> r is None,
        n < PIN_SAMPLE_LIMIT ==> (r matches Some(s) && s@ == six_digits((n % 1000000) as int)),
{
    if n >= PIN_SAMPLE_LIMIT {
        return None;
    }
    let v = n % 1000000;
    let ds: [char; 6] = [
        digit_char((v / 100000) % 10), digit_char((v / 10000) % 10), digit_char((v / 1000) % 10),
        digit_char((v / 100) % 10), digit_char((v / 10) % 10), digit_char(v % 10),
    ];
    let s = string_from(ds.as_slice());
    proof { assert(ds@ =~= six_digits(v as int)); }
    Some(s)
}

/// The value of four bytes read little-endian (`u32::from_le_bytes`).
pub open spec fn le32(b: [u8; 4]) -> int {
    b[0] + b[1] * 256 + b[2] * 65536 + b[3] * 16777216
}

/// One draw towards a PIN: a failed draw ends in `Rng`; a draw whose
/// little-endian value is below `PIN_SAMPLE_LIMIT` ends in the six-digit
/// rendering of that value modulo 1,000,000; any other draw is rejected
/// and another one is needed (`None`).
pub fn pin_step(draw: Option<[u8; 4]>) -> (s: Option<Result<String, CryptoError>>)
    ensures
        draw is None ==> s == Some(Err::<String, CryptoError>(CryptoError::Rng)),
        draw matches Some(b) ==> (le32(b) >= PIN_SAMPLE_LIMIT ==> s is None),
        draw matches Some(b) ==> (le32(b) < PIN_SAMPLE_LIMIT ==> (s matches Some(Ok(p))
            && p@ == six_digits(le32(b) % 1000000))),
{
    let b = match draw {
        Some(b) => b,
        None => return Some(Err(CryptoError::Rng)),
    };
    let n: u32 = (b[0] as u32) + (b[1] as u32) * 256 + (b[2] as u32) * 65536 + (b[3] as u32) * 16777216;
    match pin_from_sample(n) {
        Some(pin) => Some(Ok(pin)),
        None => None,
    }
}

/// A fresh six-digit pairing PIN, uniformly distributed over
/// `"000000".."999999"` by rejection sampling: four-byte draws from the OS
/// source are taken through `pin_step` until one ends the run.
pub fn gen_pin() -> (r: Result<String, CryptoError>)
    ensures
        r matches Ok(s) ==> exists|v: int| 0 <= v < 1000000 && s@ == six_digits(v),
{
    let mut attempt: u64 = 0;
    while attempt < PIN_ATTEMPTS
        invariant attempt <= PIN_ATTEMPTS,
        decreases PIN_ATTEMPTS - attempt,
    {
        let draw = random_bytes::<4>();
        match pin_step(draw) {
            Some(r) => {
                proof {
                    if let Some(b) = draw {
                        assert(0 <= le32(b) % 1000000 < 1000000);
                    }
                }
                return r;
            },
            None => {},
        }
        attempt += 1;
    }
    Err(CryptoError::PinSamplesExhausted)
}

/// Constant-time equality for 32-byte strings: every byte pair is examined
/// whatever the earlier ones were.
pub fn ct_eq(a: &[u8; 32], b: &[u8; 32]) -> (r: bool)
    ensures r == (a@ == b@),
{
    let mut diff: u8 = 0;
    let mut i: usize = 0;
    while i < 32
        invariant
            i <= 32,
            (diff == 0) == (forall|j: int| 0 <= j < i ==> a@[j] == b@[j]),
        decreases 32 - i,
    {
        let x = a[i];
        let y = b[i];
        let d = diff;
        assert((d | (x ^ y)) == 0u8 <==> (d == 0u8 && x == y)) by (bit_vector);
        diff = diff | (x ^ y);
        i += 1;
    }
    assert((a@ == b@) == (forall|j: int| 0 <= j < 32 ==> a@[j] == b@[j])) by {
        if forall|j: int| 0 <= j < 32 ==> a@[j] == b@[j] {
            assert(a@ =~= b@);
        }
    }
    diff == 0
}

/// Lowercase hex digit for `v < 16`.
pub open spec fn hex_digit(v: int) -> char {
    if v < 10 { (('0' as u32) + v) as char } else { (('a' as u32) + (v - 10)) as char }
}

/// Two lowercase hex digits for one byte.
pub open spec fn hex_byte(b: u8) -> Seq<char> {
    seq![hex_digit((b / 16) as int), hex_digit((b % 16) as int)]
}

/// Lowercase hex rendering of a byte string, two digits per byte.
pub open spec fn hex_seq(s: Seq<u8>) -> Seq<char>
    decreases s.len(),
{
    if s.len() == 0 { Seq::empty() } else { hex_seq(s.drop_last()) + hex_byte(s.last()) }
}

pub proof fn lemma_hex_seq_len(s: Seq<u8>)
    ensures hex_seq(s).len() == 2 * s.len(),
    decreases s.len(),
{
    if s.len() > 0 { lemma_hex_seq_len(s.drop_last()); }
}

/// Executable lowercase hex digit.
pub fn hex_digit_char(v: u8) -> (c: char)
    requires v < 16,
    ensures c == hex_digit(v as int),
{
    if v < 10 { ((v + 48) as u8) as char } else { ((v - 10 + 97) as u8) as char }
}

/// Append the two hex digits of `b` to `out`.
pub fn push_hex_byte(out: &mut Vec<char>, b: u8)
    ensures final(out)@ == old(out)@ + hex_byte(b),
{
    out.push(hex_digit_char(b / 16));
    out.push(hex_digit_char(b % 16));
    proof { assert(final(out)@ =~= old(out)@ + hex_byte(b)); }
}

/// Lowercase hex of a byte slice.
pub fn hex(bytes: &[u8]) -> (s: String)
    ensures s@ == hex_seq(bytes@),
{
    let mut out: Vec<char> = Vec::new();
    let mut i: usize = 0;
    while i < bytes.len()
        invariant
            i <= bytes@.len(),
            out@ == hex_seq(bytes@.subrange(0, i as int)),
        decreases bytes@.len() - i,
    {
        push_hex_byte(&mut out, bytes[i]);
        proof {
            let p = bytes@.subrange(0, i + 1);
            assert(p.drop_last() =~= bytes@.subrange(0, i as int));
        }
        i += 1;
    }
    proof { assert(bytes@.subrange(0, bytes@.len() as int) =~= bytes@); }
    string_from(out.as_slice())
}

} // verus!
