//! Standard base64 without padding, as used for public keys in
//! `peers.toml`: 32 key bytes become 43 characters.

use vstd::prelude::*;
use crate::text::{chars_of, string_from};

verus! {

/// The standard base64 alphabet.
pub open spec fn b64_char(v: u8) -> char {
    if v < 26 {
        (('A' as u32) + (v as u32)) as char
    } else if v < 52 {
        (('a' as u32) + (v as u32) - 26) as char
    } else if v < 62 {
        (('0' as u32) + (v as u32) - 52) as char
    } else if v == 62 {
        '+'
    } else {
        '/'
    }
}

/// The six-bit value of a base64 character, if it is one.
pub open spec fn b64_val(c: char) -> Option<u8> {
    if 'A' <= c <= 'Z' {
        Some(((c as u32) - ('A' as u32)) as u8)
    } else if 'a' <= c <= 'z' {
        Some(((c as u32) - ('a' as u32) + 26) as u8)
    } else if '0' <= c <= '9' {
        Some(((c as u32) - ('0' as u32) + 52) as u8)
    } else if c == '+' {
        Some(62u8)
    } else if c == '/' {
        Some(63u8)
    } else {
        None
    }
}

pub proof fn lemma_b64_val_char(v: u8)
    requires v < 64,
    ensures b64_val(b64_char(v)) == Some(v),
{
}

/// Four characters for three bytes.
pub open spec fn enc3(a: u8, b: u8, c: u8) -> Seq<char> {
    seq![
        b64_char(a >> 2u8),
        b64_char(((a & 3u8) << 4u8) | (b >> 4u8)),
        b64_char(((b & 15u8) << 2u8) | (c >> 6u8)),
        b64_char(c & 63u8),
    ]
}

/// Three characters for a final pair of bytes.
pub open spec fn enc2(a: u8, b: u8) -> Seq<char> {
    seq![b64_char(a >> 2u8), b64_char(((a & 3u8) << 4u8) | (b >> 4u8)), b64_char((b & 15u8) << 2u8)]
}

/// Two characters for a final single byte.
pub open spec fn enc1(a: u8) -> Seq<char> {
    seq![b64_char(a >> 2u8), b64_char((a & 3u8) << 4u8)]
}

/// Standard base64 of `s`, without padding.
pub open spec fn b64(s: Seq<u8>) -> Seq<char>
    decreases s.len(),
{
    if s.len() == 0 {
        Seq::empty()
    } else if s.len() == 1 {
        enc1(s[0])
    } else if s.len() == 2 {
        enc2(s[0], s[1])
    } else {
        enc3(s[0], s[1], s[2]) + b64(s.subrange(3, s.len() as int))
    }
}

/// Positions of the encoding of a `3m + 2`-byte string.
pub proof fn lemma_b64_layout(s: Seq<u8>, m: int)
    requires 0 <= m, s.len() == 3 * m + 2,
    ensures
        b64(s).len() == 4 * m + 3,
        forall|j: int, t: int| 0 <= j < m && 0 <= t < 4 ==>
            #[trigger] b64(s)[4 * j + t] == enc3(s[3 * j], s[3 * j + 1], s[3 * j + 2])[t],
        forall|t: int| 0 <= t < 3 ==> #[trigger] b64(s)[4 * m + t] == enc2(s[3 * m], s[3 * m + 1])[t],
    decreases m,
{
    if m > 0 {
        let r = s.subrange(3, s.len() as int);
        lemma_b64_layout(r, m - 1);
        assert(b64(s) == enc3(s[0], s[1], s[2]) + b64(r));
        assert forall|j: int, t: int| 0 <= j < m && 0 <= t < 4 implies
            #[trigger] b64(s)[4 * j + t] == enc3(s[3 * j], s[3 * j + 1], s[3 * j + 2])[t] by {
            if j > 0 {
                assert(b64(s)[4 * j + t] == b64(r)[4 * (j - 1) + t]);
                assert(r[3 * (j - 1)] == s[3 * j]);
                assert(r[3 * (j - 1) + 1] == s[3 * j + 1]);
                assert(r[3 * (j - 1) + 2] == s[3 * j + 2]);
            }
        }
        assert forall|t: int| 0 <= t < 3 implies #[trigger] b64(s)[4 * m + t] == enc2(s[3 * m], s[3 * m + 1])[t] by {
            assert(b64(s)[4 * m + t] == b64(r)[4 * (m - 1) + t]);
            assert(r[3 * (m - 1)] == s[3 * m]);
            assert(r[3 * (m - 1) + 1] == s[3 * m + 1]);
        }
    }
}

/// Executable alphabet lookup.
pub fn b64_char_of(v: u8) -> (c: char)
    requires v < 64,
    ensures c == b64_char(v),
{
    if v < 26 {
        (v + 65) as char
    } else if v < 52 {
        (v - 26 + 97) as char
    } else if v < 62 {
        (v - 52 + 48) as char
    } else if v == 62 {
        '+'
    } else {
        '/'
    }
}

/// Executable reverse lookup.
pub fn b64_val_of(c: char) -> (r: Option<u8>)
    ensures r == b64_val(c),
{
    let u = c as u32;
    if 'A' <= c && c <= 'Z' {
        Some((u - 65) as u8)
    } else if 'a' <= c && c <= 'z' {
        Some((u - 97 + 26) as u8)
    } else if '0' <= c && c <= '9' {
        Some((u - 48 + 52) as u8)
    } else if c == '+' {
        Some(62)
    } else if c == '/' {
        Some(63)
    } else {
        None
    }
}

/// Base64 (standard alphabet, no padding) of a 32-byte key.
pub fn encode_key(k: &[u8; 32]) -> (s: String)
    ensures s@ == b64(k@),
{
    let mut out: Vec<char> = Vec::new();
    let mut j: usize = 0;
    while j < 10
        invariant
            j <= 10,
            out@.len() == 4 * j,
            forall|q: int, t: int| 0 <= q < j && 0 <= t < 4 ==>
                #[trigger] out@[4 * q + t] == enc3(k@[3 * q], k@[3 * q + 1], k@[3 * q + 2])[t],
        decreases 10 - j,
    {
        let a = k[3 * j];
        let b = k[3 * j + 1];
        let c = k[3 * j + 2];
        assert(a >> 2u8 < 64 && ((a & 3u8) << 4u8) | (b >> 4u8) < 64 && ((b & 15u8) << 2u8) | (c >> 6u8) < 64
            && c & 63u8 < 64) by (bit_vector);
        let ghost old_out = out@;
        out.push(b64_char_of(a >> 2u8));
        out.push(b64_char_of(((a & 3u8) << 4u8) | (b >> 4u8)));
        out.push(b64_char_of(((b & 15u8) << 2u8) | (c >> 6u8)));
        out.push(b64_char_of(c & 63u8));
        proof {
            assert forall|q: int, t: int| 0 <= q < j + 1 && 0 <= t < 4 implies
                #[trigger] out@[4 * q + t] == enc3(k@[3 * q], k@[3 * q + 1], k@[3 * q + 2])[t] by {
                if q < j {
                    assert(out@[4 * q + t] == old_out[4 * q + t]);
                }
            }
        }
        j += 1;
    }
    let a = k[30];
    let b = k[31];
    assert(a >> 2u8 < 64 && ((a & 3u8) << 4u8) | (b >> 4u8) < 64 && (b & 15u8) << 2u8 < 64) by (bit_vector);
    out.push(b64_char_of(a >> 2u8));
    out.push(b64_char_of(((a & 3u8) << 4u8) | (b >> 4u8)));
    out.push(b64_char_of((b & 15u8) << 2u8));
    proof {
        lemma_b64_layout(k@, 10);
        assert forall|i: int| 0 <= i < 43 implies #[trigger] out@[i] == b64(k@)[i] by {
            if i < 40 {
                let q = i / 4;
                let t = i % 4;
                assert(i == 4 * q + t);
            } else {
                assert(b64(k@)[4 * 10 + (i - 40)] == enc2(k@[30], k@[31])[i - 40]);
            }
        }
        assert(out@ =~= b64(k@));
    }
    string_from(out.as_slice())
}

/// Decoding one group of four characters undoes `enc3`.
pub proof fn lemma_dec3(a: u8, b: u8, c: u8)
    ensures ({
        let v0 = a >> 2u8;
        let v1 = ((a & 3u8) << 4u8) | (b >> 4u8);
        let v2 = ((b & 15u8) << 2u8) | (c >> 6u8);
        let v3 = c & 63u8;
        &&& (v0 << 2u8) | (v1 >> 4u8) == a
        &&& ((v1 & 15u8) << 4u8) | (v2 >> 2u8) == b
        &&& ((v2 & 3u8) << 6u8) | v3 == c
    }),
{
    assert({
        let v0 = a >> 2u8;
        let v1 = ((a & 3u8) << 4u8) | (b >> 4u8);
        let v2 = ((b & 15u8) << 2u8) | (c >> 6u8);
        let v3 = c & 63u8;
        &&& (v0 << 2u8) | (v1 >> 4u8) == a
        &&& ((v1 & 15u8) << 4u8) | (v2 >> 2u8) == b
        &&& ((v2 & 3u8) << 6u8) | v3 == c
    }) by (bit_vector);
}

/// Decoding the final three characters undoes `enc2`.
pub proof fn lemma_dec2(a: u8, b: u8)
    ensures ({
        let v0 = a >> 2u8;
        let v1 = ((a & 3u8) << 4u8) | (b >> 4u8);
        let v2 = (b & 15u8) << 2u8;
        &&& (v0 << 2u8) | (v1 >> 4u8) == a
        &&& ((v1 & 15u8) << 4u8) | (v2 >> 2u8) == b
    }),
{
    assert({
        let v0 = a >> 2u8;
        let v1 = ((a & 3u8) << 4u8) | (b >> 4u8);
        let v2 = (b & 15u8) << 2u8;
        &&& (v0 << 2u8) | (v1 >> 4u8) == a
        &&& ((v1 & 15u8) << 4u8) | (v2 >> 2u8) == b
    }) by (bit_vector);
}

/// The 32-byte key whose base64 is `s`, if there is one.
pub fn decode_key(s: &str) -> (r: Option<[u8; 32]>)
    ensures
        r matches Some(k) ==> b64(k@) == s@,
        r is None ==> forall|k: [u8; 32]| b64(#[trigger] k@) != s@,
        match r { Some(k) => key_of(s@) == Some(k@), None => key_of(s@) is None },
{
    let cs = chars_of(s);
    if cs.len() != 43 {
        proof {
            assert forall|k: [u8; 32]| b64(#[trigger] k@) != s@ by { lemma_b64_layout(k@, 10); }
        }
        return None;
    }
    let mut vals: Vec<u8> = Vec::new();
    let mut i: usize = 0;
    while i < 43
        invariant
            cs@ == s@, cs@.len() == 43,
            i <= 43,
            vals@.len() == i,
            forall|q: int| 0 <= q < i ==> b64_val(cs@[q]) == Some(#[trigger] vals@[q]),
        decreases 43 - i,
    {
        match b64_val_of(cs[i]) {
            Some(v) => vals.push(v),
            None => {
                proof {
                    assert forall|k: [u8; 32]| b64(#[trigger] k@) != s@ by {
                        lemma_b64_layout(k@, 10);
                        if b64(k@) == s@ {
                            let ii = i as int;
                            if ii < 40 {
                                let q = ii / 4;
                                let t = ii % 4;
                                assert(ii == 4 * q + t);
                                let (a, b, c) = (k@[3 * q], k@[3 * q + 1], k@[3 * q + 2]);
                                assert(a >> 2u8 < 64 && ((a & 3u8) << 4u8) | (b >> 4u8) < 64 && ((b & 15u8) << 2u8) | (c >> 6u8) < 64
                                    && c & 63u8 < 64) by (bit_vector);
                                assert(s@[ii] == enc3(a, b, c)[t]);
                            } else {
                                let (a, b) = (k@[30], k@[31]);
                                assert(a >> 2u8 < 64 && ((a & 3u8) << 4u8) | (b >> 4u8) < 64 && (b & 15u8) << 2u8 < 64) by (bit_vector);
                                assert(s@[ii] == b64(k@)[4 * 10 + (ii - 40)]);
                            }
                        }
                    }
                }
                return None;
            },
        }
        i += 1;
    }
    let mut out: [u8; 32] = [0u8; 32];
    let mut j: usize = 0;
    while j < 10
        invariant
            j <= 10,
            vals@.len() == 43,
            forall|q: int| 0 <= q < j ==> {
                &&& #[trigger] out@[3 * q] == (vals@[4 * q] << 2u8) | (vals@[4 * q + 1] >> 4u8)
                &&& out@[3 * q + 1] == ((vals@[4 * q + 1] & 15u8) << 4u8) | (vals@[4 * q + 2] >> 2u8)
                &&& out@[3 * q + 2] == ((vals@[4 * q + 2] & 3u8) << 6u8) | vals@[4 * q + 3]
            },
        decreases 10 - j,
    {
        let v0 = vals[4 * j];
        let v1 = vals[4 * j + 1];
        let v2 = vals[4 * j + 2];
        let v3 = vals[4 * j + 3];
        let ghost prev = out@;
        out[3 * j] = (v0 << 2u8) | (v1 >> 4u8);
        out[3 * j + 1] = ((v1 & 15u8) << 4u8) | (v2 >> 2u8);
        out[3 * j + 2] = ((v2 & 3u8) << 6u8) | v3;
        proof {
            assert forall|q: int| 0 <= q < j + 1 implies {
                &&& #[trigger] out@[3 * q] == (vals@[4 * q] << 2u8) | (vals@[4 * q + 1] >> 4u8)
                &&& out@[3 * q + 1] == ((vals@[4 * q + 1] & 15u8) << 4u8) | (vals@[4 * q + 2] >> 2u8)
                &&& out@[3 * q + 2] == ((vals@[4 * q + 2] & 3u8) << 6u8) | vals@[4 * q + 3]
            } by {
                if q < j {
                    assert(out@[3 * q] == prev[3 * q]);
                    assert(out@[3 * q + 1] == prev[3 * q + 1]);
                    assert(out@[3 * q + 2] == prev[3 * q + 2]);
                }
            }
        }
        j += 1;
    }
    let v0 = vals[40];
    let v1 = vals[41];
    let v2 = vals[42];
    out[30] = (v0 << 2u8) | (v1 >> 4u8);
    out[31] = ((v1 & 15u8) << 4u8) | (v2 >> 2u8);
    let again = encode_key(&out);
    let same = crate::strmap::str_eq(again.as_str(), s);
    if same {
        proof { lemma_key_of_b64(out); }
        Some(out)
    } else {
        proof {
            assert forall|k: [u8; 32]| b64(#[trigger] k@) != s@ by {
                if b64(k@) == s@ {
                    lemma_b64_layout(k@, 10);
                    assert forall|q: int| 0 <= q < 10 implies
                        #[trigger] out@[3 * q] == k@[3 * q] && out@[3 * q + 1] == k@[3 * q + 1] && out@[3 * q + 2] == k@[3 * q + 2] by {
                        let (a, b, c) = (k@[3 * q], k@[3 * q + 1], k@[3 * q + 2]);
                        assert(a >> 2u8 < 64 && ((a & 3u8) << 4u8) | (b >> 4u8) < 64 && ((b & 15u8) << 2u8) | (c >> 6u8) < 64
                            && c & 63u8 < 64) by (bit_vector);
                        assert(b64(k@)[4 * q + 0] == enc3(a, b, c)[0]);
                        assert(b64(k@)[4 * q + 1] == enc3(a, b, c)[1]);
                        assert(b64(k@)[4 * q + 2] == enc3(a, b, c)[2]);
                        assert(b64(k@)[4 * q + 3] == enc3(a, b, c)[3]);
                        lemma_b64_val_char(a >> 2u8);
                        lemma_b64_val_char(((a & 3u8) << 4u8) | (b >> 4u8));
                        lemma_b64_val_char(((b & 15u8) << 2u8) | (c >> 6u8));
                        lemma_b64_val_char(c & 63u8);
                        lemma_dec3(a, b, c);
                        assert(out@[3 * q] == (vals@[4 * q] << 2u8) | (vals@[4 * q + 1] >> 4u8));
                    }
                    let (a, b) = (k@[30], k@[31]);
                    assert(a >> 2u8 < 64 && ((a & 3u8) << 4u8) | (b >> 4u8) < 64 && (b & 15u8) << 2u8 < 64) by (bit_vector);
                    assert(b64(k@)[4 * 10int + 0] == enc2(a, b)[0]);
                    assert(b64(k@)[4 * 10int + 1] == enc2(a, b)[1]);
                    assert(b64(k@)[4 * 10int + 2] == enc2(a, b)[2]);
                    lemma_b64_val_char(a >> 2u8);
                    lemma_b64_val_char(((a & 3u8) << 4u8) | (b >> 4u8));
                    lemma_b64_val_char((b & 15u8) << 2u8);
                    lemma_dec2(a, b);
                    assert(vals@[40] == a >> 2u8);
                    assert(vals@[41] == ((a & 3u8) << 4u8) | (b >> 4u8));
                    assert(vals@[42] == (b & 15u8) << 2u8);
                    assert(out@[30] == a);
                    assert(out@[31] == b);
                    assert forall|i: int| 0 <= i < 32 implies out@[i] == k@[i] by {
                        if i < 30 {
                            let q = i / 3;
                            assert(i == 3 * q + i % 3);
                            assert(out@[3 * q] == k@[3 * q]);
                        }
                    }
                    assert(out@ =~= k@);
                }
            }
        }
        None
    }
}

/// Different keys have different encodings.
pub proof fn lemma_b64_injective(k1: [u8; 32], k2: [u8; 32])
    requires b64(k1@) == b64(k2@),
    ensures k1@ == k2@,
{
    lemma_b64_layout(k1@, 10);
    lemma_b64_layout(k2@, 10);
    assert forall|q: int| 0 <= q < 10 implies
        #[trigger] k1@[3 * q] == k2@[3 * q] && k1@[3 * q + 1] == k2@[3 * q + 1] && k1@[3 * q + 2] == k2@[3 * q + 2] by {
        let (a, b, c) = (k1@[3 * q], k1@[3 * q + 1], k1@[3 * q + 2]);
        let (x, y, z) = (k2@[3 * q], k2@[3 * q + 1], k2@[3 * q + 2]);
        assert(a >> 2u8 < 64 && ((a & 3u8) << 4u8) | (b >> 4u8) < 64 && ((b & 15u8) << 2u8) | (c >> 6u8) < 64
            && c & 63u8 < 64) by (bit_vector);
        assert(x >> 2u8 < 64 && ((x & 3u8) << 4u8) | (y >> 4u8) < 64 && ((y & 15u8) << 2u8) | (z >> 6u8) < 64
            && z & 63u8 < 64) by (bit_vector);
        assert forall|t: int| 0 <= t < 4 implies enc3(a, b, c)[t] == enc3(x, y, z)[t] by {
            assert(b64(k1@)[4 * q + t] == enc3(a, b, c)[t]);
            assert(b64(k2@)[4 * q + t] == enc3(x, y, z)[t]);
        }
        lemma_b64_val_char(a >> 2u8);
        lemma_b64_val_char(((a & 3u8) << 4u8) | (b >> 4u8));
        lemma_b64_val_char(((b & 15u8) << 2u8) | (c >> 6u8));
        lemma_b64_val_char(c & 63u8);
        lemma_b64_val_char(x >> 2u8);
        lemma_b64_val_char(((x & 3u8) << 4u8) | (y >> 4u8));
        lemma_b64_val_char(((y & 15u8) << 2u8) | (z >> 6u8));
        lemma_b64_val_char(z & 63u8);
        assert(enc3(a, b, c)[0] == enc3(x, y, z)[0]);
        assert(enc3(a, b, c)[1] == enc3(x, y, z)[1]);
        assert(enc3(a, b, c)[2] == enc3(x, y, z)[2]);
        assert(enc3(a, b, c)[3] == enc3(x, y, z)[3]);
        lemma_dec3(a, b, c);
        lemma_dec3(x, y, z);
    }
    let (a, b) = (k1@[30], k1@[31]);
    let (x, y) = (k2@[30], k2@[31]);
    assert(a >> 2u8 < 64 && ((a & 3u8) << 4u8) | (b >> 4u8) < 64 && (b & 15u8) << 2u8 < 64) by (bit_vector);
    assert(x >> 2u8 < 64 && ((x & 3u8) << 4u8) | (y >> 4u8) < 64 && (y & 15u8) << 2u8 < 64) by (bit_vector);
    assert forall|t: int| 0 <= t < 3 implies enc2(a, b)[t] == enc2(x, y)[t] by {
        assert(b64(k1@)[4 * 10int + t] == enc2(a, b)[t]);
        assert(b64(k2@)[4 * 10int + t] == enc2(x, y)[t]);
    }
    assert(enc2(a, b)[0] == enc2(x, y)[0]);
    assert(enc2(a, b)[1] == enc2(x, y)[1]);
    assert(enc2(a, b)[2] == enc2(x, y)[2]);
    lemma_b64_val_char(a >> 2u8);
    lemma_b64_val_char(((a & 3u8) << 4u8) | (b >> 4u8));
    lemma_b64_val_char((b & 15u8) << 2u8);
    lemma_b64_val_char(x >> 2u8);
    lemma_b64_val_char(((x & 3u8) << 4u8) | (y >> 4u8));
    lemma_b64_val_char((y & 15u8) << 2u8);
    lemma_dec2(a, b);
    lemma_dec2(x, y);
    assert forall|i: int| 0 <= i < 32 implies k1@[i] == k2@[i] by {
        if i < 30 {
            let q = i / 3;
            assert(i == 3 * q + i % 3);
            assert(k1@[3 * q] == k2@[3 * q]);
        }
    }
    assert(k1@ =~= k2@);
}

/// The 32-byte key a base64 text stands for, if any.
pub open spec fn key_of(s: Seq<char>) -> Option<Seq<u8>> {
    if exists|k: [u8; 32]| b64(#[trigger] k@) == s {
        Some((choose|k: [u8; 32]| b64(#[trigger] k@) == s)@)
    } else {
        None
    }
}

/// Decoding a key's encoding gives the key back.
pub proof fn lemma_key_of_b64(k: [u8; 32])
    ensures key_of(b64(k@)) == Some(k@),
{
    let s = b64(k@);
    assert(b64(k@) == s);
    let c = choose|c: [u8; 32]| b64(#[trigger] c@) == s;
    lemma_b64_injective(c, k);
}

} // verus!
