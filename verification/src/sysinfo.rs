//! Local machine facts shared during the authorization exchange: MAC
//! addresses normalised for comparison, and the soft same-machine check.

use vstd::prelude::*;
use crate::crypto::{hex_byte, push_hex_byte};
use crate::strmap::str_eq;
use crate::text::string_from;

verus! {

/// The 48-bit value of a MAC address, most significant byte first.
pub open spec fn mac_key(m: [u8; 6]) -> int {
    ((((m[0] as int * 256 + m[1] as int) * 256 + m[2] as int) * 256 + m[3] as int) * 256 + m[4] as int) * 256 + m[5] as int
}

/// Lowercase `aa:bb:cc:dd:ee:ff` text of a MAC address.
pub open spec fn mac_text(m: [u8; 6]) -> Seq<char> {
    hex_byte(m[0]) + seq![':'] + hex_byte(m[1]) + seq![':'] + hex_byte(m[2]) + seq![':']
        + hex_byte(m[3]) + seq![':'] + hex_byte(m[4]) + seq![':'] + hex_byte(m[5])
}

/// The key of a MAC address, computed.
fn mac_key_of(m: &[u8; 6]) -> (k: u64)
    ensures k as int == mac_key(*m),
{
    (((((m[0] as u64 * 256 + m[1] as u64) * 256 + m[2] as u64) * 256 + m[3] as u64) * 256 + m[4] as u64) * 256) + m[5] as u64
}

/// Render a MAC address.
pub fn mac_string(m: &[u8; 6]) -> (s: String)
    ensures s@ == mac_text(*m),
{
    let mut v: Vec<char> = Vec::new();
    push_hex_byte(&mut v, m[0]);
    v.push(':');
    push_hex_byte(&mut v, m[1]);
    v.push(':');
    push_hex_byte(&mut v, m[2]);
    v.push(':');
    push_hex_byte(&mut v, m[3]);
    v.push(':');
    push_hex_byte(&mut v, m[4]);
    v.push(':');
    push_hex_byte(&mut v, m[5]);
    proof { assert(v@ =~= mac_text(*m)); }
    string_from(v.as_slice())
}

/// The interface addresses worth reporting: the non-zero ones, each once,
/// ordered by their bytes (which is also the order of their text).
pub open spec fn reported(raw: Seq<[u8; 6]>, out: Seq<[u8; 6]>) -> bool {
    &&& forall|i: int, j: int| 0 <= i < j < out.len() ==> mac_key(#[trigger] out[i]) < mac_key(#[trigger] out[j])
    &&& forall|i: int| 0 <= i < out.len() ==> mac_key(#[trigger] out[i]) != 0
    &&& forall|i: int| 0 <= i < out.len() ==> raw.contains(#[trigger] out[i])
    &&& forall|j: int| 0 <= j < raw.len() && mac_key(#[trigger] raw[j]) != 0 ==> out.contains(raw[j])
}

/// Peeling the low byte off `x * 256 + y`.
proof fn lemma_peel(x: int, y: int)
    requires 0 <= y < 256,
    ensures (x * 256 + y) % 256 == y, (x * 256 + y) / 256 == x,
{
    assert((x * 256 + y) % 256 == y) by (nonlinear_arith) requires 0 <= y < 256;
    assert((x * 256 + y) / 256 == x) by (nonlinear_arith) requires 0 <= y < 256;
}

/// Distinct addresses have distinct keys.
pub proof fn lemma_mac_key_injective(a: [u8; 6], b: [u8; 6])
    requires mac_key(a) == mac_key(b),
    ensures a == b,
{
    let a1 = a[0] as int * 256 + a[1] as int;
    let a2 = a1 * 256 + a[2] as int;
    let a3 = a2 * 256 + a[3] as int;
    let a4 = a3 * 256 + a[4] as int;
    let b1 = b[0] as int * 256 + b[1] as int;
    let b2 = b1 * 256 + b[2] as int;
    let b3 = b2 * 256 + b[3] as int;
    let b4 = b3 * 256 + b[4] as int;
    lemma_peel(a4, a[5] as int);
    lemma_peel(b4, b[5] as int);
    lemma_peel(a3, a[4] as int);
    lemma_peel(b3, b[4] as int);
    lemma_peel(a2, a[3] as int);
    lemma_peel(b2, b[3] as int);
    lemma_peel(a1, a[2] as int);
    lemma_peel(b1, b[2] as int);
    lemma_peel(a[0] as int, a[1] as int);
    lemma_peel(b[0] as int, b[1] as int);
    assert(a =~= b);
}

/// Sort, deduplicate and drop all-zero addresses.
pub fn normalize_mac_bytes(raw: &Vec<[u8; 6]>) -> (out: Vec<[u8; 6]>)
    ensures reported(raw@, out@),
{
    let mut out: Vec<[u8; 6]> = Vec::new();
    let mut i: usize = 0;
    while i < raw.len()
        invariant
            i <= raw@.len(),
            reported(raw@.subrange(0, i as int), out@),
        decreases raw@.len() - i,
    {
        let m = raw[i];
        let k = mac_key_of(&m);
        let ghost pre = raw@.subrange(0, i as int);
        let ghost post = raw@.subrange(0, i + 1);
        assert(post[i as int] == m);
        if k != 0 {
            let mut p: usize = 0;
            while p < out.len() && mac_key_of(&out[p]) < k
                invariant
                    p <= out@.len(),
                    forall|q: int| 0 <= q < p ==> mac_key(#[trigger] out@[q]) < k,
                decreases out@.len() - p,
            {
                p += 1;
            }
            let dup = p < out.len() && mac_key_of(&out[p]) == k;
            if !dup {
                let ghost prev = out@;
                out.insert(p, m);
                proof {
                    assert(out@ =~= prev.subrange(0, p as int).push(m) + prev.subrange(p as int, prev.len() as int));
                    assert forall|a: int, b: int| 0 <= a < b < out@.len() implies mac_key(#[trigger] out@[a]) < mac_key(#[trigger] out@[b]) by {
                        let a0 = if a < p { a } else if a == p { -1 } else { a - 1 };
                        let b0 = if b < p { b } else if b == p { -1 } else { b - 1 };
                        if a < p && b > p { assert(mac_key(prev[b0]) >= k) by {
                            if p < prev.len() { assert(mac_key(prev[p as int]) > k); if b0 > p { assert(mac_key(prev[p as int]) < mac_key(prev[b0])); } }
                        } }
                        if a == p && b > p {
                            assert(mac_key(prev[p as int]) > k);
                            if b0 > p { assert(mac_key(prev[p as int]) < mac_key(prev[b0])); }
                        }
                    }
                    assert forall|a: int| 0 <= a < out@.len() implies post.contains(#[trigger] out@[a]) by {
                        if a < p {
                            let j = choose|j: int| 0 <= j < pre.len() && pre[j] == prev[a];
                            assert(post[j] == pre[j]);
                        } else if a == p {
                            assert(post[i as int] == out@[a]);
                        } else {
                            let j = choose|j: int| 0 <= j < pre.len() && pre[j] == prev[a - 1];
                            assert(post[j] == pre[j]);
                        }
                    }
                    assert forall|j: int| 0 <= j < post.len() && mac_key(#[trigger] post[j]) != 0 implies out@.contains(post[j]) by {
                        if j < i {
                            assert(pre[j] == post[j]);
                            let a = choose|a: int| 0 <= a < prev.len() && prev[a] == pre[j];
                            if a < p { assert(out@[a] == prev[a]); } else { assert(out@[a + 1] == prev[a]); }
                        } else {
                            assert(out@[p as int] == post[j]);
                        }
                    }
                }
            } else {
                proof {
                    lemma_mac_key_injective(out@[p as int], m);
                    assert forall|a: int| 0 <= a < out@.len() implies post.contains(#[trigger] out@[a]) by {
                        let j = choose|j: int| 0 <= j < pre.len() && pre[j] == out@[a];
                        assert(post[j] == pre[j]);
                    }
                    assert forall|j: int| 0 <= j < post.len() && mac_key(#[trigger] post[j]) != 0 implies out@.contains(post[j]) by {
                        if j < i { assert(pre[j] == post[j]); } else { assert(out@[p as int] == post[j]); }
                    }
                }
            }
        } else {
            proof {
                assert forall|a: int| 0 <= a < out@.len() implies post.contains(#[trigger] out@[a]) by {
                    let j = choose|j: int| 0 <= j < pre.len() && pre[j] == out@[a];
                    assert(post[j] == pre[j]);
                }
                assert forall|j: int| 0 <= j < post.len() && mac_key(#[trigger] post[j]) != 0 implies out@.contains(post[j]) by {
                    assert(j < i);
                    assert(pre[j] == post[j]);
                }
            }
        }
        i += 1;
    }
    proof { assert(raw@.subrange(0, raw@.len() as int) =~= raw@); }
    out
}

/// The report for a list of interface addresses: the normalised addresses
/// as lowercase colon-separated text.
pub fn normalize_macs(raw: &Vec<[u8; 6]>) -> (r: Vec<String>)
    ensures
        exists|out: Seq<[u8; 6]>| #[trigger] reported(raw@, out) && r@.len() == out.len()
            && forall|i: int| 0 <= i < out.len() ==> #[trigger] r@[i]@ == mac_text(out[i]),
{
    let ms = normalize_mac_bytes(raw);
    let mut r: Vec<String> = Vec::new();
    let mut i: usize = 0;
    while i < ms.len()
        invariant
            i <= ms@.len(),
            r@.len() == i,
            forall|q: int| 0 <= q < i ==> #[trigger] r@[q]@ == mac_text(ms@[q]),
        decreases ms@.len() - i,
    {
        r.push(mac_string(&ms[i]));
        i += 1;
    }
    r
}

/// Whether `observed` still overlaps `recorded`: an empty `recorded`
/// (nothing was captured) always matches.
pub open spec fn spec_macs_match(recorded: Seq<String>, observed: Seq<String>) -> bool {
    recorded.len() == 0 || exists|i: int, j: int| 0 <= i < recorded.len() && 0 <= j < observed.len()
        && #[trigger] recorded[i]@ == #[trigger] observed[j]@
}

/// Soft "same machine" check used when an authorized peer reconnects.
pub fn macs_still_match(recorded: &Vec<String>, observed: &Vec<String>) -> (b: bool)
    ensures b == spec_macs_match(recorded@, observed@),
{
    if recorded.len() == 0 {
        return true;
    }
    let mut i: usize = 0;
    while i < recorded.len()
        invariant
            i <= recorded@.len(),
            forall|a: int, b: int| 0 <= a < i && 0 <= b < observed@.len() ==> #[trigger] recorded@[a]@ != #[trigger] observed@[b]@,
        decreases recorded@.len() - i,
    {
        let mut j: usize = 0;
        while j < observed.len()
            invariant
                i < recorded@.len(),
                j <= observed@.len(),
                forall|b: int| 0 <= b < j ==> recorded@[i as int]@ != #[trigger] observed@[b]@,
            decreases observed@.len() - j,
        {
            if str_eq(recorded[i].as_str(), observed[j].as_str()) {
                return true;
            }
            j += 1;
        }
        i += 1;
    }
    false
}

} // verus!
