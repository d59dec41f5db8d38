//! The peer bus: which connected peers a frame goes to.

use vstd::prelude::*;
use crate::strmap::str_eq;

verus! {

/// The connected peers a broadcast reaches: all of them except `except`,
/// in order.
pub open spec fn spec_targets(connected: Seq<Seq<char>>, except: Option<Seq<char>>) -> Seq<Seq<char>>
    decreases connected.len(),
{
    if connected.len() == 0 {
        Seq::empty()
    } else {
        let rest = spec_targets(connected.drop_last(), except);
        if except == Some(connected.last()) { rest } else { rest.push(connected.last()) }
    }
}

/// The texts of a list of strings.
pub open spec fn texts(v: Seq<String>) -> Seq<Seq<char>> {
    v.map_values(|s: String| s@)
}

/// The peers a broadcast goes to: every connected one but `except`.
pub fn broadcast_targets(connected: &Vec<String>, except: Option<&str>) -> (r: Vec<String>)
    ensures texts(r@) == spec_targets(texts(connected@), match except { Some(e) => Some(e@), None => None }),
{
    let ghost ex = match except { Some(e) => Some(e@), None => None };
    let mut out: Vec<String> = Vec::new();
    let mut i: usize = 0;
    while i < connected.len()
        invariant
            i <= connected@.len(),
            ex == (match except { Some(e) => Some(e@), None => None }),
            texts(out@) == spec_targets(texts(connected@).subrange(0, i as int), ex),
        decreases connected@.len() - i,
    {
        let ghost pre = texts(connected@).subrange(0, i as int);
        let ghost post = texts(connected@).subrange(0, i + 1);
        proof {
            assert(post.drop_last() =~= pre);
            assert(post.last() == connected@[i as int]@);
        }
        let skip = match except {
            Some(e) => str_eq(connected[i].as_str(), e),
            None => false,
        };
        if !skip {
            let c = connected[i].clone();
            let ghost before = out@;
            out.push(c);
            proof { assert(texts(out@) =~= texts(before).push(c@)); }
        }
        i += 1;
    }
    proof { assert(texts(connected@).subrange(0, connected@.len() as int) =~= texts(connected@)); }
    out
}

} // verus!
