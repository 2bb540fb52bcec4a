//! Small operations on lists of point ids.
use vstd::prelude::*;

verus! {

/// Whether `v` holds `x`.
pub fn contains_id(v: &Vec<u64>, x: u64) -> (r: bool)
    ensures
        r == v@.contains(x),
{
    let mut i: usize = 0;
    while i < v.len()
        invariant
            i <= v@.len(),
            forall|k: int| 0 <= k < i ==> v@[k] != x,
        decreases v@.len() - i,
    {
        if v[i] == x {
            return true;
        }
        i += 1;
    }
    false
}

/// The position of `x` in `v`, if `v` holds it.
pub fn position_of(v: &Vec<u64>, x: u64) -> (r: Option<usize>)
    ensures
        r matches Some(k) ==> k < v@.len() && v@[k as int] == x && forall|j: int|
            0 <= j < k ==> v@[j] != x,
        r is None ==> !v@.contains(x),
{
    let mut i: usize = 0;
    while i < v.len()
        invariant
            i <= v@.len(),
            forall|k: int| 0 <= k < i ==> v@[k] != x,
        decreases v@.len() - i,
    {
        if v[i] == x {
            return Some(i);
        }
        i += 1;
    }
    None
}

/// `v` without the ids that `gone` holds, in the same order.
pub fn without_ids(v: &Vec<u64>, gone: &Vec<u64>) -> (r: Vec<u64>)
    ensures
        r@ == v@.filter(|e: u64| !gone@.contains(e)),
{
    let ghost pred = |e: u64| !gone@.contains(e);
    let mut out: Vec<u64> = Vec::new();
    let mut i: usize = 0;
    while i < v.len()
        invariant
            i <= v@.len(),
            out@ == v@.subrange(0, i as int).filter(pred),
            pred == (|e: u64| !gone@.contains(e)),
        decreases v@.len() - i,
    {
        let ghost before = out@;
        if !contains_id(gone, v[i]) {
            out.push(v[i]);
            assert(v@.subrange(0, i + 1).filter(pred) == before.push(v@[i as int])) by {
                reveal(Seq::filter);

                assert(v@.subrange(0, i + 1).drop_last() == v@.subrange(0, i as int));
            }
        } else {
            assert(v@.subrange(0, i + 1).filter(pred) == before) by {
                reveal(Seq::filter);
                assert(v@.subrange(0, i + 1).drop_last() == v@.subrange(0, i as int));
            }
        }
        i += 1;
    }
    proof {
        assert(v@.subrange(0, v@.len() as int) == v@);
    }
    out
}

} // verus!
