//! Choosing the audio output device by name.
use vstd::prelude::*;

verus! {

/// `pat` occurs in `s`.
pub open spec fn occurs_in(pat: Seq<char>, s: Seq<char>) -> bool {
    exists|i: int| 0 <= i && i + pat.len() <= s.len() && #[trigger] s.subrange(i, i + pat.len()) == pat
}

/// Relies on str::contains with a `&str` pattern: true exactly where the
/// pattern matches a sub-slice of the string.
#[verifier::external_body]
fn str_contains(s: &str, pat: &str) -> (r: bool)
    ensures
        r == occurs_in(pat@, s@),
{
    s.contains(pat)
}

/// The first index from `i` on whose name contains `target`.
pub open spec fn first_match(names: Seq<Seq<char>>, target: Seq<char>, i: int) -> Option<int>
    decreases names.len() - i,
{
    if i < 0 || i >= names.len() {
        None
    } else if occurs_in(target, names[i]) {
        Some(i)
    } else {
        first_match(names, target, i + 1)
    }
}

/// The device chosen among `names`: the default where `target` is empty or
/// no name contains it, else the first name that contains it.
pub open spec fn chosen_device(names: Seq<Seq<char>>, target: Seq<char>, default: Option<usize>) -> Option<usize> {
    if target.len() == 0 {
        default
    } else {
        match first_match(names, target, 0) {
            Some(i) => Some(i as usize),
            None => default,
        }
    }
}

/// The index, among the output devices named `names`, of the first whose
/// name contains `target`; the default device where `target` is empty or
/// no name contains it. `None` only where the choice falls on a default
/// that does not exist.
pub fn select_output_device(names: &Vec<String>, target: &str, default: Option<usize>) -> (r: Option<usize>)
    ensures
        r == chosen_device(names@.map_values(|n: String| n@), target@, default),
{
    let ghost ns = names@.map_values(|n: String| n@);
    if target.is_empty() {
        return default;
    }
    let mut i: usize = 0;
    while i < names.len()
        invariant
            i <= names@.len(),
            target@.len() != 0,
            ns == names@.map_values(|n: String| n@),
            first_match(ns, target@, 0) == first_match(ns, target@, i as int),
        decreases names@.len() - i,
    {
        assert(ns[i as int] == names@[i as int]@);
        if str_contains(names[i].as_str(), target) {
            assert(ns.len() == names@.len());
            assert(occurs_in(target@, ns[i as int]));
            assert(first_match(ns, target@, i as int) == Some(i as int));
            assert(ns =~= names@.map_values(|n: String| n@));
            return Some(i);
        }
        i += 1;
    }
    assert(ns =~= names@.map_values(|n: String| n@));
    default
}

} // verus!
