use std::collections::HashMap;
use vstd::prelude::*;

verus! {

broadcast use vstd::std_specs::hash::group_hash_axioms;

/// The list stored under key `k`, empty when there is none.
pub open spec fn list_of(m: Map<u64, Vec<usize>>, k: u64) -> Seq<usize> {
    if m.contains_key(k) {
        m[k]@
    } else {
        Seq::empty()
    }
}

/// `i` is listed under key `k`.
pub open spec fn listed(m: Map<u64, Vec<usize>>, k: u64, i: usize) -> bool {
    m.contains_key(k) && m[k]@.contains(i)
}

/// `s` with `i` appended, unless `s` already ends with `i`.
pub open spec fn appended_once(s: Seq<usize>, i: usize) -> Seq<usize> {
    if s.len() > 0 && s.last() == i {
        s
    } else {
        s.push(i)
    }
}

/// Strictly increasing, every entry at most `i`.
pub open spec fn increasing_upto(s: Seq<usize>, i: usize) -> bool {
    &&& forall|a: int| 0 <= a < s.len() ==> #[trigger] s[a] <= i
    &&& forall|a: int, b: int| 0 <= a < b < s.len() ==> #[trigger] s[a] < #[trigger] s[b]
}

/// Appends `i` to the list under `k` unless that list already ends with it;
/// every other list stays as it was.
pub fn append_once(m: &mut HashMap<u64, Vec<usize>>, k: u64, i: usize)
    ensures
        final(m)@.contains_key(k),
        final(m)@[k]@ == appended_once(list_of(old(m)@, k), i),
        final(m)@.remove(k) == old(m)@.remove(k),
        forall|k2: u64| k2 != k ==> #[trigger] list_of(final(m)@, k2) == list_of(old(m)@, k2),
        forall|k2: u64, j: usize| #[trigger] listed(old(m)@, k2, j) ==> #[trigger] listed(final(m)@, k2, j),
        listed(final(m)@, k, i),
        increasing_upto(list_of(old(m)@, k), i) ==> increasing_upto(final(m)@[k]@, i),
{
    let ghost g0 = m@;
    let mut v = match m.remove(&k) {
        Some(v) => v,
        None => Vec::new(),
    };
    let ghost v0 = v@;
    assert(v0 == list_of(g0, k));
    if v.len() == 0 || v[v.len() - 1] != i {
        v.push(i);
        assert(v@[v0.len() as int] == i);
    }
    assert(v@ == appended_once(v0, i));
    assert(v@.contains(i));
    proof {
        if increasing_upto(v0, i) && !(v0.len() > 0 && v0.last() == i) {
            assert forall|a: int| 0 <= a < v0.len() implies v0[a] < i by {
                if a < v0.len() - 1 {
                    assert(v0[a] < v0[v0.len() - 1]);
                }
            }
        }
    }
    m.insert(k, v);
    assert(m@.remove(k) =~= g0.remove(k));
    assert forall|k2: u64, j: usize| #[trigger] listed(g0, k2, j) implies #[trigger] listed(
        m@,
        k2,
        j,
    ) by {
        if k2 == k {
            let a = choose|a: int| 0 <= a < g0[k]@.len() && g0[k]@[a] == j;
            assert(v@[a] == j);
        }
    }
}

} // verus!
