//! Sorting of sector lists.
use vstd::prelude::*;

verus! {

/// The numbers come in ascending order, none of them twice.
pub open spec fn ascending(s: Seq<u64>) -> bool {
    forall|i: int, j: int| 0 <= i < j < s.len() ==> #[trigger] s[i] < #[trigger] s[j]
}

fn merge(a: &Vec<u64>, b: &Vec<u64>) -> (r: Vec<u64>)
    requires
        ascending(a@),
        ascending(b@),
        forall|i: int, j: int| 0 <= i < a.len() && 0 <= j < b.len() ==> a@[i] != b@[j],
    ensures
        ascending(r@),
        r.len() == a.len() + b.len(),
        forall|x: u64| r@.contains(x) <==> a@.contains(x) || b@.contains(x),
{
    let mut out: Vec<u64> = Vec::new();
    let mut i: usize = 0;
    let mut j: usize = 0;
    while i < a.len() || j < b.len()
        invariant
            ascending(a@),
            ascending(b@),
            forall|i: int, j: int| 0 <= i < a.len() && 0 <= j < b.len() ==> a@[i] != b@[j],
            i <= a.len(),
            j <= b.len(),
            out.len() == i + j,
            ascending(out@),
            forall|k: int, m: int| 0 <= k < out.len() && i <= m < a.len() ==> out@[k] < a@[m],
            forall|k: int, m: int| 0 <= k < out.len() && j <= m < b.len() ==> out@[k] < b@[m],
            forall|k: int|
                0 <= k < out.len() ==> a@.take(i as int).contains(#[trigger] out@[k]) || b@.take(
                    j as int,
                ).contains(out@[k]),
            forall|m: int| 0 <= m < i ==> out@.contains(#[trigger] a@[m]),
            forall|m: int| 0 <= m < j ==> out@.contains(#[trigger] b@[m]),
        decreases a.len() + b.len() - i - j,
    {
        let ghost before = out@;
        let from_a = j >= b.len() || (i < a.len() && a[i] < b[j]);
        let x: u64 = if from_a {
            a[i]
        } else {
            b[j]
        };
        out.push(x);
        proof {
            assert forall|k: int| 0 <= k < before.len() implies out@.contains(before[k]) by {
                assert(out@[k] == before[k]);
            }
            assert(out@[before.len() as int] == x);
        }
        if from_a {
            i = i + 1;
            proof {
                assert forall|k: int| 0 <= k < out.len() implies a@.take(i as int).contains(
                    #[trigger] out@[k],
                ) || b@.take(j as int).contains(out@[k]) by {
                    if k < before.len() {
                        assert(out@[k] == before[k]);
                        if a@.take(i - 1).contains(before[k]) {
                            let m = a@.take(i - 1).index_of(before[k]);
                            assert(a@.take(i as int)[m] == before[k]);
                        }
                    } else {
                        assert(a@.take(i as int)[i - 1] == x);
                    }
                }
                assert forall|m: int| 0 <= m < i implies out@.contains(#[trigger] a@[m]) by {
                    if m < i - 1 {
                        let k = before.index_of(a@[m]);
                        assert(out@[k] == a@[m]);
                    }
                }
                assert forall|m: int| 0 <= m < j implies out@.contains(#[trigger] b@[m]) by {
                    let k = before.index_of(b@[m]);
                    assert(out@[k] == b@[m]);
                }
            }
        } else {
            j = j + 1;
            proof {
                assert forall|k: int| 0 <= k < out.len() implies a@.take(i as int).contains(
                    #[trigger] out@[k],
                ) || b@.take(j as int).contains(out@[k]) by {
                    if k < before.len() {
                        assert(out@[k] == before[k]);
                        if b@.take(j - 1).contains(before[k]) {
                            let m = b@.take(j - 1).index_of(before[k]);
                            assert(b@.take(j as int)[m] == before[k]);
                        }
                    } else {
                        assert(b@.take(j as int)[j - 1] == x);
                    }
                }
                assert forall|m: int| 0 <= m < j implies out@.contains(#[trigger] b@[m]) by {
                    if m < j - 1 {
                        let k = before.index_of(b@[m]);
                        assert(out@[k] == b@[m]);
                    }
                }
                assert forall|m: int| 0 <= m < i implies out@.contains(#[trigger] a@[m]) by {
                    let k = before.index_of(a@[m]);
                    assert(out@[k] == a@[m]);
                }
            }
        }
    }
    proof {
        assert(a@.take(a@.len() as int) =~= a@);
        assert(b@.take(b@.len() as int) =~= b@);
        assert forall|x: u64| out@.contains(x) <==> a@.contains(x) || b@.contains(x) by {
            if out@.contains(x) {
                let k = out@.index_of(x);
                assert(out@[k] == x);
            }
            if a@.contains(x) {
                let m = a@.index_of(x);
                assert(out@.contains(a@[m]));
            }
            if b@.contains(x) {
                let m = b@.index_of(x);
                assert(out@.contains(b@[m]));
            }
        }
    }
    out
}

/// The numbers of a list without duplicates, in ascending order.
pub fn sorted(v: &Vec<u64>) -> (r: Vec<u64>)
    requires
        v@.no_duplicates(),
    ensures
        ascending(r@),
        r.len() == v.len(),
        forall|x: u64| r@.contains(x) <==> v@.contains(x),
        r@.to_set() == v@.to_set(),
{
    let r = sorted_range(v, 0, v.len());
    proof {
        assert(v@.subrange(0, v@.len() as int) =~= v@);
        assert(r@.to_set() =~= v@.to_set());
    }
    r
}

fn sorted_range(v: &Vec<u64>, lo: usize, hi: usize) -> (r: Vec<u64>)
    requires
        lo <= hi <= v.len(),
        v@.no_duplicates(),
    ensures
        ascending(r@),
        r.len() == hi - lo,
        forall|x: u64| r@.contains(x) <==> v@.subrange(lo as int, hi as int).contains(x),
    decreases hi - lo,
{
    let ghost part = v@.subrange(lo as int, hi as int);
    if hi - lo <= 1 {
        let mut out: Vec<u64> = Vec::new();
        if hi - lo == 1 {
            out.push(v[lo]);
        }
        proof {
            assert(out@ =~= part);
        }
        return out;
    }
    let mid: usize = lo + (hi - lo) / 2;
    let a = sorted_range(v, lo, mid);
    let b = sorted_range(v, mid, hi);
    let ghost left = v@.subrange(lo as int, mid as int);
    let ghost right = v@.subrange(mid as int, hi as int);
    proof {
        assert forall|i: int, j: int| 0 <= i < a.len() && 0 <= j < b.len() implies a@[i]
            != b@[j] by {
            assert(a@.contains(a@[i]) && b@.contains(b@[j]));
            let p = left.index_of(a@[i]);
            let q = right.index_of(b@[j]);
            assert(v@[lo + p] == a@[i]);
            assert(v@[mid + q] == b@[j]);
        }
    }
    let r = merge(&a, &b);
    proof {
        assert forall|x: u64| r@.contains(x) <==> part.contains(x) by {
            if left.contains(x) {
                let p = left.index_of(x);
                assert(part[p] == x);
            }
            if right.contains(x) {
                let q = right.index_of(x);
                assert(part[mid - lo + q] == x);
            }
            if part.contains(x) {
                let k = part.index_of(x);
                if k < mid - lo {
                    assert(left[k] == x);
                } else {
                    assert(right[k - (mid - lo)] == x);
                }
            }
        }
    }
    r
}

/// There is only one ascending list of the numbers of a set.
pub proof fn lemma_ascending_is_unique(a: Seq<u64>, b: Seq<u64>)
    requires
        ascending(a),
        ascending(b),
        a.to_set() == b.to_set(),
    ensures
        a == b,
    decreases a.len(),
{
    if a.len() == 0 {
        if b.len() > 0 {
            assert(b.to_set().contains(b[0]));
            assert(a.to_set().contains(b[0]));
        }
        assert(a =~= b);
    } else {
        assert(a.to_set().contains(a.last()));
        assert(b.contains(a.last()));
        assert(b.len() > 0);
        assert(b.to_set().contains(b.last()));
        assert(a.contains(b.last()));
        let i = a.index_of(b.last());
        let j = b.index_of(a.last());
        assert(a.last() == b.last()) by {
            if i < a.len() - 1 {
                assert(a[i] < a[a.len() - 1]);
            }
            if j < b.len() - 1 {
                assert(b[j] < b[b.len() - 1]);
            }
        }
        let fa = a.drop_last();
        let fb = b.drop_last();
        assert forall|x: u64| fa.to_set().contains(x) <==> fb.to_set().contains(x) by {
            if fa.contains(x) {
                let k = fa.index_of(x);
                assert(a[k] == x && a[k] < a[a.len() - 1]);
                assert(a.to_set().contains(x));
                assert(b.contains(x));
                let m = b.index_of(x);
                assert(m != b.len() - 1);
                assert(fb[m] == x);
            }
            if fb.contains(x) {
                let k = fb.index_of(x);
                assert(b[k] == x && b[k] < b[b.len() - 1]);
                assert(b.to_set().contains(x));
                assert(a.contains(x));
                let m = a.index_of(x);
                assert(m != a.len() - 1);
                assert(fa[m] == x);
            }
        }
        assert(fa.to_set() =~= fb.to_set());
        lemma_ascending_is_unique(fa, fb);
        assert(a =~= fa.push(a.last()));
        assert(b =~= fb.push(b.last()));
    }
}

/// The ascending list of the numbers of a set.
pub open spec fn ascending_list(s: Set<u64>) -> Seq<u64> {
    choose|q: Seq<u64>| ascending(q) && #[trigger] q.to_set() == s
}

/// A list that is ascending and has the numbers of the set is that list.
pub proof fn lemma_ascending_list(q: Seq<u64>, s: Set<u64>)
    requires
        ascending(q),
        q.to_set() == s,
    ensures
        ascending_list(s) == q,
{
    lemma_ascending_is_unique(q, ascending_list(s));
}

} // verus!
