//! Ordering things by integer keys, nearest first.
use vstd::prelude::*;

verus! {

/// `a` comes before `b`: by key, and among equal keys by place.
pub open spec fn before(a: (u64, usize), b: (u64, usize)) -> bool {
    a.0 < b.0 || (a.0 == b.0 && a.1 < b.1)
}

/// Each element comes before those after it.
pub open spec fn ordered(s: Seq<(u64, usize)>) -> bool {
    forall|i: int, j: int| 0 <= i < j < s.len() ==> before(#[trigger] s[i], #[trigger] s[j])
}

/// `order` is a permutation of the places of `keys` that puts smaller keys first and leaves
/// equal keys in the order they came.
pub open spec fn sorts(order: Seq<usize>, keys: Seq<u64>) -> bool {
    &&& order.len() == keys.len()
    &&& forall|i: int| 0 <= i < order.len() ==> (#[trigger] order[i]) < keys.len()
    &&& forall|i: int, j: int|
        0 <= i < j < order.len() ==> keys[#[trigger] order[i] as int] < keys[#[trigger] order[j] as int]
            || (keys[order[i] as int] == keys[order[j] as int] && order[i] < order[j])
    &&& forall|p: int|
        0 <= p < keys.len() ==> #[trigger] order.contains(p as usize)
}

fn is_before(a: (u64, usize), b: (u64, usize)) -> (r: bool)
    ensures
        r == before(a, b),
{
    a.0 < b.0 || (a.0 == b.0 && a.1 < b.1)
}

/// Merges two ordered lists that share no element.
fn merge(a: &Vec<(u64, usize)>, b: &Vec<(u64, usize)>) -> (out: Vec<(u64, usize)>)
    requires
        ordered(a@),
        ordered(b@),
        forall|i: int, j: int|
            0 <= i < a.len() && 0 <= j < b.len() ==> (#[trigger] a[i]).1 != (#[trigger] b[j]).1,
    ensures
        ordered(out@),
        out.len() == a.len() + b.len(),
        forall|x: (u64, usize)| out@.contains(x) <==> (a@.contains(x) || b@.contains(x)),
{
    let mut out: Vec<(u64, usize)> = Vec::new();
    let mut i: usize = 0;
    let mut j: usize = 0;
    while i < a.len() || j < b.len()
        invariant
            i <= a.len(),
            j <= b.len(),
            ordered(a@),
            ordered(b@),
            forall|i: int, j: int|
                0 <= i < a.len() && 0 <= j < b.len() ==> (#[trigger] a[i]).1 != (#[trigger] b[j]).1,
            out.len() == i + j,
            ordered(out@),
            forall|n: int, m: int|
                0 <= n < out.len() && i <= m < a.len() ==> before(#[trigger] out[n], #[trigger] a[m]),
            forall|n: int, m: int|
                0 <= n < out.len() && j <= m < b.len() ==> before(#[trigger] out[n], #[trigger] b[m]),
            forall|n: int|
                0 <= n < out.len() ==> (a@.contains(#[trigger] out[n]) || b@.contains(out[n])),
            forall|m: int| 0 <= m < i ==> out@.contains(#[trigger] a[m]),
            forall|m: int| 0 <= m < j ==> out@.contains(#[trigger] b[m]),
        decreases a.len() - i + b.len() - j,
    {
        let ghost was = out@;
        let left: bool = if i >= a.len() {
            false
        } else if j >= b.len() {
            true
        } else {
            is_before(a[i], b[j])
        };
        if left {
            out.push(a[i]);
            i = i + 1;
        } else {
            out.push(b[j]);
            j = j + 1;
        }
        proof {
            let last = out@[was.len() as int];
            assert(a@.contains(last) || b@.contains(last));
            assert forall|x: (u64, usize)| was.contains(x) implies out@.contains(x) by {
                let n = choose|n: int| 0 <= n < was.len() && was[n] == x;
                assert(out@[n] == x);
            }
            assert(out@.contains(last));
            assert forall|n: int| 0 <= n < out.len() implies (a@.contains(#[trigger] out[n])
                || b@.contains(out[n])) by {
                if n < was.len() {
                    assert(was[n] == out@[n]);
                }
            }
        }
    }
    proof {
        assert forall|x: (u64, usize)| out@.contains(x) <==> (a@.contains(x) || b@.contains(x)) by {
            if a@.contains(x) {
                let m = choose|m: int| 0 <= m < a.len() && a@[m] == x;
                assert(out@.contains(a[m]));
            }
            if b@.contains(x) {
                let m = choose|m: int| 0 <= m < b.len() && b@[m] == x;
                assert(out@.contains(b[m]));
            }
            if out@.contains(x) {
                let n = choose|n: int| 0 <= n < out.len() && out@[n] == x;
                assert(a@.contains(out[n]) || b@.contains(out[n]));
            }
        }
    }
    out
}

fn sort_range(keys: &Vec<u64>, lo: usize, hi: usize) -> (out: Vec<(u64, usize)>)
    requires
        lo <= hi <= keys.len(),
    ensures
        ordered(out@),
        out.len() == hi - lo,
        forall|x: (u64, usize)|
            out@.contains(x) <==> (lo <= x.1 < hi && x.0 == keys[x.1 as int]),
    decreases hi - lo,
{
    let mut out: Vec<(u64, usize)> = Vec::new();
    if hi - lo == 0 {
        return out;
    }
    if hi - lo == 1 {
        out.push((keys[lo], lo));
        proof {
            assert(out@[0] == (keys[lo as int], lo));
        }
        return out;
    }
    let mid: usize = lo + (hi - lo) / 2;
    let a = sort_range(keys, lo, mid);
    let b = sort_range(keys, mid, hi);
    proof {
        assert forall|i: int, j: int| 0 <= i < a.len() && 0 <= j < b.len() implies (
        #[trigger] a[i]).1 != (#[trigger] b[j]).1 by {
            assert(a@.contains(a@[i]));
            assert(b@.contains(b@[j]));
        }
    }
    merge(&a, &b)
}

/// The places of `keys` in ascending order of key; equal keys keep their order.
pub fn nearest_first(keys: &Vec<u64>) -> (order: Vec<usize>)
    ensures
        sorts(order@, keys@),
{
    let pairs = sort_range(keys, 0, keys.len());
    let mut order: Vec<usize> = Vec::new();
    let mut i: usize = 0;
    while i < pairs.len()
        invariant
            i <= pairs.len(),
            order.len() == i,
            forall|j: int| 0 <= j < i ==> #[trigger] order[j] == pairs[j].1,
        decreases pairs.len() - i,
    {
        order.push(pairs[i].1);
        i = i + 1;
    }
    proof {
        assert forall|j: int| 0 <= j < order.len() implies (#[trigger] order[j]) < keys.len()
            && keys[order[j] as int] == pairs[j].0 by {
            assert(pairs@.contains(pairs@[j]));
        }
        assert forall|p: int| 0 <= p < keys.len() implies #[trigger] order@.contains(p as usize) by {
            let x = (keys[p], p as usize);
            assert(pairs@.contains(x));
            let n = choose|n: int| 0 <= n < pairs.len() && pairs@[n] == x;
            assert(order@[n] == p as usize);
        }
        assert forall|i: int, j: int| 0 <= i < j < order.len() implies keys[#[trigger] order[i] as int]
            < keys[#[trigger] order[j] as int] || (keys[order[i] as int] == keys[order[j] as int]
            && order[i] < order[j]) by {
            assert(before(pairs@[i], pairs@[j]));
            assert(order[i] < keys.len());
            assert(order[j] < keys.len());
        }
    }
    order
}

/// There is one order only: two lists that sort the same keys are the same list.
pub proof fn sorted_one_way(a: Seq<usize>, b: Seq<usize>, keys: Seq<u64>)
    requires
        keys.len() <= usize::MAX,
        sorts(a, keys),
        sorts(b, keys),
    ensures
        a == b,
{
    assert forall|n: int| 0 <= n < a.len() implies a[n] == b[n] by {
        same_from_the_front(a, b, keys, n);
    }
    assert(a =~= b);
}

proof fn same_from_the_front(a: Seq<usize>, b: Seq<usize>, keys: Seq<u64>, n: int)
    requires
        keys.len() <= usize::MAX,
        sorts(a, keys),
        sorts(b, keys),
        0 <= n < keys.len(),
    ensures
        a[n] == b[n],
    decreases n,
{
    assert forall|m: int| 0 <= m < n implies a[m] == b[m] by {
        same_from_the_front(a, b, keys, m);
    }
    let p = a[n] as int;
    let q = b[n] as int;
    assert(b.contains(p as usize));
    assert(a.contains(q as usize));
    let i = choose|i: int| 0 <= i < b.len() && b[i] == p as usize;
    let j = choose|j: int| 0 <= j < a.len() && a[j] == q as usize;
    if i < n {
        assert(a[i] == b[i]);
        assert(keys[a[i] as int] < keys[a[n] as int] || a[i] < a[n]);
    }
    if j < n {
        assert(a[j] == b[j]);
        assert(keys[b[j] as int] < keys[b[n] as int] || b[j] < b[n]);
    }
    if i > n && j > n {
        assert(keys[b[n] as int] <= keys[b[i] as int]);
        assert(keys[a[n] as int] <= keys[a[j] as int]);
    }
}

} // verus!
