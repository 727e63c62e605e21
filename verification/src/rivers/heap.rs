//! A queue of cells that gives the lowest first.
use vstd::prelude::*;

verus! {

/// `a` is no later than `b`: by height, and at equal heights by number.
pub open spec fn le(a: (i64, u32), b: (i64, u32)) -> bool {
    a.0 < b.0 || (a.0 == b.0 && a.1 <= b.1)
}

/// Every item but `hole` is no earlier than its parent, and those below `hole` are no earlier
/// than the one above it.
spec fn ordered_but(v: Seq<(i64, u32)>, hole: int) -> bool {
    &&& forall|k: int| 0 < k < v.len() && k != hole ==> le(v[(k - 1) / 2], #[trigger] v[k])
    &&& hole > 0 ==> forall|k: int|
        0 < k < v.len() && (k - 1) / 2 == hole ==> le(v[(hole - 1) / 2], #[trigger] v[k])
}

/// Every item is no earlier than its parent, but for the children of `hole`; those are no
/// earlier than the one above `hole`.
spec fn ordered_above(v: Seq<(i64, u32)>, hole: int) -> bool {
    &&& forall|k: int|
        0 < k < v.len() && (k - 1) / 2 != hole ==> le(v[(k - 1) / 2], #[trigger] v[k])
    &&& hole > 0 ==> forall|k: int|
        0 < k < v.len() && (k - 1) / 2 == hole ==> le(v[(hole - 1) / 2], #[trigger] v[k])
}

spec fn heap_ordered(v: Seq<(i64, u32)>) -> bool {
    forall|k: int| 0 < k < v.len() ==> le(v[(k - 1) / 2], #[trigger] v[k])
}

proof fn root_is_least(v: Seq<(i64, u32)>, k: int)
    requires
        heap_ordered(v),
        0 <= k < v.len(),
    ensures
        le(v[0], v[k]),
    decreases k,
{
    if k > 0 {
        root_is_least(v, (k - 1) / 2);
        assert(le(v[(k - 1) / 2], v[k]));
    }
}

/// A set of cells with heights, the lowest at hand.
pub struct MinHeap {
    items: Vec<(i64, u32)>,
}

impl View for MinHeap {
    type V = Set<(i64, u32)>;

    closed spec fn view(&self) -> Set<(i64, u32)> {
        self.items@.to_set()
    }
}

impl MinHeap {
    pub closed spec fn wf(&self) -> bool {
        heap_ordered(self.items@) && self.items@.no_duplicates()
    }

    /// No cells.
    pub fn new() -> (h: Self)
        ensures
            h.wf(),
            h@ == Set::<(i64, u32)>::empty(),
    {
        let h = MinHeap { items: Vec::new() };
        proof {
            assert(h@ =~= Set::<(i64, u32)>::empty());
        }
        h
    }

    fn swap(&mut self, i: usize, j: usize)
        requires
            i < old(self).items.len(),
            j < old(self).items.len(),
            i != j,
            old(self).items@.no_duplicates(),
        ensures
            final(self).items@ == old(self).items@.update(i as int, old(self).items@[j as int]).update(
                j as int,
                old(self).items@[i as int],
            ),
            final(self).items@.no_duplicates(),
            final(self)@ == old(self)@,
    {
        let a = self.items[i];
        let b = self.items[j];
        self.items.set(i, b);
        self.items.set(j, a);
        proof {
            let s = old(self).items@;
            let t = self.items@;
            assert forall|x: (i64, u32)| s.to_set().contains(x) <==> t.to_set().contains(x) by {
                if s.contains(x) {
                    let n = choose|n: int| 0 <= n < s.len() && s[n] == x;
                    if n == i {
                        assert(t[j as int] == x);
                    } else if n == j {
                        assert(t[i as int] == x);
                    } else {
                        assert(t[n] == x);
                    }
                }
                if t.contains(x) {
                    let n = choose|n: int| 0 <= n < t.len() && t[n] == x;
                    if n == i {
                        assert(s[j as int] == x);
                    } else if n == j {
                        assert(s[i as int] == x);
                    } else {
                        assert(s[n] == x);
                    }
                }
            }
            assert(self@ =~= old(self)@);
        }
    }

    /// Adds a cell that is not in.
    pub fn push(&mut self, item: (i64, u32))
        requires
            old(self).wf(),
            !old(self)@.contains(item),
        ensures
            final(self).wf(),
            final(self)@ == old(self)@.insert(item),
    {
        let ghost start = self.items@;
        self.items.push(item);
        let mut i: usize = self.items.len() - 1;
        proof {
            let t = self.items@;
            assert forall|x: (i64, u32)| t.to_set().contains(x) <==> start.to_set().insert(
                item,
            ).contains(x) by {
                if start.contains(x) {
                    let n = choose|n: int| 0 <= n < start.len() && start[n] == x;
                    assert(t[n] == x);
                }
                assert(t[start.len() as int] == item);
            }
            assert(self@ =~= old(self)@.insert(item));
            assert forall|n: int, m: int| 0 <= n < t.len() && 0 <= m < t.len() && n != m implies t[n]
                != t[m] by {
                if n == start.len() {
                    assert(start.contains(start[m]));
                }
                if m == start.len() {
                    assert(start.contains(start[n]));
                }
            }
        }
        while i > 0
            invariant
                i < self.items.len(),
                self.items@.no_duplicates(),
                self@ == old(self)@.insert(item),
                ordered_but(self.items@, i as int),
            ensures
                self.items@.no_duplicates(),
                self@ == old(self)@.insert(item),
                heap_ordered(self.items@),
            decreases i,
        {
            let p: usize = (i - 1) / 2;
            let a = self.items[i];
            let b = self.items[p];
            if b.0 < a.0 || (b.0 == a.0 && b.1 <= a.1) {
                break ;
            }
            let ghost v = self.items@;
            self.swap(i, p);
            proof {
                let w = self.items@;
                assert forall|k: int| 0 < k < w.len() && k != p implies le(
                    w[(k - 1) / 2],
                    #[trigger] w[k],
                ) by {
                    if k == i {
                    } else if (k - 1) / 2 == i {
                        assert(le(v[p as int], v[k]));
                    } else if (k - 1) / 2 == p {
                        assert(le(v[p as int], v[k]));
                    } else {
                        assert(le(v[(k - 1) / 2], v[k]));
                    }
                }
                if p > 0 {
                    assert forall|k: int| 0 < k < w.len() && (k - 1) / 2 == p implies le(
                        w[(p - 1) / 2],
                        #[trigger] w[k],
                    ) by {
                        assert(le(v[(p - 1) / 2], v[p as int]));
                        if k != i {
                            assert(le(v[p as int], v[k]));
                        }
                    }
                }
            }
            i = p;
        }
    }

    /// Takes the lowest cell out.
    pub fn pop(&mut self) -> (least: Option<(i64, u32)>)
        requires
            old(self).wf(),
        ensures
            final(self).wf(),
            least is None <==> old(self)@ == Set::<(i64, u32)>::empty(),
            least is None ==> final(self)@ == old(self)@,
            least matches Some(x) ==> {
                &&& old(self)@.contains(x)
                &&& forall|y: (i64, u32)| #[trigger] old(self)@.contains(y) ==> le(x, y)
                &&& final(self)@ == old(self)@.remove(x)
            },
    {
        if self.items.len() == 0 {
            proof {
                assert(self@ =~= Set::<(i64, u32)>::empty());
            }
            return None;
        }
        let ghost v = self.items@;
        let root = self.items[0];
        proof {
            assert(v.contains(root));
            assert(old(self)@.contains(root));
            assert forall|y: (i64, u32)| #[trigger] old(self)@.contains(y) implies le(root, y) by {
                let n = choose|n: int| 0 <= n < v.len() && v[n] == y;
                root_is_least(v, n);
            }
        }
        let last = self.items.pop().unwrap();
        if self.items.len() == 0 {
            proof {
                assert(v.len() == 1);
                assert forall|x: (i64, u32)| !old(self)@.remove(root).contains(x) by {
                    if v.contains(x) {
                        let n = choose|n: int| 0 <= n < v.len() && v[n] == x;
                    }
                }
                assert(self@ =~= old(self)@.remove(root));
            }
            return Some(root);
        }
        self.items.set(0, last);
        proof {
            let w = self.items@;
            assert(w =~= v.drop_last().update(0, v.last()));
            assert forall|x: (i64, u32)| w.to_set().contains(x) <==> v.to_set().remove(
                root,
            ).contains(x) by {
                if w.contains(x) {
                    let n = choose|n: int| 0 <= n < w.len() && w[n] == x;
                    if n == 0 {
                        assert(v[v.len() - 1] == x);
                        assert(v[0] != v[v.len() - 1]);
                    } else {
                        assert(v[n] == x);
                        assert(v[0] != v[n]);
                    }
                }
                if v.contains(x) && x != root {
                    let n = choose|n: int| 0 <= n < v.len() && v[n] == x;
                    if n == v.len() - 1 {
                        assert(w[0] == x);
                    } else {
                        assert(w[n] == x);
                    }
                }
            }
            assert(self@ =~= old(self)@.remove(root));
            assert forall|n: int, m: int| 0 <= n < w.len() && 0 <= m < w.len() && n != m implies w[n]
                != w[m] by {
                assert(v[v.len() - 1] != v[n] && v[v.len() - 1] != v[m]);
                assert(v[n] != v[m]);
            }
            assert forall|k: int| 0 < k < w.len() && (k - 1) / 2 != 0 implies le(
                w[(k - 1) / 2],
                #[trigger] w[k],
            ) by {
                assert(le(v[(k - 1) / 2], v[k]));
            }
        }
        let mut i: usize = 0;
        let n: usize = self.items.len();
        while i < n / 2
            invariant
                n == self.items.len(),
                i < n,
                self.items@.no_duplicates(),
                self@ == old(self)@.remove(root),
                ordered_above(self.items@, i as int),
            ensures
                self.items@.no_duplicates(),
                self@ == old(self)@.remove(root),
                heap_ordered(self.items@),
            decreases n - i,
        {
            let l: usize = 2 * i + 1;
            let mut c: usize = l;
            if l + 1 < n {
                let a = self.items[l];
                let b = self.items[l + 1];
                if b.0 < a.0 || (b.0 == a.0 && b.1 < a.1) {
                    c = l + 1;
                }
            }
            let ghost u = self.items@;
            proof {
                assert forall|k: int| 0 < k < u.len() && (k - 1) / 2 == i implies le(
                    u[c as int],
                    #[trigger] u[k],
                ) by {
                    assert(k == l || k == l + 1);
                }
            }
            let a = self.items[i];
            let b = self.items[c];
            if a.0 < b.0 || (a.0 == b.0 && a.1 <= b.1) {
                proof {
                    assert forall|k: int| 0 < k < u.len() implies le(
                        u[(k - 1) / 2],
                        #[trigger] u[k],
                    ) by {
                        if (k - 1) / 2 == i {
                            assert(le(u[c as int], u[k]));
                        }
                    }
                }
                break ;
            }
            self.swap(i, c);
            proof {
                let w = self.items@;
                assert forall|k: int| 0 < k < w.len() && (k - 1) / 2 != c implies le(
                    w[(k - 1) / 2],
                    #[trigger] w[k],
                ) by {
                    if k == i {
                        assert(le(u[(i - 1) / 2], u[c as int]));
                    } else if (k - 1) / 2 == i {
                        assert(le(u[c as int], u[k]));
                    } else {
                        assert(le(u[(k - 1) / 2], u[k]));
                    }
                }
                assert forall|k: int| 0 < k < w.len() && (k - 1) / 2 == c implies le(
                    w[(c - 1) / 2],
                    #[trigger] w[k],
                ) by {
                    assert(le(u[c as int], u[k]));
                }
            }
            i = c;
        }
        Some(root)
    }
}

} // verus!
