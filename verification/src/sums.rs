//! Sums over finite maps.
use vstd::prelude::*;

verus! {

/// The sum of a finite map's values.
pub open spec fn total<K>(m: Map<K, nat>) -> nat
    decreases m.dom().len(),
    when m.dom().finite()
{
    if m.dom().len() == 0 {
        0
    } else {
        let k = m.dom().choose();
        m[k] + total(m.remove(k))
    }
}

/// Any key can be taken out of the sum first.
pub proof fn total_splits<K>(m: Map<K, nat>, k: K)
    requires
        m.dom().finite(),
        m.contains_key(k),
    ensures
        total(m) == m[k] + total(m.remove(k)),
    decreases m.dom().len(),
{
    let c = m.dom().choose();
    assert(m.dom().contains(c)) by {
        vstd::set_lib::lemma_set_empty_equivalency_len(m.dom());
        assert(m.dom().contains(k));
    }
    if c != k {
        assert(m.remove(c).dom() =~= m.dom().remove(c));
        assert(m.remove(k).dom() =~= m.dom().remove(k));
        total_splits(m.remove(c), k);
        total_splits(m.remove(k), c);
        assert(m.remove(c).remove(k) =~= m.remove(k).remove(c));
    }
    assert(m.dom().len() != 0) by {
        vstd::set_lib::lemma_set_empty_equivalency_len(m.dom());
        assert(m.dom().contains(k));
    }
}

/// A sum is at most as many times the greatest value as there are values.
pub proof fn total_below<K>(m: Map<K, nat>, most: nat)
    requires
        m.dom().finite(),
        forall|k: K| m.contains_key(k) ==> #[trigger] m[k] <= most,
    ensures
        total(m) <= m.dom().len() * most,
    decreases m.dom().len(),
{
    if m.dom().len() != 0 {
        let c = m.dom().choose();
        assert(m.dom().contains(c)) by {
            vstd::set_lib::lemma_set_empty_equivalency_len(m.dom());
        }
        assert(m.remove(c).dom() =~= m.dom().remove(c));
        assert forall|k: K| m.remove(c).contains_key(k) implies #[trigger] m.remove(c)[k] <= most by {
            assert(m.contains_key(k));
            assert(m[k] <= most);
        }
        total_below(m.remove(c), most);
        let n = m.dom().len();
        assert(n * most == (n - 1) * most + most) by (nonlinear_arith)
            requires
                n > 0,
        ;
    }
}

} // verus!
