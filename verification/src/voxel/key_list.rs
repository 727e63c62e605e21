//! Lists of leaves: their codes, and which of them come first.
use vstd::prelude::*;

use crate::voxel::chunk_key::{code, ChunkKey};

verus! {

/// The codes of keys.
pub open spec fn codes(keys: Seq<ChunkKey>) -> Seq<u128> {
    keys.map_values(|k: ChunkKey| code(k))
}

/// `keys` lists the leaves of `set`, each once.
pub open spec fn lists(keys: Seq<ChunkKey>, set: Set<u128>) -> bool {
    codes(keys).no_duplicates() && codes(keys).to_set() == set
}

/// The keys whose code is in `pick`, in order, each at its first place only.
pub open spec fn firsts(keys: Seq<ChunkKey>, pick: Set<u128>) -> Seq<ChunkKey>
    decreases keys.len(),
{
    if keys.len() == 0 {
        Seq::empty()
    } else {
        let front = firsts(keys.drop_last(), pick);
        let c = code(keys.last());
        if pick.contains(c) && !codes(keys.drop_last()).contains(c) {
            front.push(keys.last())
        } else {
            front
        }
    }
}

/// One more key taken from the front of `keys`: what becomes of their codes and firsts.
pub proof fn take_one_more(keys: Seq<ChunkKey>, i: int)
    requires
        0 <= i < keys.len(),
    ensures
        keys.take(i + 1).drop_last() == keys.take(i),
        keys.take(i + 1).last() == keys[i],
        codes(keys.take(i + 1)).to_set() == codes(keys.take(i)).to_set().insert(code(keys[i])),
        forall|c: u128|
            codes(keys.take(i)).to_set().contains(c) <==> codes(keys.take(i)).contains(c),
{
    let now = keys.take(i + 1);
    assert(now.drop_last() =~= keys.take(i));
    assert(codes(now) =~= codes(keys.take(i)).push(code(keys[i])));
    let a = codes(now).to_set();
    let b = codes(keys.take(i)).to_set().insert(code(keys[i]));
    assert forall|c: u128| a.contains(c) <==> b.contains(c) by {
        if codes(keys.take(i)).contains(c) {
            let n = choose|n: int| 0 <= n < i && codes(keys.take(i))[n] == c;
            assert(codes(now)[n] == c);
        }
        if c == code(keys[i]) {
            assert(codes(now)[i] == c);
        }
    }
    assert(a =~= b);
}

/// A key is among the firsts exactly if it is picked and listed.
pub proof fn firsts_holds(keys: Seq<ChunkKey>, pick: Set<u128>, c: u128)
    ensures
        codes(firsts(keys, pick)).contains(c) <==> (pick.contains(c) && codes(keys).contains(c)),
    decreases keys.len(),
{
    if keys.len() > 0 {
        let front = keys.drop_last();
        let last = code(keys.last());
        firsts_holds(front, pick, c);
        assert(codes(keys) =~= codes(front).push(last));
        let now = firsts(keys, pick);
        let was = firsts(front, pick);
        if pick.contains(last) && !codes(front).contains(last) {
            assert(codes(now) =~= codes(was).push(last));
        }
        if codes(was).contains(c) {
            let n = choose|n: int| 0 <= n < was.len() && codes(was)[n] == c;
            assert(codes(now)[n] == c);
        }
        if codes(front).contains(c) {
            let n = choose|n: int| 0 <= n < front.len() && codes(front)[n] == c;
            assert(codes(keys)[n] == c);
        }
        if c == last {
            assert(codes(keys)[keys.len() - 1] == c);
            if pick.contains(last) && !codes(front).contains(last) {
                assert(codes(now)[now.len() - 1] == c);
            }
        }
    }
}

/// No key is among the firsts twice.
pub proof fn firsts_once(keys: Seq<ChunkKey>, pick: Set<u128>)
    ensures
        codes(firsts(keys, pick)).no_duplicates(),
    decreases keys.len(),
{
    if keys.len() > 0 {
        let front = keys.drop_last();
        let c = code(keys.last());
        firsts_once(front, pick);
        firsts_holds(front, pick, c);
        if pick.contains(c) && !codes(front).contains(c) {
            assert(codes(firsts(keys, pick)) =~= codes(firsts(front, pick)).push(c));
        }
    }
}

/// Pushing an element adds it to the set of elements.
pub proof fn pushed_to_set(s: Seq<u128>, c: u128)
    ensures
        s.push(c).to_set() == s.to_set().insert(c),
{
    assert forall|x: u128| s.push(c).to_set().contains(x) <==> s.to_set().insert(c).contains(
        x,
    ) by {
        if s.contains(x) {
            let n = choose|n: int| 0 <= n < s.len() && s[n] == x;
            assert(s.push(c)[n] == x);
        }
        if x == c {
            assert(s.push(c)[s.len() as int] == x);
        }
    }
    assert(s.push(c).to_set() =~= s.to_set().insert(c));
}

/// Picked keys keep the order of the list: a list of different keys that are all picked stays as it
/// is, and a key that comes again, or is not picked, adds nothing.
pub proof fn firsts_keep_the_order(keys: Seq<ChunkKey>, pick: Set<u128>, k: ChunkKey)
    ensures
        codes(keys).no_duplicates() && (forall|i: int|
            0 <= i < keys.len() ==> pick.contains(code(#[trigger] keys[i]))) ==> firsts(keys, pick)
            == keys,
        !pick.contains(code(k)) || codes(keys).contains(code(k)) ==> firsts(keys.push(k), pick)
            == firsts(keys, pick),
        pick.contains(code(k)) && !codes(keys).contains(code(k)) ==> firsts(keys.push(k), pick)
            == firsts(keys, pick).push(k),
    decreases keys.len(),
{
    assert(keys.push(k).drop_last() =~= keys);
    if keys.len() > 0 {
        let front = keys.drop_last();
        firsts_keep_the_order(front, pick, k);
        if codes(keys).no_duplicates() && (forall|i: int|
            0 <= i < keys.len() ==> pick.contains(code(#[trigger] keys[i]))) {
            assert(codes(keys) =~= codes(front).push(code(keys.last())));
            assert forall|i: int| 0 <= i < front.len() implies pick.contains(
                code(#[trigger] front[i]),
            ) by {
                assert(front[i] == keys[i]);
            }
            assert(pick.contains(code(keys[keys.len() - 1])));
            assert forall|i: int, j: int|
                0 <= i < codes(front).len() && 0 <= j < codes(front).len() && i != j implies codes(
                front,
            )[i] != codes(front)[j] by {
                assert(codes(keys)[i] != codes(keys)[j]);
            }
            if codes(front).contains(code(keys.last())) {
                let n = choose|n: int|
                    0 <= n < front.len() && codes(front)[n] == code(keys.last());
                assert(codes(keys)[n] == codes(keys)[keys.len() - 1]);
            }
            assert(front.push(keys.last()) =~= keys);
        }
    } else {
        assert(firsts(keys, pick) =~= keys);
    }
}

} // verus!
