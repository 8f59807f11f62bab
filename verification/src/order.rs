//! Putting items in order by a key, with items of the same key left in the order they had.

use vstd::prelude::*;

verus! {

/// Whether the item at `a` comes before the one at `b`: by the keys, and where these are the same,
/// by the places.
pub open spec fn before(keys: Seq<u64>, a: int, b: int) -> bool {
    keys[a] < keys[b] || keys[a] == keys[b] && a < b
}

/// Whether places come in order.
pub open spec fn in_order(keys: Seq<u64>, places: Seq<usize>) -> bool {
    forall|i: int, j: int|
        0 <= i < j < places.len() ==> before(
            keys,
            #[trigger] places[i] as int,
            #[trigger] places[j] as int,
        )
}

/// Whether the places are those from `lo` up to `hi`.
pub open spec fn covers(places: Seq<usize>, lo: int, hi: int) -> bool {
    &&& lo <= hi <= usize::MAX
    &&& places.len() == hi - lo
    &&& forall|i: int| 0 <= i < places.len() ==> lo <= #[trigger] places[i] < hi
    &&& forall|k: usize| lo <= k < hi ==> #[trigger] places.contains(k)
}

/// Whether the places put the items with these keys in order: every place once, the lesser key
/// first, and the same keys as they came.
pub open spec fn orders(places: Seq<usize>, keys: Seq<u64>) -> bool {
    covers(places, 0, keys.len() as int) && in_order(keys, places)
}

/// There is only one way to put items in order.
pub proof fn law_order_is_unique(places: Seq<usize>, others: Seq<usize>, keys: Seq<u64>)
    requires
        orders(places, keys),
        orders(others, keys),
    ensures
        places == others,
{
    assert forall|i: int| 0 <= i < places.len() implies #[trigger] places[i] == others[i] by {
        lemma_same_place(places, others, keys, i);
    }
    assert(places =~= others);
}

/// Two orders agree on a place if they do on those before it.
proof fn lemma_same_place(places: Seq<usize>, others: Seq<usize>, keys: Seq<u64>, i: int)
    requires
        orders(places, keys),
        orders(others, keys),
        0 <= i < places.len(),
    ensures
        places[i] == others[i],
    decreases i,
{
    assert forall|k: int| 0 <= k < i implies #[trigger] places[k] == others[k] by {
        lemma_same_place(places, others, keys, k);
    }
    if places[i] != others[i] {
        assert(others.contains(places[i]));
        let a = others.index_of(places[i]);
        assert(places.contains(others[i]));
        let b = places.index_of(others[i]);
        if a < i {
            assert(places[a] == others[a]);
            assert(before(keys, places[a] as int, places[i] as int));
        }
        if b < i {
            assert(places[b] == others[b]);
            assert(before(keys, others[b] as int, others[i] as int));
        }
        assert(before(keys, others[i] as int, others[a] as int));
        assert(before(keys, places[i] as int, places[b] as int));
    }
}

/// Every item comes once, none with a lesser key comes behind one with a greater, and items of the
/// same key come as they did.
pub proof fn law_order_is_stable(places: Seq<usize>, keys: Seq<u64>, i: int, j: int)
    requires
        orders(places, keys),
        0 <= i < j < places.len(),
    ensures
        places.len() == keys.len(),
        places[i] < keys.len() && places[j] < keys.len(),
        places[i] != places[j],
        keys[places[i] as int] <= keys[places[j] as int],
        keys[places[i] as int] == keys[places[j] as int] ==> places[i] < places[j],
{
    assert(before(keys, places[i] as int, places[j] as int));
}

/// Where two items of the same key come.
pub proof fn law_ties_stay(places: Seq<usize>, keys: Seq<u64>, i: int, j: int) -> (r: (int, int))
    requires
        orders(places, keys),
        0 <= i < j < keys.len(),
        keys[i] == keys[j],
    ensures
        0 <= r.0 < r.1 < places.len(),
        places[r.0] == i,
        places[r.1] == j,
{
    assert(places.contains(i as usize));
    assert(places.contains(j as usize));
    let p = places.index_of(i as usize);
    let q = places.index_of(j as usize);
    if q < p {
        assert(before(keys, places[q] as int, places[p] as int));
    }
    (p, q)
}

/// What a sequence holds after one more element.
pub proof fn lemma_push_contains<A>(s: Seq<A>, x: A, y: A)
    ensures
        s.push(x).contains(y) <==> s.contains(y) || x == y,
{
    let t = s.push(x);
    if s.contains(y) {
        let k = s.index_of(y);
        assert(t[k] == y);
    }
    assert(t[s.len() as int] == x);
    if t.contains(y) {
        let k = t.index_of(y);
        if k < s.len() {
            assert(s[k] == y);
        }
    }
}

/// One more element is contained, and what was contained before.
proof fn lemma_push_keeps(s: Seq<usize>, x: usize)
    ensures
        s.push(x).contains(x),
        forall|y: usize| #[trigger] s.contains(y) ==> s.push(x).contains(y),
{
    lemma_push_contains(s, x, x);
    assert forall|y: usize| #[trigger] s.contains(y) implies s.push(x).contains(y) by {
        lemma_push_contains(s, x, y);
    }
}

/// Merges the places of two neighbouring stretches, each in order.
fn merge(keys: &Vec<u64>, left: &Vec<usize>, right: &Vec<usize>, lo: usize, mid: usize, hi: usize) -> (
out: Vec<usize>)
    requires
        lo <= mid <= hi <= keys@.len(),
        covers(left@, lo as int, mid as int),
        covers(right@, mid as int, hi as int),
        in_order(keys@, left@),
        in_order(keys@, right@),
    ensures
        covers(out@, lo as int, hi as int),
        in_order(keys@, out@),
{
    let mut out: Vec<usize> = Vec::new();
    let mut i: usize = 0;
    let mut j: usize = 0;
    while i < left.len() || j < right.len()
        invariant
            lo <= mid <= hi <= keys@.len(),
            covers(left@, lo as int, mid as int),
            covers(right@, mid as int, hi as int),
            in_order(keys@, left@),
            in_order(keys@, right@),
            i <= left@.len(),
            j <= right@.len(),
            out@.len() == i + j,
            in_order(keys@, out@),
            forall|k: int| 0 <= k < out@.len() ==> lo <= #[trigger] out@[k] < hi,
            forall|k: int|
                0 <= k < out@.len() && i < left@.len() ==> before(
                    keys@,
                    #[trigger] out@[k] as int,
                    left@[i as int] as int,
                ),
            forall|k: int|
                0 <= k < out@.len() && j < right@.len() ==> before(
                    keys@,
                    #[trigger] out@[k] as int,
                    right@[j as int] as int,
                ),
            forall|a: int| 0 <= a < i ==> out@.contains(#[trigger] left@[a]),
            forall|b: int| 0 <= b < j ==> out@.contains(#[trigger] right@[b]),
        decreases left@.len() - i + right@.len() - j,
    {
        let ghost so_far = out@;
        let from_left: bool = if i == left.len() {
            false
        } else if j == right.len() {
            true
        } else {
            keys[left[i]] <= keys[right[j]]
        };
        if from_left {
            proof {
                lemma_push_keeps(so_far, left@[i as int]);
            }
            out.push(left[i]);
            i += 1;
        } else {
            proof {
                lemma_push_keeps(so_far, right@[j as int]);
            }
            out.push(right[j]);
            j += 1;
        }
    }
    assert forall|k: usize| lo <= k < hi implies #[trigger] out@.contains(k) by {
        if k < mid {
            assert(left@.contains(k));
            let a = left@.index_of(k);
            assert(out@.contains(left@[a]));
        } else {
            assert(right@.contains(k));
            let b = right@.index_of(k);
            assert(out@.contains(right@[b]));
        }
    }
    out
}

/// Puts the places of a stretch in order.
fn order_stretch(keys: &Vec<u64>, lo: usize, hi: usize) -> (out: Vec<usize>)
    requires
        lo <= hi <= keys@.len(),
    ensures
        covers(out@, lo as int, hi as int),
        in_order(keys@, out@),
    decreases hi - lo,
{
    if hi - lo <= 1 {
        let mut out: Vec<usize> = Vec::new();
        if hi > lo {
            proof {
                lemma_push_keeps(out@, lo);
            }
            out.push(lo);
        }
        return out;
    }
    let mid: usize = lo + (hi - lo) / 2;
    let left: Vec<usize> = order_stretch(keys, lo, mid);
    let right: Vec<usize> = order_stretch(keys, mid, hi);
    merge(keys, &left, &right, lo, mid, hi)
}

/// Puts items in order by their keys, from the least to the greatest: gives the place of the item
/// that comes first, then of the one that comes second, and so on.
pub fn order_by(keys: &Vec<u64>) -> (places: Vec<usize>)
    ensures
        orders(places@, keys@),
{
    order_stretch(keys, 0, keys.len())
}

} // verus!
