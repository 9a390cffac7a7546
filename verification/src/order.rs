//! Ordering colors by luminance.
//!
//! Colors are ranked by an integer luminance key. Colors with equal keys keep
//! the order in which the quantizer produced them, so the ranking of a given
//! list of keys is unique.

use vstd::prelude::*;

verus! {

/// Color `i` is placed before color `j`: its key is lower, or the keys are
/// equal and `i` was produced first.
pub open spec fn comes_before(keys: Seq<i32>, i: int, j: int) -> bool {
    keys[i] < keys[j] || (keys[i] == keys[j] && i < j)
}

/// Every entry of `order` is placed before all entries that follow it.
pub open spec fn increasing(keys: Seq<i32>, order: Seq<usize>) -> bool {
    forall|p: int, q: int|
        #![trigger order[p], order[q]]
        0 <= p < q < order.len() ==> comes_before(keys, order[p] as int, order[q] as int)
}

/// `order` lists each of the first `count` colors once, darkest first.
pub open spec fn arranges(keys: Seq<i32>, order: Seq<usize>, count: int) -> bool {
    &&& order.len() == count
    &&& forall|p: int| 0 <= p < order.len() ==> (#[trigger] order[p]) < count
    &&& forall|i: usize| i < count ==> #[trigger] order.contains(i)
    &&& increasing(keys, order)
}

/// `order` is the stable ascending arrangement of all colors by key.
pub open spec fn is_luminance_order(keys: Seq<i32>, order: Seq<usize>) -> bool {
    arranges(keys, order, keys.len() as int)
}

/// The stable ascending arrangement of the colors by key: entry `p` is the
/// index of the color that takes rank `p`.
pub open spec fn luminance_order(keys: Seq<i32>) -> Seq<usize> {
    choose|order: Seq<usize>| is_luminance_order(keys, order)
}

/// Placing color `count` behind the last entry whose key does not exceed its
/// own extends an arrangement of the first `count` colors by one.
proof fn lemma_insert(keys: Seq<i32>, order: Seq<usize>, count: int, pos: int)
    requires
        arranges(keys, order, count),
        0 <= count < keys.len(),
        count < usize::MAX,
        0 <= pos <= count,
        pos == 0 || keys[order[pos - 1] as int] <= keys[count],
        forall|p: int| pos <= p < count ==> keys[#[trigger] order[p] as int] > keys[count],
    ensures
        arranges(keys, order.insert(pos, count as usize), count + 1),
{
    let grown = order.insert(pos, count as usize);
    assert(grown.len() == count + 1);
    assert forall|p: int| 0 <= p < grown.len() implies (#[trigger] grown[p]) < count + 1 by {
        if p < pos {
            assert(grown[p] == order[p]);
        } else if p > pos {
            assert(grown[p] == order[p - 1]);
        }
    }
    assert forall|i: usize| i < count + 1 implies #[trigger] grown.contains(i) by {
        if i == count {
            assert(grown[pos] == i);
        } else {
            assert(order.contains(i));
            let at = choose|at: int| 0 <= at < order.len() && order[at] == i;
            if at < pos {
                assert(grown[at] == i);
            } else {
                assert(grown[at + 1] == i);
            }
        }
    }
    assert forall|p: int, q: int|
        #![trigger grown[p], grown[q]]
        0 <= p < q < grown.len() implies comes_before(keys, grown[p] as int, grown[q] as int) by {
        let from_p = if p < pos { p } else { p - 1 };
        let from_q = if q < pos { q } else { q - 1 };
        if q == pos {
            assert(grown[p] == order[p]);
            if p < pos - 1 {
                assert(comes_before(keys, order[p] as int, order[pos - 1] as int));
            }
        } else if p == pos {
            assert(grown[q] == order[q - 1]);
        } else {
            assert(grown[p] == order[from_p]);
            assert(grown[q] == order[from_q]);
        }
    }
}

/// Where color `count` belongs among the arranged first `count` colors.
proof fn lemma_insert_position(keys: Seq<i32>, order: Seq<usize>, count: int, upper: int) -> (pos: int)
    requires
        arranges(keys, order, count),
        0 <= upper <= count < keys.len(),
        forall|p: int| upper <= p < count ==> keys[#[trigger] order[p] as int] > keys[count],
    ensures
        0 <= pos <= count,
        pos == 0 || keys[order[pos - 1] as int] <= keys[count],
        forall|p: int| pos <= p < count ==> keys[#[trigger] order[p] as int] > keys[count],
    decreases upper,
{
    if upper == 0 || keys[order[upper - 1] as int] <= keys[count] {
        upper
    } else {
        lemma_insert_position(keys, order, count, upper - 1)
    }
}

/// The first `count` colors can be arranged.
proof fn lemma_arrangement_exists(keys: Seq<i32>, count: int) -> (order: Seq<usize>)
    requires
        0 <= count <= keys.len(),
        count <= usize::MAX,
    ensures
        arranges(keys, order, count),
    decreases count,
{
    if count == 0 {
        Seq::<usize>::empty()
    } else {
        let shorter = lemma_arrangement_exists(keys, count - 1);
        let pos = lemma_insert_position(keys, shorter, count - 1, count - 1);
        lemma_insert(keys, shorter, count - 1, pos);
        shorter.insert(pos, (count - 1) as usize)
    }
}

/// Two increasing lists of the same length with the same members are equal.
proof fn lemma_increasing_lists_agree(keys: Seq<i32>, a: Seq<usize>, b: Seq<usize>)
    requires
        a.len() == b.len(),
        increasing(keys, a),
        increasing(keys, b),
        forall|x: usize| a.contains(x) <==> b.contains(x),
    ensures
        a == b,
    decreases a.len(),
{
    if a.len() > 0 {
        let x = a[0];
        let y = b[0];
        assert(a.contains(x));
        assert(b.contains(y));
        let j = choose|j: int| 0 <= j < b.len() && b[j] == x;
        let i = choose|i: int| 0 <= i < a.len() && a[i] == y;
        if j > 0 && i > 0 {
            assert(comes_before(keys, b[0] as int, b[j] as int));
            assert(comes_before(keys, a[0] as int, a[i] as int));
        }
        assert(x == y);
        let a_rest = a.subrange(1, a.len() as int);
        let b_rest = b.subrange(1, b.len() as int);
        assert forall|p: int, q: int|
            #![trigger a_rest[p], a_rest[q]]
            0 <= p < q < a_rest.len() implies comes_before(keys, a_rest[p] as int, a_rest[q] as int) by {
            assert(a_rest[p] == a[p + 1] && a_rest[q] == a[q + 1]);
        }
        assert forall|p: int, q: int|
            #![trigger b_rest[p], b_rest[q]]
            0 <= p < q < b_rest.len() implies comes_before(keys, b_rest[p] as int, b_rest[q] as int) by {
            assert(b_rest[p] == b[p + 1] && b_rest[q] == b[q + 1]);
        }
        assert forall|z: usize| a_rest.contains(z) <==> b_rest.contains(z) by {
            if a_rest.contains(z) {
                let p = choose|p: int| 0 <= p < a_rest.len() && a_rest[p] == z;
                assert(a[p + 1] == z);
                assert(comes_before(keys, a[0] as int, a[p + 1] as int));
                assert(a.contains(z));
                let q = choose|q: int| 0 <= q < b.len() && b[q] == z;
                assert(q > 0);
                assert(b_rest[q - 1] == z);
            }
            if b_rest.contains(z) {
                let p = choose|p: int| 0 <= p < b_rest.len() && b_rest[p] == z;
                assert(b[p + 1] == z);
                assert(comes_before(keys, b[0] as int, b[p + 1] as int));
                assert(b.contains(z));
                let q = choose|q: int| 0 <= q < a.len() && a[q] == z;
                assert(q > 0);
                assert(a_rest[q - 1] == z);
            }
        }
        lemma_increasing_lists_agree(keys, a_rest, b_rest);
        assert forall|p: int| 0 <= p < a.len() implies a[p] == b[p] by {
            if p > 0 {
                assert(a[p] == a_rest[p - 1]);
                assert(b[p] == b_rest[p - 1]);
            }
        }
        assert(a =~= b);
    } else {
        assert(a =~= b);
    }
}

/// The keys determine the arrangement: any two luminance orders of the same
/// keys are the same list.
pub proof fn lemma_luminance_order_unique(keys: Seq<i32>, a: Seq<usize>, b: Seq<usize>)
    requires
        is_luminance_order(keys, a),
        is_luminance_order(keys, b),
    ensures
        a == b,
{
    assert forall|x: usize| a.contains(x) <==> b.contains(x) by {
        if a.contains(x) {
            let p = choose|p: int| 0 <= p < a.len() && a[p] == x;
            assert(a[p] < keys.len());
        }
        if b.contains(x) {
            let p = choose|p: int| 0 <= p < b.len() && b[p] == x;
            assert(b[p] < keys.len());
        }
    }
    lemma_increasing_lists_agree(keys, a, b);
}

/// Every list of keys that a vector can hold has a luminance order, and
/// `luminance_order` names it.
pub proof fn lemma_luminance_order_exists(keys: Seq<i32>)
    requires
        keys.len() <= usize::MAX,
    ensures
        is_luminance_order(keys, luminance_order(keys)),
{
    let witness = lemma_arrangement_exists(keys, keys.len() as int);
    assert(is_luminance_order(keys, witness));
}

/// A list that satisfies the definition is the luminance order.
pub proof fn lemma_luminance_order_is(keys: Seq<i32>, order: Seq<usize>)
    requires
        is_luminance_order(keys, order),
    ensures
        luminance_order(keys) == order,
{
    lemma_luminance_order_unique(keys, order, luminance_order(keys));
}

/// Ranks the colors by ascending luminance key. The sort is stable: colors
/// with equal keys stay in the order in which they were given.
pub fn sort_by_luminance(keys: &Vec<i32>) -> (order: Vec<usize>)
    ensures
        order@ == luminance_order(keys@),
        is_luminance_order(keys@, order@),
{
    let mut order: Vec<usize> = Vec::new();
    let mut next: usize = 0;
    while next < keys.len()
        invariant
            next <= keys.len(),
            arranges(keys@, order@, next as int),
        decreases keys.len() - next,
    {
        let key: i32 = keys[next];
        let mut pos: usize = order.len();
        while pos > 0 && keys[order[pos - 1]] > key
            invariant
                pos <= order.len(),
                next < keys.len(),
                key == keys@[next as int],
                arranges(keys@, order@, next as int),
                forall|p: int| pos <= p < order.len() ==> keys@[#[trigger] order@[p] as int] > key,
            decreases pos,
        {
            pos -= 1;
        }
        proof {
            lemma_insert(keys@, order@, next as int, pos as int);
        }
        order.insert(pos, next);
        next += 1;
    }
    proof {
        lemma_luminance_order_is(keys@, order@);
    }
    order
}

} // verus!
