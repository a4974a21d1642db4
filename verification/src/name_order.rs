//! The order of names, and the entries of a list in the order of their names.
//!
//! A name is the bytes by which a system knows a file; names are ordered byte by byte.
use vstd::prelude::*;

verus! {

/// Whether a name comes before another: at the first byte in which they differ it has
/// the smaller one, or the other starts with it.
pub open spec fn name_before(a: Seq<u8>, b: Seq<u8>) -> bool
    decreases a.len(),
{
    if b.len() == 0 {
        false
    } else if a.len() == 0 {
        true
    } else if a[0] != b[0] {
        a[0] < b[0]
    } else {
        name_before(a.skip(1), b.skip(1))
    }
}

/// Of two different names one comes before the other, and not the other way round; no
/// name comes before itself.
pub proof fn law_one_name_comes_first(a: Seq<u8>, b: Seq<u8>)
    ensures
        a != b ==> name_before(a, b) != name_before(b, a),
        !name_before(a, a),
    decreases a.len(),
{
    if a.len() > 0 {
        law_one_name_comes_first(a.skip(1), a.skip(1));
    }
    if a.len() > 0 && b.len() > 0 && a[0] == b[0] {
        if a.skip(1) == b.skip(1) {
            assert(a =~= seq![a[0]] + a.skip(1));
            assert(b =~= seq![b[0]] + b.skip(1));
        }
        law_one_name_comes_first(a.skip(1), b.skip(1));
    }
    if a.len() == 0 && b.len() == 0 {
        assert(a =~= b);
    }
}

/// A name that comes before another comes before all that follow that one.
pub proof fn law_names_follow_on(a: Seq<u8>, b: Seq<u8>, c: Seq<u8>)
    requires
        name_before(a, b),
        name_before(b, c),
    ensures
        name_before(a, c),
    decreases a.len(),
{
    if a.len() > 0 && a[0] == b[0] && b[0] == c[0] {
        law_names_follow_on(a.skip(1), b.skip(1), c.skip(1));
    }
}

/// Entry `i` goes in front of entry `j`: by its name, and of two with one name the
/// one that is first in the list.
pub open spec fn precedes(names: Seq<Seq<u8>>, i: int, j: int) -> bool {
    name_before(names[i], names[j]) || (names[i] == names[j] && i < j)
}

/// `order` lists the places of all names, in the order of the names.
pub open spec fn in_name_order(names: Seq<Seq<u8>>, order: Seq<int>) -> bool {
    &&& order.len() == names.len()
    &&& forall|i: int| 0 <= i < order.len() ==> 0 <= #[trigger] order[i] < names.len()
    &&& forall|k: int| 0 <= k < names.len() ==> #[trigger] order.contains(k)
    &&& forall|i: int, j: int|
        0 <= i < j < order.len() ==> precedes(names, #[trigger] order[i], #[trigger] order[j])
}

/// The places of some names, in the order of the names.
pub open spec fn name_order(names: Seq<Seq<u8>>) -> Seq<int> {
    choose|order: Seq<int>| in_name_order(names, order)
}

proof fn lemma_precedes(names: Seq<Seq<u8>>, i: int, j: int, k: int)
    ensures
        precedes(names, i, j) && precedes(names, j, k) ==> precedes(names, i, k),
        i != j ==> precedes(names, i, j) != precedes(names, j, i),
        !precedes(names, i, i),
{
    law_one_name_comes_first(names[i], names[j]);
    law_one_name_comes_first(names[j], names[k]);
    law_one_name_comes_first(names[i], names[k]);
    if name_before(names[i], names[j]) && name_before(names[j], names[k]) {
        law_names_follow_on(names[i], names[j], names[k]);
    }
}

/// The next name goes into an order behind all that it does not come before.
proof fn lemma_one_more(names: Seq<Seq<u8>>, order: Seq<int>, at: int)
    requires
        order.len() < names.len(),
        in_name_order(names.take(order.len() as int), order),
        0 <= at <= order.len(),
        forall|i: int|
            0 <= i < at ==> !name_before(names[order.len() as int], names[#[trigger] order[i]]),
        at < order.len() ==> name_before(names[order.len() as int], names[order[at]]),
    ensures
        in_name_order(names.take(order.len() as int + 1), order.insert(at, order.len() as int)),
{
    let k = order.len() as int;
    let some = names.take(k);
    let more = names.take(k + 1);
    let longer = order.insert(at, k);
    assert forall|i: int| 0 <= i < longer.len() implies 0 <= #[trigger] longer[i] < more.len() by {
        if i < at {
            assert(longer[i] == order[i]);
        } else if i > at {
            assert(longer[i] == order[i - 1]);
        }
    }
    assert forall|m: int| 0 <= m < more.len() implies #[trigger] longer.contains(m) by {
        if m == k {
            assert(longer[at] == k);
        } else {
            assert(order.contains(m));
            let i = choose|i: int| 0 <= i < order.len() && order[i] == m;
            if i < at {
                assert(longer[i] == m);
            } else {
                assert(longer[i + 1] == m);
            }
        }
    }
    assert forall|i: int, j: int| 0 <= i < j < longer.len() implies precedes(
        more,
        #[trigger] longer[i],
        #[trigger] longer[j],
    ) by {
        let i0 = if i < at {
            i
        } else {
            i - 1
        };
        let j0 = if j < at {
            j
        } else {
            j - 1
        };
        if i != at && j != at {
            assert(longer[i] == order[i0] && longer[j] == order[j0]);
            assert(precedes(some, order[i0], order[j0]));
        } else if j == at {
            assert(longer[i] == order[i]);
            law_one_name_comes_first(names[order[i]], names[k]);
        } else {
            assert(longer[j] == order[j0]);
            if j0 > at {
                assert(precedes(some, order[at], order[j0]));
                if name_before(names[order[at]], names[order[j0]]) {
                    law_names_follow_on(names[k], names[order[at]], names[order[j0]]);
                }
            }
        }
    }
}

/// The place for one more name.
spec fn place(names: Seq<Seq<u8>>, order: Seq<int>, k: int, from: int) -> int
    decreases order.len() - from,
{
    if from >= order.len() || name_before(names[k], names[order[from]]) {
        from
    } else {
        place(names, order, k, from + 1)
    }
}

proof fn lemma_place(names: Seq<Seq<u8>>, order: Seq<int>, k: int, from: int)
    requires
        0 <= from <= order.len(),
        forall|i: int| 0 <= i < from ==> !name_before(names[k], names[#[trigger] order[i]]),
    ensures
        ({
            let at = place(names, order, k, from);
            &&& from <= at <= order.len()
            &&& forall|i: int| 0 <= i < at ==> !name_before(names[k], names[#[trigger] order[i]])
            &&& at < order.len() ==> name_before(names[k], names[order[at]])
        }),
    decreases order.len() - from,
{
    if from < order.len() && !name_before(names[k], names[order[from]]) {
        lemma_place(names, order, k, from + 1);
    }
}

proof fn lemma_some_order(names: Seq<Seq<u8>>, n: int) -> (order: Seq<int>)
    requires
        0 <= n <= names.len(),
    ensures
        in_name_order(names.take(n), order),
    decreases n,
{
    if n == 0 {
        Seq::empty()
    } else {
        let order = lemma_some_order(names, n - 1);
        lemma_place(names, order, n - 1, 0);
        let at = place(names, order, n - 1, 0);
        lemma_one_more(names, order, at);
        order.insert(at, n - 1)
    }
}

/// Names have one order, in which each place occurs once, no name comes before one in
/// front of it, and those with one name stay as they were.
pub proof fn law_name_order(names: Seq<Seq<u8>>)
    ensures
        in_name_order(names, name_order(names)),
        forall|order: Seq<int>| #[trigger]
            in_name_order(names, order) ==> order == name_order(names),
{
    let some = lemma_some_order(names, names.len() as int);
    assert(names.take(names.len() as int) =~= names);
    assert(in_name_order(names, some));
    assert forall|order: Seq<int>| #[trigger] in_name_order(names, order) implies order
        == name_order(names) by {
        lemma_same_order(names, order, name_order(names), order.len() as int);
        assert(order =~= name_order(names));
    }
}

proof fn lemma_same_order(names: Seq<Seq<u8>>, a: Seq<int>, b: Seq<int>, n: int)
    requires
        in_name_order(names, a),
        in_name_order(names, b),
        0 <= n <= names.len(),
    ensures
        forall|i: int| 0 <= i < n ==> #[trigger] a[i] == b[i],
    decreases n,
{
    if n > 0 {
        let m = n - 1;
        lemma_same_order(names, a, b, m);
        assert(a.contains(b[m]));
        assert(b.contains(a[m]));
        let p = choose|p: int| 0 <= p < a.len() && a[p] == b[m];
        let q = choose|q: int| 0 <= q < b.len() && b[q] == a[m];
        if a[m] != b[m] {
            if p < m {
                assert(a[p] == b[p]);
                assert(precedes(names, b[p], b[m]));
                lemma_precedes(names, b[m], b[m], b[m]);
            } else {
                assert(precedes(names, a[m], a[p]));
            }
            if q < m {
                assert(a[q] == b[q]);
                assert(precedes(names, a[q], a[m]));
                lemma_precedes(names, a[m], a[m], a[m]);
            } else {
                assert(precedes(names, b[m], b[q]));
            }
            lemma_precedes(names, a[m], b[m], a[m]);
        }
    }
}

/// Whether a name comes before another.
pub fn comes_before(a: &Vec<u8>, b: &Vec<u8>) -> (r: bool)
    ensures
        r == name_before(a@, b@),
{
    let mut i: usize = 0;
    proof {
        assert(a@.skip(0) =~= a@);
        assert(b@.skip(0) =~= b@);
    }
    while i < a.len() && i < b.len()
        invariant
            i <= a@.len(),
            i <= b@.len(),
            name_before(a@, b@) == name_before(a@.skip(i as int), b@.skip(i as int)),
        decreases a@.len() - i,
    {
        proof {
            assert(a@.skip(i as int).skip(1) =~= a@.skip(i + 1));
            assert(b@.skip(i as int).skip(1) =~= b@.skip(i + 1));
        }
        if a[i] != b[i] {
            return a[i] < b[i];
        }
        i = i + 1;
    }
    i < b.len()
}

/// The names of a list.
pub open spec fn texts(names: Seq<&Vec<u8>>) -> Seq<Seq<u8>> {
    names.map_values(|name: &Vec<u8>| name@)
}

/// Places as numbers.
pub open spec fn places(order: Seq<usize>) -> Seq<int> {
    order.map_values(|k: usize| k as int)
}

/// Sorts names; gives their places in the order of the names.
pub fn sort_names(names: &Vec<&Vec<u8>>) -> (r: Vec<usize>)
    ensures
        places(r@) == name_order(texts(names@)),
        in_name_order(texts(names@), places(r@)),
{
    let ghost all = texts(names@);
    let mut order: Vec<usize> = Vec::with_capacity(names.len());
    let mut k: usize = 0;
    while k < names.len()
        invariant
            k <= names@.len(),
            all == texts(names@),
            order@.len() == k,
            in_name_order(all.take(k as int), places(order@)),
        decreases names@.len() - k,
    {
        let ghost so_far = places(order@);
        let mut at: usize = 0;
        proof {
            assert forall|i: int| 0 <= i < order@.len() implies (#[trigger] order@[i])
                < names@.len() by {
                assert(so_far[i] == order@[i]);
            }
        }
        while at < order.len() && !comes_before(names[k], names[order[at]])
            invariant
                at <= order@.len(),
                k < names@.len(),
                all == texts(names@),
                so_far == places(order@),
                order@.len() == k,
                forall|i: int| 0 <= i < order@.len() ==> (#[trigger] order@[i]) < names@.len(),
                forall|i: int|
                    0 <= i < at ==> !name_before(all[k as int], all[#[trigger] so_far[i]]),
            decreases order@.len() - at,
        {
            at = at + 1;
        }
        order.insert(at, k);
        proof {
            lemma_one_more(all, so_far, at as int);
            assert(places(order@) =~= so_far.insert(at as int, k as int));
        }
        k = k + 1;
    }
    proof {
        assert(all.take(k as int) =~= all);
        law_name_order(all);
    }
    order
}

} // verus!
