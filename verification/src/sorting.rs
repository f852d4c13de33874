//! Orders, and sorting by one.

use vstd::prelude::*;

verus! {

/// Whether `a` comes before `b` in the order of their characters.
pub open spec fn lex_less(a: Seq<char>, b: Seq<char>) -> bool
    decreases a.len(),
{
    if b.len() == 0 {
        false
    } else if a.len() == 0 {
        true
    } else {
        a[0] < b[0] || (a[0] == b[0] && lex_less(a.drop_first(), b.drop_first()))
    }
}

/// Of two texts exactly one comes first, or they are the same.
pub proof fn lex_total(a: Seq<char>, b: Seq<char>)
    ensures
        lex_less(a, b) ==> !lex_less(b, a) && a != b,
        !lex_less(a, b) && !lex_less(b, a) <==> a == b,
    decreases a.len(),
{
    if a.len() > 0 && b.len() > 0 {
        lex_total(a.drop_first(), b.drop_first());
        if a[0] == b[0] && a.drop_first() == b.drop_first() {
            assert(a =~= seq![a[0]] + a.drop_first());
            assert(b =~= seq![b[0]] + b.drop_first());
        }
    } else if a.len() == 0 && b.len() == 0 {
        assert(a =~= b);
    }
}

/// What comes before a text comes before all that follow it.
pub proof fn lex_transitive(a: Seq<char>, b: Seq<char>, c: Seq<char>)
    requires
        lex_less(a, b),
        lex_less(b, c),
    ensures
        lex_less(a, c),
    decreases a.len(),
{
    if a.len() > 0 && a[0] == b[0] && b[0] == c[0] {
        lex_transitive(a.drop_first(), b.drop_first(), c.drop_first());
    }
}

/// Whether `a` comes before `b` in the order of their characters.
pub fn comes_before(a: &Vec<char>, b: &Vec<char>) -> (before: bool)
    ensures
        before == lex_less(a@, b@),
{
    let mut i: usize = 0;
    proof {
        assert(a@.skip(0) =~= a@);
        assert(b@.skip(0) =~= b@);
    }
    while i < a.len() && i < b.len()
        invariant
            i <= a@.len(),
            i <= b@.len(),
            lex_less(a@, b@) == lex_less(a@.skip(i as int), b@.skip(i as int)),
        decreases a@.len() - i,
    {
        proof {
            assert(a@.skip(i as int).drop_first() =~= a@.skip(i + 1));
            assert(b@.skip(i as int).drop_first() =~= b@.skip(i + 1));
        }
        if a[i] < b[i] {
            return true;
        }
        if a[i] > b[i] {
            return false;
        }
        i += 1;
    }
    a.len() < b.len()
}

/// Whether a relation puts values in order: of two values one may stand before the other,
/// and one that may stand before another may stand before all that may follow it.
pub open spec fn is_order<V>(leq: spec_fn(V, V) -> bool) -> bool {
    &&& forall|a: V, b: V| #[trigger] leq(a, b) || leq(b, a)
    &&& forall|a: V, b: V, c: V| #[trigger] leq(a, b) && #[trigger] leq(b, c) ==> leq(a, c)
}

/// Whether no value stands before one that has to come first.
pub open spec fn in_order<V>(items: Seq<V>, leq: spec_fn(V, V) -> bool) -> bool {
    forall|i: int, j: int| 0 <= i < j < items.len() ==> leq(#[trigger] items[i], #[trigger] items[j])
}

/// Where `item` goes into `items`, which are in order: after all that may precede it.
pub open spec fn place<V>(items: Seq<V>, item: V, leq: spec_fn(V, V) -> bool) -> int
    decreases items.len(),
{
    if items.len() == 0 || leq(items.last(), item) {
        items.len() as int
    } else {
        place(items.drop_last(), item, leq)
    }
}

/// The items in order, those that may stand either way as they came.
pub open spec fn sorted<V>(items: Seq<V>, leq: spec_fn(V, V) -> bool) -> Seq<V>
    decreases items.len(),
{
    if items.len() == 0 {
        items
    } else {
        let before = sorted(items.drop_last(), leq);
        before.insert(place(before, items.last(), leq), items.last())
    }
}

/// Before its place stands what may precede an item, after it what may not.
proof fn place_splits<V>(items: Seq<V>, item: V, leq: spec_fn(V, V) -> bool)
    requires
        is_order(leq),
        in_order(items, leq),
    ensures
        0 <= place(items, item, leq) <= items.len(),
        forall|i: int| 0 <= i < place(items, item, leq) ==> leq(#[trigger] items[i], item),
        forall|i: int|
            place(items, item, leq) <= i < items.len() ==> !leq(#[trigger] items[i], item),
    decreases items.len(),
{
    if items.len() == 0 {
    } else if leq(items.last(), item) {
        assert forall|i: int| 0 <= i < items.len() implies leq(#[trigger] items[i], item) by {
            if i < items.len() - 1 {
                assert(leq(items[i], items[items.len() - 1]));
            }
        }
    } else {
        let rest = items.drop_last();
        place_splits(rest, item, leq);
        let at = place(rest, item, leq);
        assert forall|i: int| 0 <= i < at implies leq(#[trigger] items[i], item) by {
            assert(leq(rest[i], item));
        }
        assert forall|i: int| at <= i < items.len() implies !leq(#[trigger] items[i], item) by {
            if i < items.len() - 1 {
                assert(!leq(rest[i], item));
            }
        }
    }
}

/// Sorting keeps the items and puts them in order.
pub proof fn sorting_orders<V>(items: Seq<V>, leq: spec_fn(V, V) -> bool)
    requires
        is_order(leq),
    ensures
        in_order(sorted(items, leq), leq),
        sorted(items, leq).len() == items.len(),
        sorted(items, leq).to_multiset() == items.to_multiset(),
    decreases items.len(),
{
    if items.len() > 0 {
        let rest = items.drop_last();
        let item = items.last();
        sorting_orders(rest, leq);
        let before = sorted(rest, leq);
        place_splits(before, item, leq);
        let at = place(before, item, leq);
        let after = before.insert(at, item);
        assert forall|i: int, j: int| 0 <= i < j < after.len() implies leq(
            #[trigger] after[i],
            #[trigger] after[j],
        ) by {
            if i == at {
                assert(!leq(before[j - 1], item));
                assert(leq(item, before[j - 1]));
            } else if j == at {
                assert(leq(before[i], item));
            } else {
                let bi = if i < at { i } else { i - 1 };
                let bj = if j < at { j } else { j - 1 };
                assert(leq(before[bi], before[bj]));
            }
        }
        assert(items =~= rest.push(item));
        broadcast use vstd::seq_lib::group_to_multiset_ensures;
        assert(after =~= before.insert(at, item));
    }
}

/// How two values of a type are put in order.
pub trait Ordered: View + Sized {
    /// Whether a value may stand before another.
    spec fn leq(a: Self::V, b: Self::V) -> bool;

    /// The relation puts values in order.
    proof fn leq_is_order()
        ensures
            is_order(|a: Self::V, b: Self::V| Self::leq(a, b)),
    ;

    /// Whether a value may stand before another.
    fn precedes(&self, other: &Self) -> (found: bool)
        ensures
            found == Self::leq(self@, other@),
    ;
}

/// Values as contracts speak of them.
pub open spec fn views_of<T: View>(items: Seq<T>) -> Seq<T::V> {
    items.map_values(|item: T| item@)
}

/// Sort `items`, keeping those that may stand either way as they came.
pub fn sort<T: Ordered>(items: Vec<T>) -> (out: Vec<T>)
    ensures
        views_of(out@) == sorted(views_of(items@), |a: T::V, b: T::V| T::leq(a, b)),
{
    let ghost leq = |a: T::V, b: T::V| T::leq(a, b);
    proof {
        T::leq_is_order();
    }
    let mut reversed: Vec<T> = Vec::new();
    let mut rest = items;
    let ghost all = rest@;
    while rest.len() > 0
        invariant
            rest@.len() + reversed@.len() == all.len(),
            rest@ == all.take(rest@.len() as int),
            reversed@ == all.skip(rest@.len() as int).reverse(),
        decreases rest@.len(),
    {
        let ghost at = rest@.len() as int;
        match rest.pop() {
            Some(item) => {
                proof {
                    assert(all.skip(at - 1).reverse() =~= all.skip(at).reverse().push(item));
                }
                reversed.push(item);
            },
            None => {},
        }
    }
    let mut out: Vec<T> = Vec::new();
    proof {
        assert(views_of(out@) =~= sorted(views_of(all).take(0), leq));
    }
    while reversed.len() > 0
        invariant
            is_order(leq),
            leq == (|a: T::V, b: T::V| T::leq(a, b)),
            reversed@.len() + out@.len() == all.len(),
            reversed@ == all.skip(out@.len() as int).reverse(),
            views_of(out@) == sorted(views_of(all).take(out@.len() as int), leq),
        decreases reversed@.len(),
    {
        let ghost done = out@.len() as int;
        let ghost before = views_of(out@);
        match reversed.pop() {
            Some(item) => {
                let ghost at = place(before, item@, leq);
                proof {
                    assert(item == all[done]);
                    assert(all.skip(done + 1).reverse() =~= all.skip(done).reverse().drop_last());
                    assert(views_of(all).take(done + 1).drop_last() =~= views_of(all).take(done));
                    sorting_orders(views_of(all).take(done), leq);
                    place_splits(before, item@, leq);
                }
                let mut low: usize = 0;
                let mut high: usize = out.len();
                while low < high
                    invariant
                        views_of(out@) == before,
                        leq == (|a: T::V, b: T::V| T::leq(a, b)),
                        low <= at <= high <= before.len(),
                        forall|i: int| 0 <= i < at ==> leq(#[trigger] before[i], item@),
                        forall|i: int|
                            at <= i < before.len() ==> !leq(#[trigger] before[i], item@),
                    decreases high - low,
                {
                    let middle = low + (high - low) / 2;
                    proof {
                        assert(before[middle as int] == out@[middle as int]@);
                    }
                    if out[middle].precedes(&item) {
                        low = middle + 1;
                    } else {
                        high = middle;
                    }
                }
                proof {
                    assert(views_of(out@.insert(low as int, item)) =~= before.insert(at, item@));
                }
                out.insert(low, item);
            },
            None => {},
        }
    }
    proof {
        assert(views_of(all).take(all.len() as int) =~= views_of(all));
    }
    out
}

}
