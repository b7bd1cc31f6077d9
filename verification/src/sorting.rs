//! Stable sorting, by an order that a marker type names.

use vstd::prelude::*;

verus! {

/// A strict weak order on `T`: what goes before what.
pub trait SortOrder<T>: Sized {
    /// Whether `a` goes strictly before `b`.
    spec fn before(a: T, b: T) -> bool;

    /// The order is irreflexive, asymmetric, and transitive both in what goes
    /// before and in what does not.
    proof fn is_weak_order(a: T, b: T, c: T)
        ensures
            !Self::before(a, a),
            Self::before(a, b) ==> !Self::before(b, a),
            !Self::before(a, b) && !Self::before(b, c) ==> !Self::before(a, c),
    ;

    /// Decides whether `a` goes strictly before `b`.
    fn goes_before(a: &T, b: &T) -> (r: bool)
        ensures
            r == Self::before(*a, *b),
    ;
}

/// `x` put into `s` behind the last element that it does not go before.
pub open spec fn inserted<T, O: SortOrder<T>>(s: Seq<T>, x: T) -> Seq<T>
    decreases s.len(),
{
    if s.len() > 0 && O::before(x, s.last()) {
        inserted::<T, O>(s.drop_last(), x).push(s.last())
    } else {
        s.push(x)
    }
}

/// The elements of `s` in order; those of which neither goes before the other
/// stay in the order in which `s` has them.
pub open spec fn sorted<T, O: SortOrder<T>>(s: Seq<T>) -> Seq<T>
    decreases s.len(),
{
    if s.len() == 0 {
        s
    } else {
        inserted::<T, O>(sorted::<T, O>(s.drop_last()), s.last())
    }
}

/// Whether no element goes before one that stands ahead of it.
pub open spec fn in_order<T, O: SortOrder<T>>(s: Seq<T>) -> bool {
    forall|i: int, j: int| 0 <= i < j < s.len() ==> !O::before(#[trigger] s[j], #[trigger] s[i])
}

proof fn lemma_inserted_at<T, O: SortOrder<T>>(s: Seq<T>, x: T, p: int)
    requires
        0 <= p <= s.len(),
        forall|i: int| 0 <= i < p ==> !O::before(x, #[trigger] s[i]),
        forall|i: int| p <= i < s.len() ==> O::before(x, #[trigger] s[i]),
    ensures
        inserted::<T, O>(s, x) == s.insert(p, x),
    decreases s.len(),
{
    if s.len() > 0 && O::before(x, s.last()) {
        assert(p < s.len());
        lemma_inserted_at::<T, O>(s.drop_last(), x, p);
        assert(s.drop_last().insert(p, x).push(s.last()) =~= s.insert(p, x));
    } else {
        if s.len() > 0 && p < s.len() {
            assert(O::before(x, s[s.len() - 1]));
        }
        assert(s.push(x) =~= s.insert(p, x));
    }
}

proof fn lemma_inserted_keeps<T, O: SortOrder<T>>(s: Seq<T>, x: T)
    requires
        in_order::<T, O>(s),
    ensures
        in_order::<T, O>(inserted::<T, O>(s, x)),
        inserted::<T, O>(s, x).len() == s.len() + 1,
        inserted::<T, O>(s, x).to_multiset() == s.to_multiset().insert(x),
        forall|i: int|
            0 <= i < inserted::<T, O>(s, x).len() ==> {
                ||| #[trigger] inserted::<T, O>(s, x)[i] == x
                ||| s.contains(inserted::<T, O>(s, x)[i])
            },
    decreases s.len(),
{
    broadcast use vstd::seq_lib::group_to_multiset_ensures;

    let r = inserted::<T, O>(s, x);
    if s.len() > 0 && O::before(x, s.last()) {
        let front = s.drop_last();
        assert(in_order::<T, O>(front));
        lemma_inserted_keeps::<T, O>(front, x);
        let q = inserted::<T, O>(front, x);
        assert(r == q.push(s.last()));
        assert(s =~= front.push(s.last()));
        assert(r.to_multiset() =~= s.to_multiset().insert(x));
        assert forall|i: int, j: int| 0 <= i < j < r.len() implies !O::before(
            #[trigger] r[j],
            #[trigger] r[i],
        ) by {
            if j == r.len() - 1 {
                if q[i] == x {
                    O::is_weak_order(x, s.last(), x);
                } else {
                    assert(front.contains(q[i]));
                    let k = choose|k: int| 0 <= k < front.len() && front[k] == q[i];
                    assert(s[k] == q[i]);
                }
            } else {
                assert(!O::before(q[j], q[i]));
            }
        }
        assert forall|i: int| 0 <= i < r.len() implies #[trigger] r[i] == x || s.contains(
            r[i],
        ) by {
            if i == r.len() - 1 {
                assert(s[s.len() - 1] == r[i]);
            } else {
                assert(q[i] == x || front.contains(q[i]));
                if q[i] != x {
                    let k = choose|k: int| 0 <= k < front.len() && front[k] == q[i];
                    assert(s[k] == r[i]);
                }
            }
        }
    } else {
        assert(r == s.push(x));
        assert forall|i: int, j: int| 0 <= i < j < r.len() implies !O::before(
            #[trigger] r[j],
            #[trigger] r[i],
        ) by {
            if j == s.len() {
                if i < s.len() - 1 {
                    assert(!O::before(s[s.len() - 1], s[i]));
                    O::is_weak_order(x, s.last(), s[i]);
                }
            } else {
                assert(!O::before(s[j], s[i]));
            }
        }
        assert forall|i: int| 0 <= i < r.len() implies #[trigger] r[i] == x || s.contains(
            r[i],
        ) by {
            if i < s.len() {
                assert(s[i] == r[i]);
            }
        }
    }
}

/// Sorting puts the elements in order, and neither loses nor invents any.
pub proof fn law_sorted_is_an_ordered_rearrangement<T, O: SortOrder<T>>(s: Seq<T>)
    ensures
        in_order::<T, O>(sorted::<T, O>(s)),
        sorted::<T, O>(s).len() == s.len(),
        sorted::<T, O>(s).to_multiset() == s.to_multiset(),
    decreases s.len(),
{
    broadcast use vstd::seq_lib::group_to_multiset_ensures;

    if s.len() > 0 {
        law_sorted_is_an_ordered_rearrangement::<T, O>(s.drop_last());
        lemma_inserted_keeps::<T, O>(sorted::<T, O>(s.drop_last()), s.last());
        assert(s =~= s.drop_last().push(s.last()));
    }
}

/// Sorting keeps the order of a sequence that is in order already.
pub proof fn law_sorting_what_is_in_order_changes_nothing<T, O: SortOrder<T>>(s: Seq<T>)
    requires
        in_order::<T, O>(s),
    ensures
        sorted::<T, O>(s) == s,
    decreases s.len(),
{
    if s.len() > 0 {
        law_sorting_what_is_in_order_changes_nothing::<T, O>(s.drop_last());
        if s.len() > 1 {
            assert(!O::before(s[s.len() - 1], s[s.len() - 2]));
        }
        assert(s =~= s.drop_last().push(s.last()));
    }
}

/// The elements of which none goes before `to`, nor `to` before it.
pub open spec fn tied_with<T, O: SortOrder<T>>(to: T) -> spec_fn(T) -> bool {
    |e: T| !O::before(e, to) && !O::before(to, e)
}

proof fn lemma_filter_push<T>(s: Seq<T>, x: T, keep: spec_fn(T) -> bool)
    ensures
        s.push(x).filter(keep) == if keep(x) {
            s.filter(keep).push(x)
        } else {
            s.filter(keep)
        },
{
    reveal(Seq::filter);
    assert(s.push(x).drop_last() =~= s);
}

proof fn lemma_inserted_behind_ties<T, O: SortOrder<T>>(s: Seq<T>, x: T, to: T)
    ensures
        inserted::<T, O>(s, x).filter(tied_with::<T, O>(to)) == s.push(x).filter(
            tied_with::<T, O>(to),
        ),
    decreases s.len(),
{
    let keep = tied_with::<T, O>(to);
    if s.len() > 0 && O::before(x, s.last()) {
        let front = s.drop_last();
        lemma_inserted_behind_ties::<T, O>(front, x, to);
        lemma_filter_push(inserted::<T, O>(front, x), s.last(), keep);
        lemma_filter_push(front, x, keep);
        lemma_filter_push(front, s.last(), keep);
        lemma_filter_push(s, x, keep);
        assert(front.push(s.last()) =~= s);
        if keep(x) {
            O::is_weak_order(x, to, s.last());
        }
    }
}

/// Sorting is stable: the elements that are tied with any one element stay in the
/// order in which they came.
pub proof fn law_sorting_is_stable<T, O: SortOrder<T>>(s: Seq<T>, to: T)
    ensures
        sorted::<T, O>(s).filter(tied_with::<T, O>(to)) == s.filter(tied_with::<T, O>(to)),
    decreases s.len(),
{
    if s.len() > 0 {
        let keep = tied_with::<T, O>(to);
        let front = s.drop_last();
        law_sorting_is_stable::<T, O>(front, to);
        lemma_inserted_behind_ties::<T, O>(sorted::<T, O>(front), s.last(), to);
        lemma_filter_push(sorted::<T, O>(front), s.last(), keep);
        lemma_filter_push(front, s.last(), keep);
        assert(front.push(s.last()) =~= s);
    }
}

fn insertion_point<T, O: SortOrder<T>>(items: &Vec<T>, x: &T) -> (p: usize)
    requires
        in_order::<T, O>(items@),
    ensures
        p <= items@.len(),
        forall|i: int| 0 <= i < p ==> !O::before(*x, #[trigger] items@[i]),
        forall|i: int| p <= i < items@.len() ==> O::before(*x, #[trigger] items@[i]),
{
    let mut low: usize = 0;
    let mut high: usize = items.len();
    while low < high
        invariant
            low <= high <= items@.len(),
            in_order::<T, O>(items@),
            forall|i: int| 0 <= i < low ==> !O::before(*x, #[trigger] items@[i]),
            forall|i: int| high <= i < items@.len() ==> O::before(*x, #[trigger] items@[i]),
        decreases high - low,
    {
        let middle: usize = low + (high - low) / 2;
        if O::goes_before(x, &items[middle]) {
            proof {
                assert forall|i: int| middle <= i < items@.len() implies O::before(
                    *x,
                    #[trigger] items@[i],
                ) by {
                    if i > middle && !O::before(*x, items@[i]) {
                        assert(!O::before(items@[i], items@[middle as int]));
                        O::is_weak_order(*x, items@[i], items@[middle as int]);
                    }
                }
            }
            high = middle;
        } else {
            proof {
                assert forall|i: int| 0 <= i < middle + 1 implies !O::before(
                    *x,
                    #[trigger] items@[i],
                ) by {
                    if i < middle {
                        assert(!O::before(items@[middle as int], items@[i]));
                        O::is_weak_order(*x, items@[middle as int], items@[i]);
                    }
                }
            }
            low = middle + 1;
        }
    }
    low
}

/// Sorts, keeping the order of elements of which neither goes before the other.
pub fn stable_sort<T, O: SortOrder<T>>(items: Vec<T>) -> (r: Vec<T>)
    ensures
        r@ == sorted::<T, O>(items@),
{
    let ghost all = items@;
    let mut out: Vec<T> = Vec::new();
    for x in it: items
        invariant
            it.seq() == all,
            out@ == sorted::<T, O>(all.take(it.index() as int)),
    {
        let ghost done = all.take(it.index() as int);
        proof {
            law_sorted_is_an_ordered_rearrangement::<T, O>(done);
            let next = all.take(it.index() as int + 1);
            assert(next.drop_last() =~= done);
            assert(next.last() == x);
        }
        let p: usize = insertion_point::<T, O>(&out, &x);
        proof {
            lemma_inserted_at::<T, O>(out@, x, p as int);
        }
        out.insert(p, x);
    }
    proof {
        assert(all.take(all.len() as int) =~= all);
    }
    out
}

/// [`inserted`], by an order on what the elements hold.
pub open spec fn inserted_by<A>(s: Seq<A>, x: A, before: spec_fn(A, A) -> bool) -> Seq<A>
    decreases s.len(),
{
    if s.len() > 0 && before(x, s.last()) {
        inserted_by(s.drop_last(), x, before).push(s.last())
    } else {
        s.push(x)
    }
}

/// [`sorted`], by an order on what the elements hold.
pub open spec fn sorted_by<A>(s: Seq<A>, before: spec_fn(A, A) -> bool) -> Seq<A>
    decreases s.len(),
{
    if s.len() == 0 {
        s
    } else {
        inserted_by(sorted_by(s.drop_last(), before), s.last(), before)
    }
}

proof fn lemma_inserted_views<T, O: SortOrder<T>, A>(
    s: Seq<T>,
    x: T,
    view: spec_fn(T) -> A,
    before: spec_fn(A, A) -> bool,
)
    requires
        forall|a: T, b: T| #[trigger] O::before(a, b) == before(view(a), view(b)),
    ensures
        inserted::<T, O>(s, x).map_values(view) == inserted_by(s.map_values(view), view(x), before),
    decreases s.len(),
{
    let views = s.map_values(view);
    if s.len() > 0 {
        assert(views.drop_last() =~= s.drop_last().map_values(view));
        assert(views.last() == view(s.last()));
        lemma_inserted_views::<T, O, A>(s.drop_last(), x, view, before);
        assert(O::before(x, s.last()) == before(view(x), view(s.last())));
    }
    assert(inserted::<T, O>(s, x).map_values(view) =~= inserted_by(views, view(x), before));
}

/// Sorting elements sorts what they hold.
pub proof fn lemma_sorted_views<T, O: SortOrder<T>, A>(
    s: Seq<T>,
    view: spec_fn(T) -> A,
    before: spec_fn(A, A) -> bool,
)
    requires
        forall|a: T, b: T| #[trigger] O::before(a, b) == before(view(a), view(b)),
    ensures
        sorted::<T, O>(s).map_values(view) == sorted_by(s.map_values(view), before),
    decreases s.len(),
{
    let views = s.map_values(view);
    if s.len() > 0 {
        assert(views.drop_last() =~= s.drop_last().map_values(view));
        lemma_sorted_views::<T, O, A>(s.drop_last(), view, before);
        lemma_inserted_views::<T, O, A>(
            sorted::<T, O>(s.drop_last()),
            s.last(),
            view,
            before,
        );
    } else {
        assert(sorted::<T, O>(s).map_values(view) =~= sorted_by(views, before));
    }
}

/// Numbers from the least to the greatest.
pub struct LowestFirst;

impl SortOrder<u64> for LowestFirst {
    open spec fn before(a: u64, b: u64) -> bool {
        a < b
    }

    proof fn is_weak_order(a: u64, b: u64, c: u64) {
    }

    fn goes_before(a: &u64, b: &u64) -> (r: bool) {
        *a < *b
    }
}

} // verus!
