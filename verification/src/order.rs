//! Views of sequences, and a stable sort stated on them.

use vstd::prelude::*;

verus! {

/// The views of the items of a sequence.
pub open spec fn views<T: View>(items: Seq<T>) -> Seq<T::V> {
    Seq::new(items.len(), |i: int| items[i]@)
}

/// The view of an optional value.
pub open spec fn opt_view<T: View>(o: Option<T>) -> Option<T::V> {
    match o {
        Some(v) => Some(v@),
        None => None,
    }
}

/// `s` with `x` put behind the last item that may stand before it.
pub open spec fn placed<A>(s: Seq<A>, x: A, le: spec_fn(A, A) -> bool) -> Seq<A>
    decreases s.len(),
{
    if s.len() == 0 || le(s.last(), x) {
        s.push(x)
    } else {
        placed(s.drop_last(), x, le).push(s.last())
    }
}

/// `s` in the order of `le`, items that `le` does not tell apart in the order
/// in which they came.
pub open spec fn sorted_by<A>(s: Seq<A>, le: spec_fn(A, A) -> bool) -> Seq<A>
    decreases s.len(),
{
    if s.len() == 0 {
        s
    } else {
        placed(sorted_by(s.drop_last(), le), s.last(), le)
    }
}

/// `le` orders any two items, and chains.
pub open spec fn total_preorder<A>(le: spec_fn(A, A) -> bool) -> bool {
    &&& forall|a: A, b: A| #[trigger] le(a, b) || le(b, a)
    &&& forall|a: A, b: A, c: A| #[trigger] le(a, b) && #[trigger] le(b, c) ==> le(a, c)
}

/// Every item of `s` may stand before every later one.
pub open spec fn ordered<A>(s: Seq<A>, le: spec_fn(A, A) -> bool) -> bool {
    forall|i: int, j: int| 0 <= i < j < s.len() ==> le(#[trigger] s[i], #[trigger] s[j])
}

/// The items of `s` that `le` does not tell apart from `x`, in their order.
pub open spec fn peers<A>(s: Seq<A>, x: A, le: spec_fn(A, A) -> bool) -> Seq<A>
    decreases s.len(),
{
    if s.len() == 0 {
        s
    } else if le(s.last(), x) && le(x, s.last()) {
        peers(s.drop_last(), x, le).push(s.last())
    } else {
        peers(s.drop_last(), x, le)
    }
}

proof fn lemma_placed_members<A>(s: Seq<A>, x: A, le: spec_fn(A, A) -> bool)
    ensures
        forall|i: int|
            0 <= i < placed(s, x, le).len() ==> {
                ||| #[trigger] placed(s, x, le)[i] == x
                ||| exists|j: int| 0 <= j < s.len() && s[j] == placed(s, x, le)[i]
            },
    decreases s.len(),
{
    let p = placed(s, x, le);
    if s.len() == 0 || le(s.last(), x) {
        assert forall|i: int| 0 <= i < p.len() implies {
            ||| #[trigger] p[i] == x
            ||| exists|j: int| 0 <= j < s.len() && s[j] == p[i]
        } by {
            if i < s.len() {
                assert(s[i] == p[i]);
            }
        }
    } else {
        let short = s.drop_last();
        lemma_placed_members(short, x, le);
        let q = placed(short, x, le);
        assert forall|i: int| 0 <= i < p.len() implies {
            ||| #[trigger] p[i] == x
            ||| exists|j: int| 0 <= j < s.len() && s[j] == p[i]
        } by {
            if i < q.len() {
                if q[i] != x {
                    let j = choose|j: int| 0 <= j < short.len() && short[j] == q[i];
                    assert(s[j] == p[i]);
                }
            } else {
                assert(s[s.len() - 1] == p[i]);
            }
        }
    }
}

proof fn lemma_placed<A>(s: Seq<A>, x: A, le: spec_fn(A, A) -> bool)
    requires
        total_preorder(le),
        ordered(s, le),
    ensures
        ordered(placed(s, x, le), le),
        placed(s, x, le).len() == s.len() + 1,
        placed(s, x, le).to_multiset() == s.to_multiset().insert(x),
    decreases s.len(),
{
    broadcast use vstd::seq_lib::group_to_multiset_ensures;

    if s.len() == 0 || le(s.last(), x) {
        let p = placed(s, x, le);
        assert forall|i: int, j: int| 0 <= i < j < p.len() implies le(#[trigger] p[i], #[trigger] p[j]) by {
            if j == s.len() && i < s.len() - 1 {
                assert(le(s[i], s[s.len() - 1]));
            }
        }
    } else {
        let short = s.drop_last();
        assert(ordered(short, le));
        lemma_placed(short, x, le);
        lemma_placed_members(short, x, le);
        let q = placed(short, x, le);
        let p = q.push(s.last());
        assert(le(x, s.last()));
        assert forall|i: int, j: int| 0 <= i < j < p.len() implies le(#[trigger] p[i], #[trigger] p[j]) by {
            if j == q.len() {
                if q[i] != x {
                    let k = choose|k: int| 0 <= k < short.len() && short[k] == q[i];
                    assert(le(s[k], s[s.len() - 1]));
                }
            }
        }
        assert(s == short.push(s.last()));
        assert(s.to_multiset() == short.to_multiset().insert(s.last()));
        assert(p.to_multiset() == q.to_multiset().insert(s.last()));
        assert(short.to_multiset().insert(x).insert(s.last()) =~= short.to_multiset().insert(
            s.last(),
        ).insert(x));
    }
}

proof fn lemma_placed_peers<A>(s: Seq<A>, x: A, y: A, le: spec_fn(A, A) -> bool)
    requires
        total_preorder(le),
    ensures
        peers(placed(s, x, le), y, le) == peers(s.push(x), y, le),
    decreases s.len(),
{
    assert(s.push(x).drop_last() == s);
    if s.len() == 0 || le(s.last(), x) {
    } else {
        let short = s.drop_last();
        lemma_placed_peers(short, x, y, le);
        let q = placed(short, x, le);
        let l = s.last();
        assert(q.push(l).drop_last() == q);
        assert(q.push(l).last() == l);
        assert(short.push(x).drop_last() == short);
        assert(short.push(x).last() == x);
        assert(s.push(x).last() == x);
        if le(x, y) && le(y, x) && le(l, y) && le(y, l) {
            assert(le(l, x));
        }
        let mine = peers(short, y, le);
        assert(peers(s, y, le) == (if le(l, y) && le(y, l) { mine.push(l) } else { mine }));
        assert(peers(q, y, le) == (if le(x, y) && le(y, x) { mine.push(x) } else { mine }));
    }
}

/// A stable sort returns its input's items in order, each as often as it came,
/// and leaves items that the order does not tell apart as they stood.
pub proof fn law_sort_is_stable<A>(s: Seq<A>, le: spec_fn(A, A) -> bool)
    requires
        total_preorder(le),
    ensures
        ordered(sorted_by(s, le), le),
        sorted_by(s, le).len() == s.len(),
        sorted_by(s, le).to_multiset() == s.to_multiset(),
        forall|x: A| #[trigger] peers(sorted_by(s, le), x, le) == peers(s, x, le),
    decreases s.len(),
{
    broadcast use vstd::seq_lib::group_to_multiset_ensures;

    if s.len() > 0 {
        let short = s.drop_last();
        let done = sorted_by(short, le);
        law_sort_is_stable(short, le);
        lemma_placed(done, s.last(), le);
        assert(s == short.push(s.last()));
        assert forall|x: A| #[trigger] peers(sorted_by(s, le), x, le) == peers(s, x, le) by {
            lemma_placed_peers(done, s.last(), x, le);
            assert(done.push(s.last()).drop_last() == done);
            assert(peers(done, x, le) == peers(short, x, le));
        }
    }
}

/// A sequence that is in order already is its own sort.
pub proof fn law_sort_keeps_ordered<A>(s: Seq<A>, le: spec_fn(A, A) -> bool)
    requires
        ordered(s, le),
    ensures
        sorted_by(s, le) == s,
    decreases s.len(),
{
    if s.len() > 0 {
        let short = s.drop_last();
        assert(ordered(short, le));
        law_sort_keeps_ordered(short, le);
        if short.len() > 0 {
            assert(le(s[s.len() - 2], s[s.len() - 1]));
        }
        assert(short.push(s.last()) == s);
    }
}

/// The items of `s` that `wanted` holds of, in their order.
pub open spec fn picked<A>(s: Seq<A>, wanted: spec_fn(A) -> bool) -> Seq<A>
    decreases s.len(),
{
    if s.len() == 0 {
        s
    } else if wanted(s.last()) {
        picked(s.drop_last(), wanted).push(s.last())
    } else {
        picked(s.drop_last(), wanted)
    }
}

proof fn lemma_picked_holds<A>(s: Seq<A>, wanted: spec_fn(A) -> bool, i: int)
    requires
        0 <= i < s.len(),
        wanted(s[i]),
    ensures
        picked(s, wanted).contains(s[i]),
    decreases s.len(),
{
    let short = s.drop_last();
    let all = picked(s, wanted);
    if i == s.len() - 1 {
        assert(all[all.len() - 1] == s[i]);
    } else {
        lemma_picked_holds(short, wanted, i);
        let before = picked(short, wanted);
        let k = choose|k: int| 0 <= k < before.len() && before[k] == short[i];
        assert(all[k] == s[i]);
    }
}

proof fn lemma_placed_picked<A>(
    s: Seq<A>,
    x: A,
    le: spec_fn(A, A) -> bool,
    wanted: spec_fn(A) -> bool,
)
    requires
        wanted(x) ==> forall|i: int| 0 <= i < s.len() && wanted(#[trigger] s[i]) ==> le(s[i], x),
    ensures
        picked(placed(s, x, le), wanted) == picked(s.push(x), wanted),
    decreases s.len(),
{
    assert(s.push(x).drop_last() =~= s);
    if s.len() > 0 && !le(s.last(), x) {
        let short = s.drop_last();
        assert(wanted(x) ==> !wanted(s[s.len() - 1]));
        assert forall|i: int| wanted(x) && 0 <= i < short.len() && wanted(#[trigger] short[i]) implies le(
            short[i],
            x,
        ) by {
            assert(short[i] == s[i]);
        }
        lemma_placed_picked(short, x, le, wanted);
        assert(short.push(x).drop_last() =~= short);
        let q = placed(short, x, le);
        let l = s.last();
        assert(q.push(l).drop_last() =~= q);
        let mine = picked(short, wanted);
        assert(picked(s, wanted) == (if wanted(l) { mine.push(l) } else { mine }));
        assert(picked(q, wanted) == (if wanted(x) { mine.push(x) } else { mine }));
    }
}

/// Items that stand in order among themselves come out of a sort as they stood, whatever
/// was sorted in between.
pub proof fn law_sort_keeps_ordered_part<A>(
    s: Seq<A>,
    le: spec_fn(A, A) -> bool,
    wanted: spec_fn(A) -> bool,
)
    requires
        ordered(picked(s, wanted), le),
    ensures
        picked(sorted_by(s, le), wanted) == picked(s, wanted),
    decreases s.len(),
{
    if s.len() > 0 {
        let short = s.drop_last();
        let x = s.last();
        let part = picked(s, wanted);
        let before = picked(short, wanted);
        assert forall|i: int, j: int| 0 <= i < j < before.len() implies le(
            #[trigger] before[i],
            #[trigger] before[j],
        ) by {
            assert(part[i] == before[i] && part[j] == before[j]);
        }
        law_sort_keeps_ordered_part(short, le, wanted);
        let done = sorted_by(short, le);
        assert forall|i: int| wanted(x) && 0 <= i < done.len() && wanted(#[trigger] done[i]) implies le(
            done[i],
            x,
        ) by {
            lemma_picked_holds(done, wanted, i);
            let k = choose|k: int| 0 <= k < before.len() && before[k] == done[i];
            assert(part[k] == done[i] && part[part.len() - 1] == x);
        }
        lemma_placed_picked(done, x, le, wanted);
        assert(done.push(x).drop_last() =~= done);
    }
}

/// What is picked of two sequences in a row is what is picked of each.
pub proof fn law_picked_of_two<A>(a: Seq<A>, b: Seq<A>, wanted: spec_fn(A) -> bool)
    ensures
        picked(a + b, wanted) == picked(a, wanted) + picked(b, wanted),
    decreases b.len(),
{
    if b.len() == 0 {
        assert(a + b =~= a);
        assert(picked(a, wanted) + picked(b, wanted) =~= picked(a, wanted));
    } else {
        law_picked_of_two(a, b.drop_last(), wanted);
        assert((a + b).drop_last() =~= a + b.drop_last());
        assert(picked(a + b, wanted) =~= picked(a, wanted) + picked(b, wanted));
    }
}

/// Where every item is wanted all are picked, and where none is, none.
pub proof fn law_all_or_none_picked<A>(s: Seq<A>, wanted: spec_fn(A) -> bool)
    ensures
        (forall|i: int| 0 <= i < s.len() ==> wanted(#[trigger] s[i])) ==> picked(s, wanted) == s,
        (forall|i: int| 0 <= i < s.len() ==> !wanted(#[trigger] s[i])) ==> picked(s, wanted)
            == Seq::<A>::empty(),
    decreases s.len(),
{
    if s.len() > 0 {
        let short = s.drop_last();
        law_all_or_none_picked(short, wanted);
        assert(forall|i: int| 0 <= i < short.len() ==> #[trigger] short[i] == s[i]);
        if forall|i: int| 0 <= i < s.len() ==> wanted(#[trigger] s[i]) {
            assert forall|i: int| 0 <= i < short.len() implies wanted(#[trigger] short[i]) by {
                assert(wanted(s[i]));
            }
            assert(wanted(s[s.len() - 1]));
            assert(short.push(s.last()) =~= s);
        }
        if forall|i: int| 0 <= i < s.len() ==> !wanted(#[trigger] s[i]) {
            assert forall|i: int| 0 <= i < short.len() implies !wanted(#[trigger] short[i]) by {
                assert(!wanted(s[i]));
            }
            assert(!wanted(s[s.len() - 1]));
        }
    }
}

/// A sort holds nothing but what was sorted.
pub proof fn lemma_sorted_members<A>(s: Seq<A>, le: spec_fn(A, A) -> bool)
    ensures
        forall|i: int|
            0 <= i < sorted_by(s, le).len() ==> s.contains(#[trigger] sorted_by(s, le)[i]),
    decreases s.len(),
{
    if s.len() > 0 {
        let short = s.drop_last();
        lemma_sorted_members(short, le);
        lemma_placed_members(sorted_by(short, le), s.last(), le);
        let done = sorted_by(s, le);
        assert forall|i: int| 0 <= i < done.len() implies s.contains(#[trigger] done[i]) by {
            if done[i] == s.last() {
                assert(s[s.len() - 1] == done[i]);
            } else {
                let before = sorted_by(short, le);
                let j = choose|j: int| 0 <= j < before.len() && before[j] == done[i];
                assert(short.contains(before[j]));
                let k = choose|k: int| 0 <= k < short.len() && short[k] == before[j];
                assert(s[k] == done[i]);
            }
        }
    }
}

/// Values that are sorted by their views.
pub trait Ranked: View + Sized {
    /// Whether a value viewed as `a` may stand before one viewed as `b`.
    spec fn ranks(a: Self::V, b: Self::V) -> bool;

    /// Whether `self` may stand before `other`.
    fn at_most(&self, other: &Self) -> (r: bool)
        ensures
            r == Self::ranks(self@, other@),
    ;
}

/// The order of a ranked type.
pub open spec fn rank_order<T: Ranked>() -> spec_fn(T::V, T::V) -> bool {
    |a: T::V, b: T::V| T::ranks(a, b)
}

proof fn lemma_placed_at<A>(s: Seq<A>, x: A, le: spec_fn(A, A) -> bool, at: int)
    requires
        0 <= at <= s.len(),
        at == 0 || le(s[at - 1], x),
        forall|j: int| at <= j < s.len() ==> !le(#[trigger] s[j], x),
    ensures
        placed(s, x, le) == s.insert(at, x),
    decreases s.len(),
{
    if at == s.len() {
        assert(s.push(x) == s.insert(at, x));
    } else {
        let short = s.drop_last();
        assert(!le(s[s.len() - 1], x));
        lemma_placed_at(short, x, le, at);
        assert(short.insert(at, x).push(s.last()) == s.insert(at, x));
    }
}

/// Sorts `items`; items that the order does not tell apart keep their order.
pub fn sort<T: Ranked>(items: Vec<T>) -> (r: Vec<T>)
    ensures
        views(r@) == sorted_by(views(items@), rank_order::<T>()),
{
    let ghost le = rank_order::<T>();
    let ghost all = views(items@);
    let mut out: Vec<T> = Vec::new();
    proof {
        assert(views(out@) == sorted_by(all.take(0), le));
    }
    for x in it: items
        invariant
            it.seq() == items@,
            all == views(items@),
            le == rank_order::<T>(),
            views(out@) == sorted_by(all.take(it.index()), le),
    {
        let ghost before = views(out@);
        let mut at: usize = out.len();
        while at > 0 && !out[at - 1].at_most(&x)
            invariant
                at <= out.len(),
                before == views(out@),
                le == rank_order::<T>(),
                forall|j: int| at <= j < before.len() ==> !le(#[trigger] before[j], x@),
            decreases at,
        {
            proof {
                assert(before[at - 1] == out@[at - 1]@);
            }
            at = at - 1;
        }
        proof {
            if at > 0 {
                assert(before[at - 1] == out@[at - 1]@);
            }
            lemma_placed_at(before, x@, le, at as int);
            let k = it.index();
            assert(all.take(k + 1).drop_last() == all.take(k));
            assert(all.take(k + 1).last() == x@);
            assert(views(out@.insert(at as int, x)) == before.insert(at as int, x@));
        }
        out.insert(at, x);
    }
    proof {
        assert(all.take(all.len() as int) == all);
    }
    out
}

} // verus!
