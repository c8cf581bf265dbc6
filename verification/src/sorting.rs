//! Stable sorting of lists whose items have a rank.

use vstd::prelude::*;

verus! {

/// An item that can be put in order with others of its kind.
pub trait Ranked: DeepView {
    /// `a` may stand in front of `b`.
    spec fn ranks_le(a: Self::V, b: Self::V) -> bool;

    /// Whether an item can hold this.
    spec fn is_held(a: Self::V) -> bool;

    /// Tells that an item holds what an item can hold.
    fn is_item(&self) -> (r: bool)
        ensures
            r,
            Self::is_held(self.deep_view()),
    ;

    /// Whether this item may stand in front of `other`. Of two items one may stand in front of the
    /// other, and so may what may stand in front of the one.
    fn may_precede(&self, other: &Self) -> (r: bool)
        ensures
            r == Self::ranks_le(self.deep_view(), other.deep_view()),
            r || Self::ranks_le(other.deep_view(), self.deep_view()),
            r ==> forall|c: Self::V|
                Self::is_held(c) && #[trigger] Self::ranks_le(c, self.deep_view())
                    ==> Self::ranks_le(c, other.deep_view()),
    ;
}

/// `sorted` with `x` put behind the last item that may stand in front of it.
pub open spec fn inserted<T: Ranked>(sorted: Seq<T::V>, x: T::V) -> Seq<T::V>
    decreases sorted.len(),
{
    if sorted.len() == 0 || T::ranks_le(sorted.last(), x) {
        sorted.push(x)
    } else {
        inserted::<T>(sorted.drop_last(), x).push(sorted.last())
    }
}

/// The items of `s` in order of rank; items of the same rank keep the order they had in `s`.
pub open spec fn stable_sorted<T: Ranked>(s: Seq<T::V>) -> Seq<T::V>
    decreases s.len(),
{
    if s.len() == 0 {
        s
    } else {
        inserted::<T>(stable_sorted::<T>(s.drop_last()), s.last())
    }
}

/// The ranks order any two items, and the order is transitive.
pub open spec fn ranks_are_total<T: Ranked>() -> bool {
    &&& forall|a: T::V, b: T::V|
        #![trigger T::ranks_le(a, b)]
        T::ranks_le(a, b) || T::ranks_le(b, a)
    &&& forall|a: T::V, b: T::V, c: T::V|
        #![trigger T::ranks_le(a, b), T::ranks_le(b, c)]
        T::ranks_le(a, b) && T::ranks_le(b, c) ==> T::ranks_le(a, c)
}

/// Every item of `s` may stand in front of those behind it.
pub open spec fn in_order<T: Ranked>(s: Seq<T::V>) -> bool {
    forall|i: int, j: int|
        #![trigger s[i], s[j]]
        0 <= i < j < s.len() ==> T::ranks_le(s[i], s[j])
}

/// The items of `s` that have the rank of `k`, in the order in which they stand in `s`.
pub open spec fn of_rank<T: Ranked>(s: Seq<T::V>, k: T::V) -> Seq<T::V> {
    s.filter(|e: T::V| T::ranks_le(e, k) && T::ranks_le(k, e))
}

proof fn lemma_inserted<T: Ranked>(s: Seq<T::V>, x: T::V)
    ensures
        inserted::<T>(s, x).len() == s.len() + 1,
        inserted::<T>(s, x).to_multiset() =~= s.to_multiset().insert(x),
        forall|i: int|
            0 <= i <= s.len() ==> (#[trigger] inserted::<T>(s, x)[i] == x || s.contains(
                inserted::<T>(s, x)[i],
            )),
    decreases s.len(),
{
    broadcast use vstd::seq_lib::group_to_multiset_ensures;

    if s.len() == 0 || T::ranks_le(s.last(), x) {
        assert forall|i: int| 0 <= i <= s.len() implies (#[trigger] s.push(x)[i] == x
            || s.contains(s.push(x)[i])) by {
            if i < s.len() {
                assert(s.push(x)[i] == s[i]);
            }
        }
    } else {
        let front = s.drop_last();
        lemma_inserted::<T>(front, x);
        assert(front.push(s.last()) =~= s);
        assert forall|i: int| 0 <= i <= s.len() implies (#[trigger] inserted::<T>(s, x)[i] == x
            || s.contains(inserted::<T>(s, x)[i])) by {
            if i < s.len() {
                let y = inserted::<T>(front, x)[i];
                assert(inserted::<T>(s, x)[i] == y);
                if y != x {
                    let j = choose|j: int| 0 <= j < front.len() && front[j] == y;
                    assert(s[j] == y);
                }
            } else {
                assert(s[s.len() - 1] == inserted::<T>(s, x)[i]);
            }
        }
    }
}

proof fn lemma_inserted_in_order<T: Ranked>(s: Seq<T::V>, x: T::V)
    requires
        ranks_are_total::<T>(),
        in_order::<T>(s),
    ensures
        in_order::<T>(inserted::<T>(s, x)),
    decreases s.len(),
{
    let r = inserted::<T>(s, x);
    lemma_inserted::<T>(s, x);
    if s.len() == 0 {
    } else if T::ranks_le(s.last(), x) {
        assert forall|i: int, j: int|
            #![trigger r[i], r[j]]
            0 <= i < j < r.len() implies T::ranks_le(r[i], r[j]) by {
            if j == s.len() && i < s.len() - 1 {
                assert(T::ranks_le(s[i], s[s.len() - 1]));
            }
        }
    } else {
        let front = s.drop_last();
        lemma_inserted_in_order::<T>(front, x);
        lemma_inserted::<T>(front, x);
        assert(T::ranks_le(x, s.last()));
        assert forall|i: int, j: int|
            #![trigger r[i], r[j]]
            0 <= i < j < r.len() implies T::ranks_le(r[i], r[j]) by {
            if j == s.len() {
                let y = inserted::<T>(front, x)[i];
                if y != x {
                    let k = choose|k: int| 0 <= k < front.len() && front[k] == y;
                    assert(s[k] == y);
                }
            } else {
                assert(inserted::<T>(front, x)[i] == r[i]);
                assert(inserted::<T>(front, x)[j] == r[j]);
            }
        }
    }
}

proof fn lemma_of_rank_push<T: Ranked>(s: Seq<T::V>, e: T::V, k: T::V)
    ensures
        of_rank::<T>(s.push(e), k) == (if T::ranks_le(e, k) && T::ranks_le(k, e) {
            of_rank::<T>(s, k).push(e)
        } else {
            of_rank::<T>(s, k)
        }),
{
    reveal(Seq::filter);
    assert(s.push(e).drop_last() =~= s);
}

proof fn lemma_inserted_stable<T: Ranked>(s: Seq<T::V>, x: T::V, k: T::V)
    requires
        ranks_are_total::<T>(),
    ensures
        of_rank::<T>(inserted::<T>(s, x), k) == of_rank::<T>(s.push(x), k),
    decreases s.len(),
{
    if s.len() > 0 && !T::ranks_le(s.last(), x) {
        let front = s.drop_last();
        let last = s.last();
        lemma_inserted_stable::<T>(front, x, k);
        lemma_of_rank_push::<T>(inserted::<T>(front, x), last, k);
        lemma_of_rank_push::<T>(front, x, k);
        lemma_of_rank_push::<T>(front, last, k);
        lemma_of_rank_push::<T>(s, x, k);
        assert(front.push(last) =~= s);
    }
}

/// A stable sort keeps every item, puts the items in order, and keeps items of the same rank in
/// the order they had.
pub proof fn lemma_stable_sorted<T: Ranked>(s: Seq<T::V>)
    requires
        ranks_are_total::<T>(),
    ensures
        stable_sorted::<T>(s).len() == s.len(),
        stable_sorted::<T>(s).to_multiset() == s.to_multiset(),
        in_order::<T>(stable_sorted::<T>(s)),
        forall|k: T::V|
            #[trigger] of_rank::<T>(stable_sorted::<T>(s), k) == of_rank::<T>(s, k),
    decreases s.len(),
{
    broadcast use vstd::seq_lib::group_to_multiset_ensures;

    if s.len() > 0 {
        let front = s.drop_last();
        lemma_stable_sorted::<T>(front);
        let sorted = stable_sorted::<T>(front);
        lemma_inserted::<T>(sorted, s.last());
        lemma_inserted_in_order::<T>(sorted, s.last());
        assert(front.push(s.last()) =~= s);
        assert forall|k: T::V|
            #[trigger] of_rank::<T>(stable_sorted::<T>(s), k) == of_rank::<T>(s, k) by {
            lemma_inserted_stable::<T>(sorted, s.last(), k);
            lemma_of_rank_push::<T>(sorted, s.last(), k);
            lemma_of_rank_push::<T>(front, s.last(), k);
            assert(of_rank::<T>(sorted, k) == of_rank::<T>(front, k));
        }
    }
}

/// A stable sort keeps every item, whatever the ranks are.
pub proof fn lemma_stable_sorted_keeps_items<T: Ranked>(s: Seq<T::V>)
    ensures
        stable_sorted::<T>(s).len() == s.len(),
        stable_sorted::<T>(s).to_multiset() == s.to_multiset(),
        forall|x: T::V| #[trigger] stable_sorted::<T>(s).contains(x) <==> s.contains(x),
    decreases s.len(),
{
    broadcast use vstd::seq_lib::group_to_multiset_ensures;

    if s.len() > 0 {
        let front = s.drop_last();
        lemma_stable_sorted_keeps_items::<T>(front);
        lemma_inserted::<T>(stable_sorted::<T>(front), s.last());
        assert(front.push(s.last()) =~= s);
    }
    assert forall|x: T::V| #[trigger] stable_sorted::<T>(s).contains(x) <==> s.contains(x) by {
        assert(stable_sorted::<T>(s).contains(x) <==> stable_sorted::<T>(s).to_multiset().count(x)
            > 0);
        assert(s.contains(x) <==> s.to_multiset().count(x) > 0);
    }
}

/// Putting an item in its place among items that are in order, and none of which is the same, keeps
/// them so. It adds that item and no other.
pub proof fn lemma_inserted_in_place<T: Ranked>(s: Seq<T::V>, x: T::V)
    ensures
        ranks_are_total::<T>() && in_order::<T>(s) ==> in_order::<T>(inserted::<T>(s, x)),
        s.no_duplicates() && !s.contains(x) ==> inserted::<T>(s, x).no_duplicates(),
        forall|y: T::V| #[trigger]
            inserted::<T>(s, x).contains(y) <==> s.contains(y) || y == x,
    decreases s.len(),
{
    let r = inserted::<T>(s, x);
    if ranks_are_total::<T>() && in_order::<T>(s) {
        lemma_inserted_in_order::<T>(s, x);
    }
    if s.len() == 0 || T::ranks_le(s.last(), x) {
        assert(r[s.len() as int] == x);
        assert forall|y: T::V| #[trigger] r.contains(y) <==> s.contains(y) || y == x by {
            if s.contains(y) {
                let i = choose|i: int| 0 <= i < s.len() && s[i] == y;
                assert(r[i] == y);
            }
            if r.contains(y) {
                let i = choose|i: int| 0 <= i < r.len() && r[i] == y;
                if i < s.len() {
                    assert(s[i] == y);
                }
            }
        }
    } else {
        let front = s.drop_last();
        let below = inserted::<T>(front, x);
        lemma_inserted_in_place::<T>(front, x);
        assert(s[s.len() - 1] == s.last());
        assert forall|y: T::V| #[trigger] r.contains(y) <==> s.contains(y) || y == x by {
            if s.contains(y) {
                let i = choose|i: int| 0 <= i < s.len() && s[i] == y;
                if i < front.len() {
                    assert(front[i] == y);
                    assert(below.contains(y));
                    let j = choose|j: int| 0 <= j < below.len() && below[j] == y;
                    assert(r[j] == y);
                } else {
                    assert(r[r.len() - 1] == y);
                }
            }
            if y == x {
                assert(below.contains(y));
                let j = choose|j: int| 0 <= j < below.len() && below[j] == y;
                assert(r[j] == y);
            }
            if r.contains(y) {
                let i = choose|i: int| 0 <= i < r.len() && r[i] == y;
                if i < below.len() {
                    assert(below[i] == y);
                    assert(below.contains(y));
                    if y != x {
                        let j = choose|j: int| 0 <= j < front.len() && front[j] == y;
                        assert(s[j] == y);
                    }
                }
            }
        }
        if s.no_duplicates() && !s.contains(x) {
            assert(!front.contains(x)) by {
                if front.contains(x) {
                    let j = choose|j: int| 0 <= j < front.len() && front[j] == x;
                    assert(s[j] == x);
                }
            }
            assert(!below.contains(s.last())) by {
                if below.contains(s.last()) {
                    let j = choose|j: int| 0 <= j < front.len() && front[j] == s.last();
                    assert(s[j] == s[s.len() - 1]);
                }
            }
            assert(r.no_duplicates());
        }
    }
}

/// Whether items can hold all of these.
pub open spec fn all_held<T: Ranked>(s: Seq<T::V>) -> bool {
    forall|i: int| 0 <= i < s.len() ==> T::is_held(#[trigger] s[i])
}

/// Puts `x` behind the last of the `sorted` items that may stand in front of it. Items that are in
/// order stay so.
pub fn insert_ranked<T: Ranked>(sorted: &mut Vec<T>, x: T)
    ensures
        final(sorted).deep_view() == inserted::<T>(old(sorted).deep_view(), x.deep_view()),
        all_held::<T>(old(sorted).deep_view()) ==> all_held::<T>(final(sorted).deep_view()),
        all_held::<T>(old(sorted).deep_view()) && in_order::<T>(old(sorted).deep_view())
            ==> in_order::<T>(final(sorted).deep_view()),
{
    let ghost all = sorted.deep_view();
    let ghost xv = x.deep_view();
    let is_item = x.is_item();
    let mut i: usize = sorted.len();
    let mut placed = false;
    assert(all.take(i as int) =~= all);
    assert(inserted::<T>(all, xv) + all.skip(i as int) =~= inserted::<T>(all, xv));
    while i > 0 && !placed
        invariant
            i <= sorted.len(),
            sorted.deep_view() == all,
            xv == x.deep_view(),
            inserted::<T>(all, xv) == inserted::<T>(all.take(i as int), xv) + all.skip(i as int),
            forall|j: int| i <= j < all.len() ==> T::ranks_le(xv, #[trigger] all[j]),
            placed ==> i > 0 && T::ranks_le(all[i - 1], xv) && forall|c: T::V|
                T::is_held(c) && #[trigger] T::ranks_le(c, all[i - 1]) ==> T::ranks_le(c, xv),
        decreases i, (if placed { 0int } else { 1int }),
    {
        let ghost front = all.take(i as int);
        assert(front.last() == sorted@[i - 1].deep_view());
        assert(all[i - 1] == sorted@[i - 1].deep_view());
        if sorted[i - 1].may_precede(&x) {
            placed = true;
        } else {
            assert(front.drop_last() =~= all.take(i - 1));
            assert(inserted::<T>(front, xv) + all.skip(i as int) =~= inserted::<T>(
                all.take(i - 1),
                xv,
            ) + all.skip(i - 1));
            i = i - 1;
        }
    }
    proof {
        let front = all.take(i as int);
        assert(inserted::<T>(front, xv) == front.push(xv));
    }
    sorted.insert(i, x);
    proof {
        let r = sorted.deep_view();
        assert(r =~= all.take(i as int).push(xv) + all.skip(i as int));
        if all_held::<T>(all) {
            assert forall|j: int| 0 <= j < r.len() implies T::is_held(#[trigger] r[j]) by {
                if j < i {
                    assert(r[j] == all[j]);
                } else if j > i {
                    assert(r[j] == all[j - 1]);
                }
            }
            if in_order::<T>(all) {
                assert forall|j: int, k: int|
                    #![trigger r[j], r[k]]
                    0 <= j < k < r.len() implies T::ranks_le(r[j], r[k]) by {
                    if j < i {
                        assert(r[j] == all[j]);
                    } else if j > i {
                        assert(r[j] == all[j - 1]);
                    }
                    if k < i {
                        assert(r[k] == all[k]);
                    } else if k > i {
                        assert(r[k] == all[k - 1]);
                    }
                    if k == i && j < i - 1 {
                        assert(T::ranks_le(all[j], all[i - 1]));
                    }
                }
            }
        }
    }
}

/// Sorts a list, stably.
pub fn sort_ranked<T: Ranked>(items: Vec<T>) -> (r: Vec<T>)
    ensures
        r.deep_view() == stable_sorted::<T>(items.deep_view()),
        in_order::<T>(r.deep_view()),
{
    let mut rest = items;
    let ghost all = rest.deep_view();
    let mut out: Vec<T> = Vec::new();
    let ghost mut done: int = 0;
    assert(all.take(0) =~= Seq::empty());
    assert(out.deep_view() =~= Seq::empty());
    assert(all.skip(0) =~= all);
    while rest.len() > 0
        invariant
            0 <= done <= all.len(),
            rest.deep_view() == all.skip(done),
            out.deep_view() == stable_sorted::<T>(all.take(done)),
            all_held::<T>(out.deep_view()),
            in_order::<T>(out.deep_view()),
        decreases rest.len(),
    {
        let ghost before_rest = rest@;
        let ghost before_views = rest.deep_view();
        assert(before_views.len() == before_rest.len());
        let x = rest.remove(0);
        insert_ranked(&mut out, x);
        proof {
            assert forall|j: int| 0 <= j < rest.len() implies #[trigger] rest@[j].deep_view()
                == all.skip(done + 1)[j] by {
                assert(before_views[j + 1] == before_rest[j + 1].deep_view());
                assert(before_views[j + 1] == all.skip(done)[j + 1]);
            }
            assert(before_views[0] == before_rest[0].deep_view());
            assert(rest.deep_view() =~= all.skip(done + 1));
            assert(all.take(done + 1).drop_last() =~= all.take(done));
            assert(all.take(done + 1).last() == before_views[0]);
            done = done + 1;
        }
    }
    assert(all.take(done) =~= all);
    out
}

} // verus!
