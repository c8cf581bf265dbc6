//! Lists in which each key occurs once.

use vstd::prelude::*;

use crate::text::{same_text, Text};

verus! {

/// An item that is known by a key.
pub trait Keyed: DeepView + Sized {
    /// The key of an item.
    spec fn key_of(item: Self::V) -> Text;

    /// The key of this item.
    fn key(&self) -> (r: String)
        ensures
            r@ == Self::key_of(self.deep_view()),
    ;

    /// The same item once more.
    fn copy(&self) -> (r: Self)
        ensures
            r.deep_view() == self.deep_view(),
    ;
}

/// Whether no key occurs twice.
pub open spec fn keys_occur_once<T: Keyed>(items: Seq<T::V>) -> bool {
    forall|i: int, j: int|
        #![trigger items[i], items[j]]
        0 <= i < j < items.len() ==> T::key_of(items[i]) != T::key_of(items[j])
}

/// `items` with one more. It takes the place of the item that has its key; where there is none, it
/// comes last.
pub open spec fn with_item<T: Keyed>(items: Seq<T::V>, item: T::V) -> Seq<T::V>
    decreases items.len(),
{
    if items.len() == 0 {
        seq![item]
    } else if T::key_of(items[0]) == T::key_of(item) {
        items.update(0, item)
    } else {
        seq![items[0]] + with_item::<T>(items.drop_first(), item)
    }
}

/// The items of a list, of those that have the same key the last.
pub open spec fn by_key<T: Keyed>(items: Seq<T::V>) -> Seq<T::V>
    decreases items.len(),
{
    if items.len() == 0 {
        items
    } else {
        with_item::<T>(by_key::<T>(items.drop_last()), items.last())
    }
}

/// Items that are known by their keys. No key occurs twice.
#[derive(Debug, PartialEq, Eq)]
pub struct Table<T: Keyed> {
    items: Vec<T>,
}

impl<T: Keyed> DeepView for Table<T> {
    type V = Seq<T::V>;

    closed spec fn deep_view(&self) -> Seq<T::V> {
        self.items.deep_view()
    }
}

impl<T: Keyed> Table<T> {
    #[verifier::type_invariant]
    closed spec fn holds_each_key_once(&self) -> bool {
        keys_occur_once::<T>(self.items.deep_view())
    }

    /// A table of these items. Of items that have the same key it holds the last; where no two have,
    /// it holds them all, in their order.
    pub fn from_items(items: Vec<T>) -> (r: Table<T>)
        ensures
            r.deep_view() == by_key::<T>(items.deep_view()),
            keys_occur_once::<T>(items.deep_view()) ==> r.deep_view() == items.deep_view(),
    {
        let ghost all = items.deep_view();
        let mut kept: Vec<T> = Vec::new();
        let mut i: usize = 0;
        assert(all.take(0) =~= Seq::empty());
        assert(kept.deep_view() =~= Seq::empty());
        while i < items.len()
            invariant
                all == items.deep_view(),
                i <= items.len(),
                kept.deep_view() == by_key::<T>(all.take(i as int)),
                keys_occur_once::<T>(kept.deep_view()),
            decreases items.len() - i,
        {
            proof {
                assert(all.take(i + 1).drop_last() =~= all.take(i as int));
                assert(all.take(i + 1).last() == items@[i as int].deep_view());
                lemma_with_item::<T>(kept.deep_view(), all[i as int]);
            }
            put(&mut kept, items[i].copy());
            i = i + 1;
        }
        proof {
            assert(all.take(i as int) =~= all);
            if keys_occur_once::<T>(all) {
                lemma_by_key::<T>(all);
            }
        }
        Table { items: kept }
    }

    /// The items.
    pub fn items(&self) -> (r: &Vec<T>)
        ensures
            r.deep_view() == self.deep_view(),
            keys_occur_once::<T>(r.deep_view()),
    {
        proof {
            use_type_invariant(self);
        }
        &self.items
    }
}

impl<T: Keyed> Clone for Table<T> {
    fn clone(&self) -> (r: Self)
        ensures
            r.deep_view() == self.deep_view(),
    {
        proof {
            use_type_invariant(self);
        }
        let ghost all = self.items.deep_view();
        let mut items: Vec<T> = Vec::new();
        let mut i: usize = 0;
        assert(items.deep_view() =~= all.take(0));
        while i < self.items.len()
            invariant
                all == self.items.deep_view(),
                i <= self.items.len(),
                items.deep_view() == all.take(i as int),
            decreases self.items.len() - i,
        {
            let ghost before = items.deep_view();
            items.push(self.items[i].copy());
            assert(items.deep_view() =~= before.push(all[i as int]));
            assert(all.take(i + 1) =~= before.push(all[i as int]));
            i = i + 1;
        }
        assert(all.take(i as int) =~= all);
        Table { items }
    }
}

/// Puts an item in the place of that which has its key, or at the end.
fn put<T: Keyed>(items: &mut Vec<T>, item: T)
    ensures
        final(items).deep_view() == with_item::<T>(old(items).deep_view(), item.deep_view()),
{
    let ghost all = items.deep_view();
    let ghost x = item.deep_view();
    let key = item.key();
    let mut i: usize = 0;
    while i < items.len()
        invariant
            all == items.deep_view(),
            all == old(items).deep_view(),
            x == item.deep_view(),
            key@ == T::key_of(x),
            i <= items.len(),
            forall|j: int| 0 <= j < i ==> T::key_of(#[trigger] all[j]) != key@,
        decreases items.len() - i,
    {
        assert(all[i as int] == items@[i as int].deep_view());
        let own = items[i].key();
        if same_text(own.as_str(), key.as_str()) {
            items.set(i, item);
            proof {
                lemma_with_item_at::<T>(all, x, i as int);
                assert(items.deep_view() =~= all.update(i as int, x));
            }
            return;
        }
        i = i + 1;
    }
    items.push(item);
    proof {
        lemma_with_new_item::<T>(all, x);
        assert(items.deep_view() =~= all.push(x));
    }
}

proof fn lemma_with_item_at<T: Keyed>(items: Seq<T::V>, item: T::V, i: int)
    requires
        0 <= i < items.len(),
        T::key_of(items[i]) == T::key_of(item),
        forall|j: int| 0 <= j < i ==> T::key_of(#[trigger] items[j]) != T::key_of(item),
    ensures
        with_item::<T>(items, item) == items.update(i, item),
    decreases items.len(),
{
    if i > 0 {
        let rest = items.drop_first();
        assert forall|j: int| 0 <= j < i - 1 implies T::key_of(#[trigger] rest[j]) != T::key_of(
            item,
        ) by {
            assert(rest[j] == items[j + 1]);
        }
        assert(T::key_of(items[0]) != T::key_of(item));
        lemma_with_item_at::<T>(rest, item, i - 1);
        assert(seq![items[0]] + rest.update(i - 1, item) =~= items.update(i, item));
    }
}

proof fn lemma_with_new_item<T: Keyed>(items: Seq<T::V>, item: T::V)
    requires
        forall|j: int| 0 <= j < items.len() ==> T::key_of(#[trigger] items[j]) != T::key_of(item),
    ensures
        with_item::<T>(items, item) == items.push(item),
    decreases items.len(),
{
    if items.len() > 0 {
        let rest = items.drop_first();
        assert forall|j: int| 0 <= j < rest.len() implies T::key_of(#[trigger] rest[j])
            != T::key_of(item) by {
            assert(rest[j] == items[j + 1]);
        }
        assert(T::key_of(items[0]) != T::key_of(item));
        lemma_with_new_item::<T>(rest, item);
        assert(seq![items[0]] + rest.push(item) =~= items.push(item));
    } else {
        assert(items.push(item) =~= seq![item]);
    }
}

/// Adding an item keeps that no key occurs twice.
proof fn lemma_with_item<T: Keyed>(items: Seq<T::V>, item: T::V)
    requires
        keys_occur_once::<T>(items),
    ensures
        keys_occur_once::<T>(with_item::<T>(items, item)),
{
    let after = with_item::<T>(items, item);
    if exists|i: int| 0 <= i < items.len() && T::key_of(#[trigger] items[i]) == T::key_of(item) {
        let i = choose|i: int|
            0 <= i < items.len() && T::key_of(#[trigger] items[i]) == T::key_of(item);
        assert forall|j: int| 0 <= j < i implies T::key_of(#[trigger] items[j]) != T::key_of(
            item,
        ) by {
            assert(T::key_of(items[j]) != T::key_of(items[i]));
        }
        lemma_with_item_at::<T>(items, item, i);
        assert forall|a: int, b: int|
            #![trigger after[a], after[b]]
            0 <= a < b < after.len() implies T::key_of(after[a]) != T::key_of(after[b]) by {
            assert(T::key_of(after[a]) == T::key_of(items[a]));
            assert(T::key_of(after[b]) == T::key_of(items[b]));
        }
    } else {
        lemma_with_new_item::<T>(items, item);
        assert forall|a: int, b: int|
            #![trigger after[a], after[b]]
            0 <= a < b < after.len() implies T::key_of(after[a]) != T::key_of(after[b]) by {
            assert(after[a] == items[a]);
            if b < items.len() {
                assert(after[b] == items[b]);
            }
        }
    }
}

proof fn lemma_by_key<T: Keyed>(items: Seq<T::V>)
    requires
        keys_occur_once::<T>(items),
    ensures
        by_key::<T>(items) == items,
    decreases items.len(),
{
    if items.len() > 0 {
        let front = items.drop_last();
        assert forall|i: int, j: int|
            #![trigger front[i], front[j]]
            0 <= i < j < front.len() implies T::key_of(front[i]) != T::key_of(front[j]) by {
            assert(front[i] == items[i] && front[j] == items[j]);
        }
        lemma_by_key::<T>(front);
        assert forall|j: int| 0 <= j < front.len() implies T::key_of(#[trigger] front[j])
            != T::key_of(items.last()) by {
            assert(front[j] == items[j]);
            assert(items[items.len() - 1] == items.last());
        }
        lemma_with_new_item::<T>(front, items.last());
        assert(front.push(items.last()) =~= items);
    }
}

/// Whether the item at `i` is the last with its key.
pub open spec fn is_last_with_key<T: Keyed>(items: Seq<T::V>, i: int) -> bool {
    &&& 0 <= i < items.len()
    &&& forall|j: int|
        i < j < items.len() ==> T::key_of(#[trigger] items[j]) != T::key_of(items[i])
}

/// Whether the item at `i` is the first with this key.
pub open spec fn is_first_with_key<T: Keyed>(items: Seq<T::V>, i: int, key: Text) -> bool {
    &&& 0 <= i < items.len()
    &&& T::key_of(items[i]) == key
    &&& forall|j: int| 0 <= j < i ==> T::key_of(#[trigger] items[j]) != key
}

/// Whether `x` is the last item with its key.
pub open spec fn is_last_item<T: Keyed>(items: Seq<T::V>, x: T::V) -> bool {
    exists|i: int| #[trigger] is_last_with_key::<T>(items, i) && items[i] == x
}

/// Whether a table of some items holds one for each key, which is the last with the key, and no other,
/// in the order in which the keys come first.
pub open spec fn is_table_of<T: Keyed>(items: Seq<T::V>, held: Seq<T::V>) -> bool {
    &&& forall|g: int, h: int|
        0 <= g < h < held.len() ==> T::key_of(#[trigger] held[g]) != T::key_of(#[trigger] held[h])
    &&& forall|x: T::V| #[trigger] held.contains(x) <==> is_last_item::<T>(items, x)
    &&& forall|g: int, h: int, a: int, b: int|
        0 <= g < h < held.len() && #[trigger] is_first_with_key::<T>(items, a, T::key_of(held[g]))
            && #[trigger] is_first_with_key::<T>(items, b, T::key_of(held[h])) ==> a < b
}

/// A table of some items holds what it should.
pub proof fn lemma_table_of_items<T: Keyed>(items: Seq<T::V>)
    ensures
        is_table_of::<T>(items, by_key::<T>(items)),
    decreases items.len(),
{
    if items.len() > 0 {
        lemma_table_of_items::<T>(items.drop_last());
        lemma_table_step::<T>(items, by_key::<T>(items.drop_last()));
    } else {
        assert forall|x: T::V| #[trigger] items.contains(x) <==> is_last_item::<T>(items, x) by {}
    }
}

proof fn lemma_some_last<T: Keyed>(items: Seq<T::V>, i: int)
    requires
        0 <= i < items.len(),
    ensures
        exists|l: int|
            #[trigger] is_last_with_key::<T>(items, l) && T::key_of(items[l]) == T::key_of(items[i]),
    decreases items.len() - i,
{
    if exists|j: int| i < j < items.len() && T::key_of(#[trigger] items[j]) == T::key_of(items[i]) {
        let j = choose|j: int|
            i < j < items.len() && T::key_of(#[trigger] items[j]) == T::key_of(items[i]);
        lemma_some_last::<T>(items, j);
    } else {
        assert(is_last_with_key::<T>(items, i));
    }
}

proof fn lemma_last_of_more<T: Keyed>(items: Seq<T::V>, x: T::V)
    requires
        items.len() > 0,
    ensures
        is_last_item::<T>(items, x) <==> x == items.last() || is_last_item::<T>(
            items.drop_last(),
            x,
        ) && T::key_of(x) != T::key_of(items.last()),
{
    let front = items.drop_last();
    let n = items.len() - 1;
    assert(items[n] == items.last());
    assert(forall|i: int| 0 <= i < n ==> #[trigger] items[i] == front[i]);
    if is_last_item::<T>(items, x) && x != items.last() {
        let i = choose|i: int| #[trigger] is_last_with_key::<T>(items, i) && items[i] == x;
        assert(i < n);
        assert(T::key_of(items[n]) != T::key_of(items[i]));
        assert forall|j: int| i < j < front.len() implies T::key_of(#[trigger] front[j])
            != T::key_of(front[i]) by {
            assert(items[j] == front[j]);
        }
        assert(is_last_with_key::<T>(front, i));
    }
    if x == items.last() {
        assert(is_last_with_key::<T>(items, n));
    }
    if is_last_item::<T>(front, x) && T::key_of(x) != T::key_of(items.last()) {
        let i = choose|i: int| #[trigger] is_last_with_key::<T>(front, i) && front[i] == x;
        assert forall|j: int| i < j < items.len() implies T::key_of(#[trigger] items[j])
            != T::key_of(items[i]) by {
            if j < n {
                assert(items[j] == front[j]);
            }
        }
        assert(is_last_with_key::<T>(items, i));
    }
}

proof fn lemma_first_of_more<T: Keyed>(items: Seq<T::V>, a: int, key: Text)
    requires
        items.len() > 0,
        exists|i: int| 0 <= i < items.len() - 1 && T::key_of(#[trigger] items[i]) == key,
    ensures
        is_first_with_key::<T>(items, a, key) <==> is_first_with_key::<T>(
            items.drop_last(),
            a,
            key,
        ),
{
    let front = items.drop_last();
    let n = items.len() - 1;
    assert(forall|i: int| 0 <= i < n ==> #[trigger] items[i] == front[i]);
    if is_first_with_key::<T>(items, a, key) {
        let i = choose|i: int| 0 <= i < items.len() - 1 && T::key_of(#[trigger] items[i]) == key;
        if a == n {
            assert(T::key_of(items[i]) != key);
        }
        assert forall|j: int| 0 <= j < a implies T::key_of(#[trigger] front[j]) != key by {
            assert(items[j] == front[j]);
        }
    }
    if is_first_with_key::<T>(front, a, key) {
        assert forall|j: int| 0 <= j < a implies T::key_of(#[trigger] items[j]) != key by {
            assert(items[j] == front[j]);
        }
    }
}

proof fn lemma_key_is_there<T: Keyed>(items: Seq<T::V>, held: Seq<T::V>, g: int)
    requires
        items.len() > 0,
        is_table_of::<T>(items.drop_last(), held),
        0 <= g < held.len(),
    ensures
        exists|i: int|
            0 <= i < items.len() - 1 && T::key_of(#[trigger] items[i]) == T::key_of(held[g]),
{
    let front = items.drop_last();
    assert(held.contains(held[g]));
    let i = choose|i: int| #[trigger] is_last_with_key::<T>(front, i) && front[i] == held[g];
    assert(items[i] == front[i]);
}

proof fn lemma_table_step<T: Keyed>(items: Seq<T::V>, before: Seq<T::V>)
    requires
        items.len() > 0,
        is_table_of::<T>(items.drop_last(), before),
    ensures
        is_table_of::<T>(items, with_item::<T>(before, items.last())),
{
    let front = items.drop_last();
    let last = items.last();
    let key = T::key_of(last);
    let n = items.len() - 1;
    let held = with_item::<T>(before, last);
    assert(items[n] == last);
    assert(forall|i: int| 0 <= i < n ==> #[trigger] items[i] == front[i]);
    if exists|i: int| 0 <= i < before.len() && T::key_of(#[trigger] before[i]) == key {
        let at = choose|i: int| 0 <= i < before.len() && T::key_of(#[trigger] before[i]) == key;
        assert forall|j: int| 0 <= j < at implies T::key_of(#[trigger] before[j]) != key by {
            assert(T::key_of(before[j]) != T::key_of(before[at]));
        }
        lemma_with_item_at::<T>(before, last, at);
        assert forall|g: int| 0 <= g < held.len() implies T::key_of(#[trigger] held[g])
            == T::key_of(before[g]) by {}
        assert forall|x: T::V| #[trigger] held.contains(x) <==> is_last_item::<T>(items, x) by {
            lemma_last_of_more::<T>(items, x);
            if held.contains(x) {
                let h = choose|h: int| 0 <= h < held.len() && held[h] == x;
                if h != at {
                    assert(before[h] == x);
                    assert(before.contains(x));
                    if h < at {
                        assert(T::key_of(before[h]) != T::key_of(before[at]));
                    } else {
                        assert(T::key_of(before[at]) != T::key_of(before[h]));
                    }
                }
            }
            if x == last {
                assert(held[at] == x);
            } else if is_last_item::<T>(items, x) {
                assert(before.contains(x));
                let h = choose|h: int| 0 <= h < before.len() && before[h] == x;
                assert(held[h] == x);
            }
        }
        assert forall|g: int, h: int, a: int, b: int|
            0 <= g < h < held.len() && #[trigger] is_first_with_key::<T>(
                items,
                a,
                T::key_of(held[g]),
            ) && #[trigger] is_first_with_key::<T>(items, b, T::key_of(held[h])) implies a < b by {
            lemma_key_is_there::<T>(items, before, g);
            lemma_key_is_there::<T>(items, before, h);
            lemma_first_of_more::<T>(items, a, T::key_of(before[g]));
            lemma_first_of_more::<T>(items, b, T::key_of(before[h]));
            assert(is_first_with_key::<T>(front, a, T::key_of(before[g])));
            assert(is_first_with_key::<T>(front, b, T::key_of(before[h])));
        }
        assert forall|g: int, h: int| 0 <= g < h < held.len() implies T::key_of(
            #[trigger] held[g],
        ) != T::key_of(#[trigger] held[h]) by {
            assert(T::key_of(before[g]) != T::key_of(before[h]));
        }
    } else {
        lemma_with_new_item::<T>(before, last);
        assert forall|x: T::V| #[trigger] held.contains(x) <==> is_last_item::<T>(items, x) by {
            lemma_last_of_more::<T>(items, x);
            if held.contains(x) {
                let h = choose|h: int| 0 <= h < held.len() && held[h] == x;
                if h < before.len() {
                    assert(before[h] == x);
                    assert(before.contains(x));
                }
            }
            if x == last {
                assert(held[before.len() as int] == x);
            } else if is_last_item::<T>(items, x) {
                assert(before.contains(x));
                let h = choose|h: int| 0 <= h < before.len() && before[h] == x;
                assert(held[h] == x);
            }
        }
        assert forall|i: int| 0 <= i < n implies T::key_of(#[trigger] items[i]) != key by {
            lemma_some_last::<T>(front, i);
            let l = choose|l: int|
                #[trigger] is_last_with_key::<T>(front, l) && T::key_of(front[l]) == T::key_of(
                    front[i],
                );
            assert(is_last_item::<T>(front, front[l]));
            assert(before.contains(front[l]));
            let h = choose|h: int| 0 <= h < before.len() && before[h] == front[l];
            assert(T::key_of(before[h]) != key);
        }
        assert forall|g: int, h: int, a: int, b: int|
            0 <= g < h < held.len() && #[trigger] is_first_with_key::<T>(
                items,
                a,
                T::key_of(held[g]),
            ) && #[trigger] is_first_with_key::<T>(items, b, T::key_of(held[h])) implies a < b by {
            assert(held[g] == before[g]);
            lemma_key_is_there::<T>(items, before, g);
            lemma_first_of_more::<T>(items, a, T::key_of(before[g]));
            assert(is_first_with_key::<T>(front, a, T::key_of(before[g])));
            if h < before.len() {
                assert(held[h] == before[h]);
                lemma_key_is_there::<T>(items, before, h);
                lemma_first_of_more::<T>(items, b, T::key_of(before[h]));
                assert(is_first_with_key::<T>(front, b, T::key_of(before[h])));
            } else {
                assert(held[h] == last);
                if b < n {
                    assert(T::key_of(items[b]) != key);
                }
            }
        }
        assert forall|g: int, h: int| 0 <= g < h < held.len() implies T::key_of(
            #[trigger] held[g],
        ) != T::key_of(#[trigger] held[h]) by {
            assert(held[g] == before[g]);
            if h < before.len() {
                assert(held[h] == before[h]);
            }
        }
    }
}

} // verus!
