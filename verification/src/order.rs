//! Sorting that keeps the order of items which do not differ.

use vstd::prelude::*;

verus! {

/// Items that are put in an order.
pub trait Ranked: Sized {
    /// Whether the item can be put in an order at all.
    spec fn rankable(&self) -> bool;

    /// Whether the item belongs behind another.
    spec fn behind(&self, other: &Self) -> bool;

    /// Being behind is an order: no two items are behind each other, and what is not behind one that
    /// is not behind a third is not behind the third.
    proof fn behind_is_order(a: &Self, b: &Self, c: &Self)
        requires
            a.rankable(),
            b.rankable(),
            c.rankable(),
        ensures
            !(a.behind(b) && b.behind(a)),
            !a.behind(b) && !b.behind(c) ==> !a.behind(c),
    ;

    /// Tests whether the item belongs behind another.
    fn is_behind(&self, other: &Self) -> (answer: bool)
        ensures
            answer == self.behind(other),
    ;
}

/// A list with one more item, which stands before the first item that belongs behind it.
pub open spec fn placed<T: Ranked>(list: Seq<T>, item: T) -> Seq<T>
    decreases list.len(),
{
    if list.len() == 0 {
        seq![item]
    } else if list[0].behind(&item) {
        seq![item] + list
    } else {
        seq![list[0]] + placed(list.skip(1), item)
    }
}

/// The items in their order; items that do not differ stand as they came.
pub open spec fn ranked<T: Ranked>(items: Seq<T>) -> Seq<T>
    decreases items.len(),
{
    if items.len() == 0 {
        Seq::empty()
    } else {
        placed(ranked(items.drop_last()), items.last())
    }
}

fn place<T: Ranked>(list: &mut Vec<T>, item: T)
    ensures
        final(list)@ == placed(old(list)@, item),
{
    let ghost all = list@;
    let mut i: usize = 0;
    assert(all.skip(0) =~= all);
    assert(all.take(0) + placed(all.skip(0), item) =~= placed(all, item));
    while i < list.len() && !list[i].is_behind(&item)
        invariant
            i <= list.len(),
            all == list@,
            *list == *old(list),
            all.take(i as int) + placed(all.skip(i as int), item) == placed(all, item),
        decreases list.len() - i,
    {
        proof {
            let rest = all.skip(i as int);
            assert(rest.skip(1) =~= all.skip(i + 1));
            assert(all.take(i as int) + (seq![rest[0]] + placed(rest.skip(1), item)) =~= all.take(
                i + 1,
            ) + placed(all.skip(i + 1), item));
        }
        i += 1;
    }
    proof {
        let rest = all.skip(i as int);
        if i < list@.len() {
            assert(rest[0] == all[i as int]);
            assert(all.take(i as int) + (seq![item] + rest) =~= all.insert(i as int, item));
        } else {
            assert(all.take(i as int) + seq![item] =~= all.insert(i as int, item));
        }
    }
    list.insert(i, item);
}

/// Puts items in order.
pub fn sorted<T: Ranked + Clone>(items: &Vec<T>) -> (list: Vec<T>)
    requires
        forall|a: T, b: T| #[trigger] cloned(a, b) ==> a == b,
    ensures
        list@ == ranked(items@),
{
    let mut list: Vec<T> = Vec::new();
    let mut i: usize = 0;
    assert(list@ =~= ranked(items@.take(0)));
    while i < items.len()
        invariant
            i <= items.len(),
            forall|a: T, b: T| #[trigger] cloned(a, b) ==> a == b,
            list@ == ranked(items@.take(i as int)),
        decreases items.len() - i,
    {
        assert(items@.take(i + 1).drop_last() =~= items@.take(i as int));
        let item: T = items[i].clone();
        assert(cloned(items@[i as int], item));
        place(&mut list, item);
        i += 1;
    }
    assert(items@.take(i as int) =~= items@);
    list
}

/// Whether a list is in order: no item belongs behind one that comes after it.
pub open spec fn in_order<T: Ranked>(list: Seq<T>) -> bool {
    forall|i: int, j: int|
        #![trigger list[i], list[j]]
        0 <= i < j < list.len() ==> !list[i].behind(&list[j])
}

/// Whether every item can be put in an order.
pub open spec fn all_rankable<T: Ranked>(list: Seq<T>) -> bool {
    forall|i: int| 0 <= i < list.len() ==> (#[trigger] list[i]).rankable()
}

/// Whether two items do not differ in their order.
pub open spec fn alike<T: Ranked>(a: T, b: T) -> bool {
    !a.behind(&b) && !b.behind(&a)
}

/// The items of a list that do not differ from a model, as they stand.
pub open spec fn alikes<T: Ranked>(list: Seq<T>, model: T) -> Seq<T>
    decreases list.len(),
{
    if list.len() == 0 {
        Seq::empty()
    } else if alike(list[0], model) {
        seq![list[0]] + alikes(list.skip(1), model)
    } else {
        alikes(list.skip(1), model)
    }
}

proof fn lemma_no_alikes<T: Ranked>(list: Seq<T>, model: T)
    requires
        forall|i: int| 0 <= i < list.len() ==> !alike(#[trigger] list[i], model),
    ensures
        alikes(list, model) == Seq::<T>::empty(),
    decreases list.len(),
{
    if list.len() > 0 {
        let rest = list.skip(1);
        assert forall|i: int| 0 <= i < rest.len() implies !alike(#[trigger] rest[i], model) by {
            assert(rest[i] == list[i + 1]);
        }
        lemma_no_alikes(rest, model);
    }
}

proof fn lemma_alikes_push<T: Ranked>(list: Seq<T>, item: T, model: T)
    ensures
        alikes(list.push(item), model) == if alike(item, model) {
            alikes(list, model).push(item)
        } else {
            alikes(list, model)
        },
    decreases list.len(),
{
    let longer = list.push(item);
    if list.len() == 0 {
        assert(longer.skip(1) =~= list);
        assert(seq![item] + Seq::<T>::empty() =~= Seq::<T>::empty().push(item));
    } else {
        let rest = list.skip(1);
        lemma_alikes_push(rest, item, model);
        assert(longer.skip(1) =~= rest.push(item));
        let inner = alikes(rest, model);
        assert(seq![list[0]] + inner.push(item) =~= (seq![list[0]] + inner).push(item));
    }
}

proof fn lemma_placed_alikes<T: Ranked>(list: Seq<T>, item: T, model: T)
    requires
        in_order(list),
        all_rankable(list),
        item.rankable(),
        model.rankable(),
    ensures
        alikes(placed(list, item), model) == if alike(item, model) {
            alikes(list, model).push(item)
        } else {
            alikes(list, model)
        },
    decreases list.len(),
{
    let result = placed(list, item);
    if list.len() == 0 {
        assert(result =~= list.push(item));
        lemma_alikes_push(list, item, model);
    } else if list[0].behind(&item) {
        assert(result.skip(1) =~= list);
        if alike(item, model) {
            assert forall|j: int| 0 <= j < list.len() implies !alike(#[trigger] list[j], model) by {
                if alike(list[j], model) {
                    T::behind_is_order(&list[j], &model, &item);
                    T::behind_is_order(&list[0], &list[j], &item);
                    if j == 0 {
                        T::behind_is_order(&list[0], &item, &item);
                    }
                }
            }
            lemma_no_alikes(list, model);
            assert(seq![item] + Seq::<T>::empty() =~= Seq::<T>::empty().push(item));
        }
    } else {
        let rest = list.skip(1);
        assert forall|i: int| 0 <= i < rest.len() implies (#[trigger] rest[i]).rankable() by {
            assert(rest[i] == list[i + 1]);
        }
        assert forall|i: int, j: int|
            #![trigger rest[i], rest[j]]
            0 <= i < j < rest.len() implies !rest[i].behind(&rest[j]) by {
            assert(rest[i] == list[i + 1]);
            assert(rest[j] == list[j + 1]);
        }
        lemma_placed_alikes(rest, item, model);
        assert(result.skip(1) =~= placed(rest, item));
        assert(result[0] == list[0]);
        let inner = alikes(rest, model);
        assert(seq![list[0]] + inner.push(item) =~= (seq![list[0]] + inner).push(item));
    }
}

proof fn lemma_placed<T: Ranked>(list: Seq<T>, item: T)
    requires
        in_order(list),
        all_rankable(list),
        item.rankable(),
    ensures
        in_order(placed(list, item)),
        all_rankable(placed(list, item)),
        placed(list, item).to_multiset() == list.to_multiset().insert(item),
        placed(list, item).len() == list.len() + 1,
        list.len() > 0 ==> placed(list, item)[0] == item || placed(list, item)[0] == list[0],
        list.len() == 0 ==> placed(list, item)[0] == item,
    decreases list.len(),
{
    broadcast use vstd::seq_lib::group_to_multiset_ensures;

    let result = placed(list, item);
    if list.len() == 0 {
        assert(result =~= list.push(item));
    } else if list[0].behind(&item) {
        assert(result =~= list.insert(0, item));
        assert forall|j: int|
            #![trigger list[j]]
            0 <= j < list.len() implies !item.behind(&list[j]) by {
            T::behind_is_order(&list[0], &item, &item);
            if j > 0 {
                T::behind_is_order(&item, &list[0], &list[j]);
            }
        }
        assert forall|i: int, j: int|
            #![trigger result[i], result[j]]
            0 <= i < j < result.len() implies !result[i].behind(&result[j]) by {
            assert(result[j] == list[j - 1]);
            if i > 0 {
                assert(result[i] == list[i - 1]);
            }
        }
        assert forall|i: int| 0 <= i < result.len() implies (#[trigger] result[i]).rankable() by {
            if i > 0 {
                assert(result[i] == list[i - 1]);
            }
        }
    } else {
        let rest = list.skip(1);
        assert forall|i: int| 0 <= i < rest.len() implies (#[trigger] rest[i]).rankable() by {
            assert(rest[i] == list[i + 1]);
        }
        assert forall|i: int, j: int|
            #![trigger rest[i], rest[j]]
            0 <= i < j < rest.len() implies !rest[i].behind(&rest[j]) by {
            assert(rest[i] == list[i + 1]);
            assert(rest[j] == list[j + 1]);
        }
        lemma_placed(rest, item);
        let tail = placed(rest, item);
        assert(result =~= tail.insert(0, list[0]));
        assert(list =~= rest.insert(0, list[0]));
        assert(!list[0].behind(&tail[0])) by {
            if rest.len() > 0 && tail[0] == rest[0] {
                assert(rest[0] == list[1]);
            }
        }
        assert forall|i: int, j: int|
            #![trigger result[i], result[j]]
            0 <= i < j < result.len() implies !result[i].behind(&result[j]) by {
            assert(result[j] == tail[j - 1]);
            if i > 0 {
                assert(result[i] == tail[i - 1]);
            } else if j - 1 > 0 {
                T::behind_is_order(&list[0], &tail[0], &tail[j - 1]);
            }
        }
        assert forall|i: int| 0 <= i < result.len() implies (#[trigger] result[i]).rankable() by {
            if i > 0 {
                assert(result[i] == tail[i - 1]);
            }
        }
        assert(result.to_multiset() =~= list.to_multiset().insert(item));
    }
}

/// Putting items in order drops none and invents none, leaves no item before one that it belongs
/// behind, and keeps items that do not differ as they stood.
pub proof fn law_ranking_sorts<T: Ranked>(items: Seq<T>, model: T)
    requires
        all_rankable(items),
        model.rankable(),
    ensures
        alikes(ranked(items), model) == alikes(items, model),
        in_order(ranked(items)),
        all_rankable(ranked(items)),
        ranked(items).to_multiset() == items.to_multiset(),
    decreases items.len(),
{
    broadcast use vstd::seq_lib::group_to_multiset_ensures;

    if items.len() > 0 {
        let head = items.drop_last();
        assert forall|i: int| 0 <= i < head.len() implies (#[trigger] head[i]).rankable() by {
            assert(head[i] == items[i]);
        }
        law_ranking_sorts(head, model);
        assert(items.last().rankable()) by {
            assert(items.last() == items[items.len() - 1]);
        }
        lemma_placed(ranked(head), items.last());
        lemma_placed_alikes(ranked(head), items.last(), model);
        lemma_alikes_push(head, items.last(), model);
        assert(items =~= head.push(items.last()));
    }
}

} // verus!
