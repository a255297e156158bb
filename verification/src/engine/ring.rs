//! Queues that drop their oldest item once they hold as many as they may.

use std::collections::VecDeque;
use vstd::prelude::*;

verus! {

/// A queue after one more item: where it held `cap` items or more, the oldest is gone.
pub open spec fn capped<T>(before: Seq<T>, item: T, cap: nat) -> Seq<T> {
    if before.len() >= cap && before.len() > 0 {
        before.skip(1).push(item)
    } else {
        before.push(item)
    }
}

/// A queue after more items, one after the other.
pub open spec fn capped_all<T>(before: Seq<T>, items: Seq<T>, cap: nat) -> Seq<T>
    decreases items.len(),
{
    if items.len() == 0 {
        before
    } else {
        capped(capped_all(before, items.drop_last(), cap), items.last(), cap)
    }
}

/// Puts an item into a queue.
pub fn push_capped<T>(queue: &mut VecDeque<T>, item: T, cap: usize)
    ensures
        final(queue)@ == capped(old(queue)@, item, cap as nat),
{
    if queue.len() >= cap {
        let _oldest: Option<T> = queue.pop_front();
        assert(old(queue)@.len() > 0 ==> queue@ =~= old(queue)@.skip(1));
    }
    queue.push_back(item);
}

/// Puts bytes into a queue, one after the other.
pub fn push_all_capped(queue: &mut VecDeque<u8>, items: &[u8], cap: usize)
    ensures
        final(queue)@ == capped_all(old(queue)@, items@, cap as nat),
{
    let mut i: usize = 0;
    assert(capped_all(queue@, items@.take(0), cap as nat) == queue@);
    while i < items.len()
        invariant
            i <= items.len(),
            queue@ == capped_all(old(queue)@, items@.take(i as int), cap as nat),
        decreases items.len() - i,
    {
        assert(items@.take(i + 1).drop_last() =~= items@.take(i as int));
        push_capped(queue, items[i], cap);
        i += 1;
    }
    assert(items@.take(i as int) =~= items@);
}

/// A queue that holds the same item a number of times.
pub fn filled_queue<T: Copy>(item: T, count: usize) -> (queue: VecDeque<T>)
    ensures
        queue@ == Seq::new(count as nat, |i: int| item),
{
    let mut queue: VecDeque<T> = VecDeque::new();
    let mut i: usize = 0;
    while i < count
        invariant
            i <= count,
            queue@.len() == i,
            forall|j: int| 0 <= j < i ==> #[trigger] queue@[j] == item,
        decreases count - i,
    {
        queue.push_back(item);
        i += 1;
    }
    assert(queue@ =~= Seq::new(count as nat, |i: int| item));
    queue
}

/// A copy of the items of a queue, the oldest first.
pub fn queue_items<T: Copy>(queue: &VecDeque<T>) -> (items: Vec<T>)
    ensures
        items@ == queue@,
{
    let mut items: Vec<T> = Vec::new();
    let mut i: usize = 0;
    while i < queue.len()
        invariant
            i <= queue@.len(),
            items@ == queue@.take(i as int),
        decreases queue@.len() - i,
    {
        items.push(queue[i]);
        assert(queue@.take(i + 1) =~= queue@.take(i as int).push(queue@[i as int]));
        i += 1;
    }
    assert(queue@.take(i as int) =~= queue@);
    items
}

/// A queue that holds no more than it may never comes to hold more, and a full one stays full; the
/// newest item is always the one that was put in last.
pub proof fn law_queue_bounded<T>(before: Seq<T>, items: Seq<T>, cap: nat)
    requires
        cap > 0,
    ensures
        before.len() <= cap ==> capped_all(before, items, cap).len() <= cap,
        before.len() == cap ==> capped_all(before, items, cap).len() == cap,
        capped_all(before, items, cap).len() >= before.len(),
        items.len() > 0 ==> capped_all(before, items, cap).last() == items.last(),
    decreases items.len(),
{
    if items.len() > 0 {
        law_queue_bounded(before, items.drop_last(), cap);
    }
}

/// What a queue holds after more items are the last of the old and the new items together, as many
/// as it may hold.
pub proof fn law_queue_keeps_newest<T>(before: Seq<T>, items: Seq<T>, cap: nat)
    requires
        cap > 0,
        before.len() <= cap,
    ensures
        ({
            let all = before + items;
            capped_all(before, items, cap) == if all.len() <= cap {
                all
            } else {
                all.skip(all.len() - cap)
            }
        }),
    decreases items.len(),
{
    let all = before + items;
    if items.len() == 0 {
        assert(all =~= before);
    } else {
        law_queue_keeps_newest(before, items.drop_last(), cap);
        let less = before + items.drop_last();
        assert(all =~= less.push(items.last()));
        if all.len() > cap {
            assert(all.skip(all.len() - cap) =~= capped_all(before, items, cap));
        }
    }
}

} // verus!
