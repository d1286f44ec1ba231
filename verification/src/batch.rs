//! Draining a burst of requests.

use crate::inbox::Inbox;
use vstd::prelude::*;

verus! {

/// The items as attempts that succeeded.
pub open spec fn successes<T>(items: Seq<T>) -> Seq<Option<T>> {
    Seq::new(items.len(), |i: int| Some(items[i]))
}

/// From one record to the next the items were taken one after the other, until nothing was
/// left to take or there were `most` of them.
pub open spec fn took<T>(
    before: Seq<Option<T>>,
    items: Seq<T>,
    most: int,
    after: Seq<Option<T>>,
) -> bool {
    &&& items.len() <= most
    &&& after == before + if items.len() < most {
        successes(items).push(None)
    } else {
        successes(items)
    }
}

proof fn lemma_one_more<T>(before: Seq<Option<T>>, items: Seq<T>, item: T)
    ensures
        (before + successes(items)).push(Some(item)) == before + successes(items.push(item)),
{
    assert(successes(items.push(item)) =~= successes(items).push(Some(item)));
    assert((before + successes(items)).push(Some(item)) =~= before + successes(items.push(item)));
}

/// Drains everything that is already queued, starting from the first item, in order. Only a
/// vector that cannot grow any more ends it earlier.
pub fn drain_batch<T>(first: T, inbox: &mut Inbox<T>) -> (batch: Vec<T>)
    ensures
        batch.len() >= 1,
        batch@[0] == first,
        took(old(inbox).taken(), batch@.skip(1), usize::MAX - 1, final(inbox).taken()),
        final(inbox).source() == old(inbox).source(),
{
    let mut batch: Vec<T> = Vec::new();
    batch.push(first);
    let ghost before = inbox.taken();
    assert(inbox.taken() =~= before + successes(batch@.skip(1)));
    while batch.len() < usize::MAX
        invariant
            batch.len() >= 1,
            batch@[0] == first,
            before == old(inbox).taken(),
            inbox.source() == old(inbox).source(),
            inbox.taken() == before + successes(batch@.skip(1)),
        decreases usize::MAX - batch.len(),
    {
        match inbox.take_queued() {
            Some(next) => {
                proof {
                    lemma_one_more(before, batch@.skip(1), next);
                    assert(batch@.push(next).skip(1) =~= batch@.skip(1).push(next));
                }
                batch.push(next);
            },
            None => {
                assert(inbox.taken() =~= before + successes(batch@.skip(1)).push(None));
                return batch;
            },
        }
    }
    batch
}

/// The last of the first item and those taken after it.
pub open spec fn newest<T>(first: T, items: Seq<T>) -> T {
    if items.len() == 0 {
        first
    } else {
        items.last()
    }
}

/// Given the first pending item, drains any further already queued items and returns the
/// most recent, so that a burst of requests collapses to its final target. Only as many
/// items as a `u64` counts end it earlier.
pub fn coalesce_latest<T>(first: T, inbox: &mut Inbox<T>) -> (r: T)
    ensures
        exists|items: Seq<T>| #[trigger]
            took(old(inbox).taken(), items, u64::MAX as int, final(inbox).taken()) && r == newest(
                first,
                items,
            ),
        final(inbox).source() == old(inbox).source(),
{
    let mut last = first;
    let mut count: u64 = 0;
    let ghost before = inbox.taken();
    let ghost mut items: Seq<T> = Seq::empty();
    assert(inbox.taken() =~= before + successes(items));
    while count < u64::MAX
        invariant
            count == items.len(),
            last == newest(first, items),
            before == old(inbox).taken(),
            inbox.source() == old(inbox).source(),
            inbox.taken() == before + successes(items),
        decreases u64::MAX - count,
    {
        match inbox.take_queued() {
            Some(next) => {
                proof {
                    lemma_one_more(before, items, next);
                    items = items.push(next);
                }
                last = next;
                count = count + 1;
            },
            None => {
                assert(inbox.taken() =~= before + successes(items).push(None));
                assert(took(before, items, u64::MAX as int, inbox.taken()));
                return last;
            },
        }
    }
    assert(took(before, items, u64::MAX as int, inbox.taken()));
    last
}

/// Coalescing keeps the last item of the batch that draining would give.
pub proof fn law_latest_is_last_of_batch<T>(first: T, batch: Seq<T>)
    requires
        batch.len() >= 1,
        batch[0] == first,
    ensures
        newest(first, batch.skip(1)) == batch.last(),
{
}

/// The attempts from one record to the next gave what a channel answers that held the queue
/// and to which nothing was sent meanwhile: its items in order, and nothing from then on.
pub open spec fn answered<T>(before: Seq<Option<T>>, queue: Seq<T>, after: Seq<Option<T>>) -> bool {
    &&& before.len() <= after.len()
    &&& forall|k: int|
        before.len() <= k < after.len() ==> #[trigger] after[k] == if k - before.len()
            < queue.len() {
            Some(queue[k - before.len()])
        } else {
            None
        }
}

/// A queue to which nothing is sent meanwhile is taken whole and in order, and is found
/// empty at the end: so a batch is the first item and the whole queue, and coalescing gives
/// the newest item of the queue, or the first where it is empty.
pub proof fn law_whole_queue_is_taken<T>(
    before: Seq<Option<T>>,
    items: Seq<T>,
    most: int,
    after: Seq<Option<T>>,
    queue: Seq<T>,
)
    requires
        took(before, items, most, after),
        answered(before, queue, after),
        queue.len() < most,
    ensures
        items == queue,
        after.last() is None,
{
    let n = before.len() as int;
    assert forall|k: int| 0 <= k < items.len() implies k < queue.len() && items[k] == queue[k] by {
        assert(after[n + k] == Some(items[k]));
    }
    if items.len() < queue.len() {
        assert(after[n + items.len()] is None);
    }
    if queue.len() < items.len() {
        assert(after[n + queue.len()] == Some(items[queue.len() as int]));
    }
    assert(items =~= queue);
    assert(after[n + items.len()] is None);
}

/// A batch that is drained from a queue to which nothing is sent meanwhile is the first item
/// and the whole queue, in order, and nothing is left.
pub proof fn law_batch_is_the_whole_queue<T>(
    first: T,
    inbox: &mut Inbox<T>,
    batch: Vec<T>,
    queue: Seq<T>,
)
    requires
        call_ensures(drain_batch::<T>, (first, inbox), batch),
        answered(old(inbox).taken(), queue, final(inbox).taken()),
        queue.len() < usize::MAX - 1,
    ensures
        batch@ == seq![first] + queue,
        final(inbox).taken().last() is None,
        final(inbox).source() == old(inbox).source(),
{
    law_whole_queue_is_taken(
        old(inbox).taken(),
        batch@.skip(1),
        usize::MAX - 1,
        final(inbox).taken(),
        queue,
    );
    assert(batch@ =~= seq![first] + batch@.skip(1));
}

/// A burst in a queue to which nothing is sent meanwhile comes down to its last item, or to the
/// first where the queue is empty, and nothing is left.
pub proof fn law_burst_comes_down_to_its_last<T>(
    first: T,
    inbox: &mut Inbox<T>,
    r: T,
    queue: Seq<T>,
)
    requires
        call_ensures(coalesce_latest::<T>, (first, inbox), r),
        answered(old(inbox).taken(), queue, final(inbox).taken()),
        queue.len() < u64::MAX,
    ensures
        queue.len() == 0 ==> r == first,
        queue.len() > 0 ==> r == queue[queue.len() - 1],
        final(inbox).taken().last() is None,
        final(inbox).source() == old(inbox).source(),
{
    let items = choose|items: Seq<T>| #[trigger]
        took(old(inbox).taken(), items, u64::MAX as int, final(inbox).taken()) && r == newest(
            first,
            items,
        );
    law_whole_queue_is_taken(
        old(inbox).taken(),
        items,
        u64::MAX as int,
        final(inbox).taken(),
        queue,
    );
}

} // verus!
