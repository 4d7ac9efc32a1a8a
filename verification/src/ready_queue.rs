//! Tasks on their way to the workers, each with its id, in the order in which
//! they were sent.
use vstd::prelude::*;

verus! {

/// Whether the task `id` is on its way.
pub open spec fn queued<B>(queue: Seq<(B, usize)>, id: usize) -> bool {
    exists|i: int| 0 <= i < queue.len() && #[trigger] queue[i].1 == id
}

/// Whether no task is on its way twice.
pub open spec fn queued_once<B>(queue: Seq<(B, usize)>) -> bool {
    forall|i: int, j: int|
        0 <= i < j < queue.len() ==> (#[trigger] queue[i]).1 != (#[trigger] queue[j]).1
}

/// The queue after a task was sent, if there is one to be sent.
pub open spec fn sent<B>(queue: Seq<(B, usize)>, task: Option<B>, id: usize) -> Seq<(B, usize)> {
    match task {
        Some(b) => queue.push((b, id)),
        None => queue,
    }
}

pub(crate) proof fn lemma_sent<B>(queue: Seq<(B, usize)>, task: Option<B>, id: usize)
    ensures
        forall|k: usize| #[trigger]
            queued(sent(queue, task, id), k) <==> queued(queue, k) || task is Some && k == id,
        queued_once(queue) && (task is Some ==> !queued(queue, id)) ==> queued_once(
            sent(queue, task, id),
        ),
{
    let after = sent(queue, task, id);
    assert forall|k: usize| #[trigger]
        queued(after, k) <==> queued(queue, k) || task is Some && k == id by {
        if queued(queue, k) {
            let i = choose|i: int| 0 <= i < queue.len() && #[trigger] queue[i].1 == k;
            assert(after[i].1 == k);
        }
        if task is Some && k == id {
            assert(after[queue.len() as int].1 == k);
        }
        if queued(after, k) {
            let i = choose|i: int| 0 <= i < after.len() && #[trigger] after[i].1 == k;
            if i < queue.len() {
                assert(queue[i].1 == k);
            }
        }
    }
}

pub(crate) proof fn lemma_received<B>(queue: Seq<(B, usize)>)
    requires
        queue.len() > 0,
        queued_once(queue),
    ensures
        queued(queue, queue[0].1),
        forall|k: usize| #[trigger]
            queued(queue.drop_first(), k) <==> queued(queue, k) && k != queue[0].1,
        queued_once(queue.drop_first()),
{
    let after = queue.drop_first();
    assert forall|k: usize| #[trigger]
        queued(after, k) <==> queued(queue, k) && k != queue[0].1 by {
        if queued(queue, k) && k != queue[0].1 {
            let i = choose|i: int| 0 <= i < queue.len() && #[trigger] queue[i].1 == k;
            assert(after[i - 1].1 == k);
        }
        if queued(after, k) {
            let i = choose|i: int| 0 <= i < after.len() && #[trigger] after[i].1 == k;
            assert(queue[i + 1].1 == k);
        }
    }
    assert forall|i: int, j: int| 0 <= i < j < after.len() implies (#[trigger] after[i]).1 != (
    #[trigger] after[j]).1 by {
        assert(after[i] == queue[i + 1]);
        assert(after[j] == queue[j + 1]);
    }
}

} // verus!
