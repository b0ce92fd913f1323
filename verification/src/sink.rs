//! Sinks: the handles (by id) that have something to report, each queued
//! at most once, and the threads waiting for one.
use std::collections::BTreeSet;
use std::collections::VecDeque;

use vstd::prelude::*;

verus! {

broadcast use vstd::std_specs::btree::group_btree_axioms, vstd::laws_cmp::group_laws_cmp;

pub struct Sink<W> {
    ready_queue: VecDeque<usize>,
    ready_set: BTreeSet<usize>,
    waiters: VecDeque<W>,
}

impl<W> Sink<W> {
    /// The handle ids ready to be reported, oldest first.
    pub closed spec fn ready_queue(&self) -> Seq<usize> {
        self.ready_queue@
    }

    /// The ids in the ready queue, as a set kept beside it.
    pub closed spec fn ready_set(&self) -> Set<usize> {
        self.ready_set@
    }

    /// The threads waiting for an id to be ready, in the order they came.
    pub closed spec fn waiters(&self) -> Seq<W> {
        self.waiters@
    }

    /// The set holds exactly the queued ids, and no id is queued twice.
    pub open spec fn wf(&self) -> bool {
        &&& self.ready_set() == self.ready_queue().to_set()
        &&& self.ready_queue().no_duplicates()
    }

    pub fn new() -> (r: Self)
        ensures
            r.wf(),
            r.ready_queue() == Seq::<usize>::empty(),
            r.waiters() == Seq::<W>::empty(),
    {
        let r = Self { ready_queue: VecDeque::new(), ready_set: BTreeSet::new(), waiters: VecDeque::new() };
        assert(r.ready_queue().to_set() =~= Set::<usize>::empty());
        r
    }

    /// Queues the id of a handle just added to the sink, so that its
    /// pending events get reported.
    pub fn add(&mut self, id: usize)
        ensures
            final(self).ready_queue() == old(self).ready_queue().push(id),
            final(self).ready_set() == old(self).ready_set().insert(id),
            final(self).waiters() == old(self).waiters(),
            old(self).wf() && !old(self).ready_set().contains(id) ==> final(self).wf(),
    {
        self.ready_queue.push_back(id);
        self.ready_set.insert(id);
        proof {
            if old(self).wf() && !old(self).ready_set().contains(id) {
                lemma_push_keeps_set(old(self).ready_queue(), id);
            }
        }
    }

    /// Marks handle `id` ready, unless it is already; the first waiting
    /// thread, if any, is then handed back to be woken.
    pub fn enqueue(&mut self, id: usize) -> (woken: Option<W>)
        requires
            old(self).wf(),
        ensures
            final(self).wf(),
            old(self).ready_set().contains(id) ==> woken is None && final(self).ready_queue()
                == old(self).ready_queue() && final(self).waiters() == old(self).waiters(),
            !old(self).ready_set().contains(id) ==> {
                &&& final(self).ready_queue() == old(self).ready_queue().push(id)
                &&& if old(self).waiters().len() == 0 {
                    woken is None && final(self).waiters() == old(self).waiters()
                } else {
                    woken == Some(old(self).waiters()[0]) && final(self).waiters() == old(
                        self,
                    ).waiters().drop_first()
                }
            },
    {
        if self.ready_set.contains(&id) {
            return None;
        }
        self.ready_queue.push_back(id);
        self.ready_set.insert(id);
        proof {
            lemma_push_keeps_set(old(self).ready_queue(), id);
        }
        let woken = self.waiters.pop_front();
        proof {
            if old(self).waiters().len() > 0 {
                assert(self.waiters() =~= old(self).waiters().drop_first());
            }
        }
        woken
    }

    /// Takes the oldest ready id out of the queue and the set.
    pub fn pop_ready(&mut self) -> (r: Option<usize>)
        requires
            old(self).wf(),
        ensures
            final(self).wf(),
            final(self).waiters() == old(self).waiters(),
            old(self).ready_queue().len() == 0 ==> r is None && final(self).ready_queue() == old(
                self,
            ).ready_queue(),
            old(self).ready_queue().len() > 0 ==> r == Some(old(self).ready_queue()[0]) && final(self).ready_queue() == old(self).ready_queue().drop_first(),
    {
        let r = self.ready_queue.pop_front();
        match r {
            Some(id) => {
                self.ready_set.remove(&id);
                proof {
                    let q = old(self).ready_queue();
                    assert(self.ready_queue() =~= q.drop_first());
                    assert(self.ready_set() =~= q.drop_first().to_set()) by {
                        assert forall|x: usize| #[trigger] self.ready_set().contains(x) <==> q.drop_first().to_set().contains(x) by {
                            if q.drop_first().contains(x) {
                                let j = choose|j: int| 0 <= j < q.drop_first().len() && q.drop_first()[j] == x;
                                assert(q[j + 1] == x);
                                assert(q.contains(x));
                            }
                            if q.contains(x) && x != id {
                                let j = choose|j: int| 0 <= j < q.len() && q[j] == x;
                                assert(j != 0);
                                assert(q.drop_first()[j - 1] == x);
                            }
                        }
                    }
                }
            },
            None => {},
        }
        r
    }

    /// Makes `waiter` wait for a handle to become ready.
    pub fn add_waiter(&mut self, waiter: W)
        ensures
            final(self).ready_queue() == old(self).ready_queue(),
            final(self).ready_set() == old(self).ready_set(),
            final(self).waiters() == old(self).waiters().push(waiter),
    {
        self.waiters.push_back(waiter);
    }
}

/// Appending an id not in a sequence without duplicates keeps it without
/// duplicates, and adds the id to its set.
proof fn lemma_push_keeps_set(q: Seq<usize>, id: usize)
    ensures
        q.push(id).to_set() == q.to_set().insert(id),
        q.no_duplicates() && !q.to_set().contains(id) ==> q.push(id).no_duplicates(),
{
    assert(q.push(id).to_set() =~= q.to_set().insert(id)) by {
        assert forall|x: usize| #[trigger] q.push(id).to_set().contains(x) <==> q.to_set().insert(id).contains(x) by {
            if q.push(id).contains(x) && x != id {
                let j = choose|j: int| 0 <= j < q.push(id).len() && q.push(id)[j] == x;
                assert(q[j] == x);
            }
            if q.contains(x) {
                let j = choose|j: int| 0 <= j < q.len() && q[j] == x;
                assert(q.push(id)[j] == x);
            }
            if x == id {
                assert(q.push(id)[q.len() as int] == x);
            }
        }
    }
    if q.no_duplicates() && !q.to_set().contains(id) {
        assert forall|i: int, j: int| 0 <= i < j < q.push(id).len() implies q.push(id)[i] != q.push(id)[j] by {
            if j == q.len() {
                assert(q.contains(q[i]));
            }
        }
    }
}

} // verus!
