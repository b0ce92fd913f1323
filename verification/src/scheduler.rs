//! The run queue: the threads ready to run, and room reserved for every
//! thread in the system so that making one runnable never allocates.
use std::collections::VecDeque;

use vstd::prelude::*;

use crate::deque::deque_capacity;
use crate::deque::deque_try_reserve;
use crate::error::ErrorCode;

verus! {

/// How much more room a run queue with `capacity` slots, `len` of them in
/// use, must reserve so that all `num_threads` threads fit in it: none when
/// they fit already, else enough beyond the threads queued.
pub fn room_to_reserve(capacity: usize, len: usize, num_threads: usize) -> (r: Option<usize>)
    requires
        len <= capacity,
    ensures
        r == (if capacity < num_threads {
            Some((num_threads - len) as usize)
        } else {
            None
        }),
{
    if capacity < num_threads {
        Some(num_threads - len)
    } else {
        None
    }
}

pub struct Scheduler<T> {
    run_queue: VecDeque<T>,
    /// The number of threads in the system.
    num_threads: usize,
}

impl<T> Scheduler<T> {
    /// The runnable threads, next to run first.
    pub closed spec fn queue(&self) -> Seq<T> {
        self.run_queue@
    }

    /// The number of threads in the system.
    pub closed spec fn num_threads(&self) -> nat {
        self.num_threads as nat
    }

    pub fn new() -> (r: Self)
        ensures
            r.queue() == Seq::<T>::empty(),
            r.num_threads() == 0,
    {
        Self { run_queue: VecDeque::new(), num_threads: 0 }
    }

    /// Counts one more thread in the system, making sure the run queue has
    /// room for all of them; when memory runs out nothing changes.
    pub fn reserve_capacity(&mut self) -> (r: Result<(), ErrorCode>)
        requires
            old(self).num_threads() < usize::MAX,
        ensures
            final(self).queue() == old(self).queue(),
            match r {
                Ok(()) => final(self).num_threads() == old(self).num_threads() + 1,
                Err(e) => e == ErrorCode::OutOfMemory && final(self).num_threads() == old(
                    self,
                ).num_threads(),
            },
    {
        let capacity = deque_capacity(&self.run_queue);
        let reserved = match room_to_reserve(capacity, self.run_queue.len(), self.num_threads + 1) {
            None => true,
            Some(additional) => deque_try_reserve(&mut self.run_queue, additional).is_ok(),
        };
        self.count_reserved(reserved)
    }

    /// Counts one more thread once room for it in the run queue was asked
    /// for (none is needed when there is room already): when the room was
    /// granted (`reserved`), the thread is counted, however many there
    /// are; when it was not, this fails with `OutOfMemory` and nothing
    /// changes.
    pub fn count_reserved(&mut self, reserved: bool) -> (r: Result<(), ErrorCode>)
        requires
            old(self).num_threads() < usize::MAX,
        ensures
            final(self).queue() == old(self).queue(),
            reserved ==> r is Ok && final(self).num_threads() == old(self).num_threads() + 1,
            !reserved ==> r == Err::<(), ErrorCode>(ErrorCode::OutOfMemory) && final(self).num_threads()
                == old(self).num_threads(),
    {
        if !reserved {
            return Err(ErrorCode::OutOfMemory);
        }
        self.num_threads = self.num_threads + 1;
        Ok(())
    }

    /// Counts one thread fewer in the system.
    pub fn release_capacity(&mut self)
        requires
            old(self).num_threads() > 0,
        ensures
            final(self).queue() == old(self).queue(),
            final(self).num_threads() == old(self).num_threads() - 1,
    {
        self.num_threads = self.num_threads - 1;
    }

    /// The number of threads in the system.
    pub fn thread_count(&self) -> (r: usize)
        ensures
            r == self.num_threads(),
    {
        self.num_threads
    }

    /// The number of runnable threads.
    pub fn len(&self) -> (r: usize)
        ensures
            r == self.queue().len(),
    {
        self.run_queue.len()
    }

    /// Takes the next thread to run.
    pub fn pop(&mut self) -> (r: Option<T>)
        ensures
            final(self).num_threads() == old(self).num_threads(),
            old(self).queue().len() == 0 ==> r is None && final(self).queue() == old(self).queue(),
            old(self).queue().len() > 0 ==> r == Some(old(self).queue()[0]) && final(self).queue()
                == old(self).queue().drop_first(),
    {
        let r = self.run_queue.pop_front();
        proof {
            if old(self).queue().len() > 0 {
                assert(self.queue() =~= old(self).queue().drop_first());
            }
        }
        r
    }

    /// Makes `thread` runnable, after those already waiting.
    pub fn push_back(&mut self, thread: T)
        requires
            old(self).queue().len() < old(self).num_threads(),
        ensures
            final(self).num_threads() == old(self).num_threads(),
            final(self).queue() == old(self).queue().push(thread),
    {
        self.run_queue.push_back(thread);
    }
}

/// The run queue once the current thread went back to it: it does when
/// there is one and it is still runnable.
pub open spec fn queue_with<T>(queue: Seq<T>, current: Option<T>, runnable: bool) -> Seq<T> {
    match current {
        Some(t) => if runnable {
            queue.push(t)
        } else {
            queue
        },
        None => queue,
    }
}

/// Picks the next thread to run. The current thread, if any, goes back to
/// the run queue first when it is still runnable. Each thread taken from the
/// queue gets a chance to wake (`try_wake` tells whether it is runnable
/// then); one that is still blocked leaves the queue. `None`: the queue ran
/// empty, and the CPU idles.
pub fn pick_next<T, F: Fn(&T) -> bool>(
    sched: &mut Scheduler<T>,
    current: Option<T>,
    current_runnable: bool,
    try_wake: F,
) -> (r: Option<T>)
    requires
        current is Some && current_runnable ==> old(sched).queue().len() < old(
            sched,
        ).num_threads(),
        forall|t: &T| #[trigger] call_requires(try_wake, (t,)),
    ensures
        ({
            let q = queue_with(old(sched).queue(), current, current_runnable);
            &&& final(sched).num_threads() == old(sched).num_threads()
            &&& match r {
                None => {
                    &&& final(sched).queue() == Seq::<T>::empty()
                    &&& forall|i: int| 0 <= i < q.len() ==> call_ensures(try_wake, (&q[i],), false)
                },
                Some(next) => exists|k: int|
                    {
                        &&& 0 <= k < q.len()
                        &&& next == q[k]
                        &&& call_ensures(try_wake, (&q[k],), true)
                        &&& final(sched).queue() == q.skip(k + 1)
                        &&& forall|i: int|
                            0 <= i < k ==> call_ensures(try_wake, (&q[i],), false)
                    },
            }
        }),
{
    let ghost q = queue_with(sched.queue(), current, current_runnable);
    if current_runnable {
        if let Some(thread) = current {
            sched.push_back(thread);
        }
    }
    let ghost mut k: int = 0;
    while sched.len() > 0
        invariant
            0 <= k <= q.len(),
            q == queue_with(old(sched).queue(), current, current_runnable),
            sched.queue() == q.skip(k),
            sched.num_threads() == old(sched).num_threads(),
            forall|t: &T| #[trigger] call_requires(try_wake, (t,)),
            forall|i: int| 0 <= i < k ==> call_ensures(try_wake, (&q[i],), false),
        decreases q.len() - k,
    {
        let ghost before = sched.queue();
        let thread = sched.pop().unwrap();
        proof {
            assert(before[0] == q[k]);
        }
        let runnable = try_wake(&thread);
        if runnable {
            proof {
                assert(sched.queue() =~= q.skip(k + 1));
                assert(call_ensures(try_wake, (&q[k],), true));
            }
            return Some(thread);
        }
        proof {
            assert(sched.queue() =~= q.skip(k + 1));
            k = k + 1;
        }
    }
    proof {
        assert(k == q.len());
    }
    None
}

} // verus!
