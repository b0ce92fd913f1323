//! Poll objects: events that happened and were not read yet, and the
//! threads (by id) that wait for one.
use std::collections::VecDeque;

use vstd::prelude::*;

use crate::deque::deque_try_reserve;
use crate::error::ErrorCode;
use crate::time::Timer;
use crate::time::kept;
use crate::time::TimerEntry;

verus! {

/// What a thread that polls gets.
pub enum WaitOutcome<Ev> {
    /// The oldest event not read yet.
    Event(Ev),
    /// No event, and the deadline has passed: a timeout event.
    TimedOut,
    /// No event: the thread now waits for one.
    MustWait,
}

/// Whether a wait with `deadline` is over at time `now`.
pub open spec fn deadline_passed(deadline: Option<u64>, now: u64) -> bool {
    match deadline {
        Some(d) => d <= now,
        None => false,
    }
}

pub struct Poll<Ev> {
    queue: VecDeque<Ev>,
    waiters: VecDeque<u64>,
}

impl<Ev> Poll<Ev> {
    /// The events not read yet, oldest first.
    pub closed spec fn events(&self) -> Seq<Ev> {
        self.queue@
    }

    /// The ids of the waiting threads, in the order they came.
    pub closed spec fn waiters(&self) -> Seq<u64> {
        self.waiters@
    }

    pub fn new() -> (r: Self)
        ensures
            r.events() == Seq::<Ev>::empty(),
            r.waiters() == Seq::<u64>::empty(),
    {
        Self { queue: VecDeque::new(), waiters: VecDeque::new() }
    }

    /// Records `event`; the first waiting thread, if any, is handed back to
    /// be woken, and its timeouts leave `timer` (`is_timeout_of` tells
    /// whether an entry's emitter is a timeout of a given thread). When
    /// memory runs out nothing changes.
    pub fn enqueue<E, F: Fn(&E, u64) -> bool>(
        &mut self,
        event: Ev,
        timer: &mut Timer<E>,
        is_timeout_of: F,
    ) -> (r: Result<Option<u64>, ErrorCode>)
        requires
            forall|e: &E, w: u64| #[trigger] call_requires(is_timeout_of, (e, w)),
        ensures
            match r {
                Err(e) => e == ErrorCode::OutOfMemory && final(self).events() == old(self).events()
                    && final(self).waiters() == old(self).waiters() && final(timer).entries() == old(
                    timer,
                ).entries(),
                Ok(woken) => {
                    &&& final(self).events() == old(self).events().push(event)
                    &&& if old(self).waiters().len() == 0 {
                        &&& woken is None
                        &&& final(self).waiters() == old(self).waiters()
                        &&& final(timer).entries() == old(timer).entries()
                    } else {
                        &&& woken == Some(old(self).waiters()[0])
                        &&& final(self).waiters() == old(self).waiters().drop_first()
                        &&& exists|keep: Seq<bool>|
                            {
                                &&& keep.len() == old(timer).entries().len()
                                &&& forall|i: int|
                                    0 <= i < keep.len() ==> call_ensures(
                                        is_timeout_of,
                                        (&(#[trigger] old(timer).entries()[i]).emitter, old(self).waiters()[0]),
                                        !keep[i],
                                    )
                                &&& final(timer).entries() == kept(old(timer).entries(), keep)
                            }
                    }
                },
            },
    {
        let reserved = deque_try_reserve(&mut self.queue, 1).is_ok();
        self.enqueue_reserved(reserved, event, timer, is_timeout_of)
    }

    /// Records `event` once room for one more was asked for: when the room
    /// was granted (`reserved`), the event goes after those not read yet,
    /// however many there are, and the first waiting thread, if any, is
    /// handed back with its timeouts taken out of `timer`; when it was not,
    /// this fails with `OutOfMemory` and nothing changes.
    pub fn enqueue_reserved<E, F: Fn(&E, u64) -> bool>(
        &mut self,
        reserved: bool,
        event: Ev,
        timer: &mut Timer<E>,
        is_timeout_of: F,
    ) -> (r: Result<Option<u64>, ErrorCode>)
        requires
            forall|e: &E, w: u64| #[trigger] call_requires(is_timeout_of, (e, w)),
        ensures
            !reserved ==> r == Err::<Option<u64>, ErrorCode>(ErrorCode::OutOfMemory),
            reserved ==> r is Ok,
            match r {
                Err(e) => e == ErrorCode::OutOfMemory && final(self).events() == old(self).events()
                    && final(self).waiters() == old(self).waiters() && final(timer).entries() == old(
                    timer,
                ).entries(),
                Ok(woken) => {
                    &&& final(self).events() == old(self).events().push(event)
                    &&& if old(self).waiters().len() == 0 {
                        &&& woken is None
                        &&& final(self).waiters() == old(self).waiters()
                        &&& final(timer).entries() == old(timer).entries()
                    } else {
                        &&& woken == Some(old(self).waiters()[0])
                        &&& final(self).waiters() == old(self).waiters().drop_first()
                        &&& exists|keep: Seq<bool>|
                            {
                                &&& keep.len() == old(timer).entries().len()
                                &&& forall|i: int|
                                    0 <= i < keep.len() ==> call_ensures(
                                        is_timeout_of,
                                        (&(#[trigger] old(timer).entries()[i]).emitter, old(self).waiters()[0]),
                                        !keep[i],
                                    )
                                &&& final(timer).entries() == kept(old(timer).entries(), keep)
                            }
                    }
                },
            },
    {
        if !reserved {
            return Err(ErrorCode::OutOfMemory);
        }
        self.queue.push_back(event);
        let woken = self.waiters.pop_front();
        proof {
            if old(self).waiters().len() > 0 {
                assert(self.waiters() =~= old(self).waiters().drop_first());
            }
        }
        if let Some(waiter) = woken {
            let f = &is_timeout_of;
            let of_waiter = |e: &E| -> (b: bool)
                ensures
                    call_ensures(*f, (e, waiter), b),
                { f(e, waiter) };
            timer.cancel(of_waiter);
        }
        Ok(woken)
    }

    /// Stops thread `waiter` from waiting.
    pub fn cancel(&mut self, waiter: u64)
        ensures
            final(self).events() == old(self).events(),
            final(self).waiters() == old(self).waiters().filter(|w: u64| w != waiter),
    {
        let mut kept: VecDeque<u64> = VecDeque::new();
        let ghost all = self.waiters@;
        let ghost mut i: int = 0;
        while self.waiters.len() > 0
            invariant
                self.queue@ == old(self).queue@,
                all == old(self).waiters@,
                0 <= i <= all.len(),
                self.waiters@ == all.skip(i),
                kept@ == all.take(i).filter(|w: u64| w != waiter),
            decreases self.waiters@.len(),
        {
            let w = self.waiters.pop_front().unwrap();
            proof {
                assert(all.take(i + 1).drop_last() =~= all.take(i));
                assert(all.take(i + 1).last() == w);
                reveal(Seq::filter);
                assert(self.waiters@ =~= all.skip(i + 1));
            }
            if w != waiter {
                kept.push_back(w);
            }
            proof {
                assert(kept@ =~= all.take(i + 1).filter(|w: u64| w != waiter));
                i = i + 1;
            }
        }
        proof {
            assert(all.take(i) =~= all);
        }
        self.waiters = kept;
    }

    /// Polls for thread `waiter` with `deadline`, at time `now`: it gets the
    /// oldest event, or a timeout once the deadline is reached; else it
    /// waits, after a timeout for `emitter` at the deadline went into
    /// `timer`. When memory runs out, or the timer refuses, nothing changes.
    pub fn try_wait<E>(
        &mut self,
        waiter: u64,
        deadline: Option<u64>,
        now: u64,
        timer: &mut Timer<E>,
        emitter: E,
    ) -> (r: Result<WaitOutcome<Ev>, ErrorCode>)
        ensures
            old(self).events().len() > 0 ==> {
                &&& r == Ok::<WaitOutcome<Ev>, ErrorCode>(WaitOutcome::Event(old(self).events()[0]))
                &&& final(self).events() == old(self).events().drop_first()
                &&& final(self).waiters() == old(self).waiters()
                &&& final(timer).entries() == old(timer).entries()
            },
            old(self).events().len() == 0 && deadline_passed(deadline, now) ==> {
                &&& r == Ok::<WaitOutcome<Ev>, ErrorCode>(WaitOutcome::TimedOut)
                &&& final(self).events() == old(self).events()
                &&& final(self).waiters() == old(self).waiters()
                &&& final(timer).entries() == old(timer).entries()
            },
            old(self).events().len() == 0 && !deadline_passed(deadline, now) ==> {
                &&& final(self).events() == old(self).events()
                &&& match r {
                    Ok(outcome) => {
                        &&& outcome is MustWait
                        &&& final(self).waiters() == old(self).waiters().push(waiter)
                        &&& final(timer).entries() == match deadline {
                            Some(d) => old(timer).entries().push(TimerEntry { deadline: d, emitter }),
                            None => old(timer).entries(),
                        }
                    },
                    Err(e) => {
                        &&& e == ErrorCode::OutOfMemory
                        &&& final(self).waiters() == old(self).waiters()
                        &&& final(timer).entries() == old(timer).entries()
                    },
                }
            },
    {
        if let Some(event) = self.queue.pop_front() {
            proof {
                assert(self.events() =~= old(self).events().drop_first());
            }
            return Ok(WaitOutcome::Event(event));
        }
        if let Some(deadline) = deadline {
            if now >= deadline {
                return Ok(WaitOutcome::TimedOut);
            }
        }
        if deque_try_reserve(&mut self.waiters, 1).is_err() {
            return Err(ErrorCode::OutOfMemory);
        }
        if let Some(deadline) = deadline {
            timer.add(deadline, emitter)?;
        }
        self.waiters.push_back(waiter);
        Ok(WaitOutcome::MustWait)
    }
}

} // verus!
