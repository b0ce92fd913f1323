//! Timeouts: entries that fire once the monotonic clock reaches their
//! deadline.
use vstd::prelude::*;

use crate::error::ErrorCode;

verus! {

/// A timeout: at `deadline`, `emitter` is to get a timeout event.
pub struct TimerEntry<E> {
    pub deadline: u64,
    pub emitter: E,
}

/// Whether the entry's deadline is still ahead of `now`.
pub open spec fn not_expired<E>(now: u64) -> spec_fn(TimerEntry<E>) -> bool {
    |e: TimerEntry<E>| now < e.deadline
}

/// Whether the entry's deadline has been reached at `now`.
pub open spec fn expired<E>(now: u64) -> spec_fn(TimerEntry<E>) -> bool {
    |e: TimerEntry<E>| e.deadline <= now
}

/// The entries of `entries` whose flag in `keep` is set, in their order.
pub open spec fn kept<E>(entries: Seq<TimerEntry<E>>, keep: Seq<bool>) -> Seq<TimerEntry<E>>
    decreases entries.len(),
{
    if entries.len() == 0 || keep.len() != entries.len() {
        Seq::empty()
    } else {
        let before = kept(entries.drop_last(), keep.drop_last());
        if keep.last() {
            before.push(entries.last())
        } else {
            before
        }
    }
}

/// The pending timeouts, in the order they were added.
pub struct Timer<E> {
    entries: Vec<TimerEntry<E>>,
}

impl<E> Timer<E> {
    pub closed spec fn entries(&self) -> Seq<TimerEntry<E>> {
        self.entries@
    }

    pub fn new() -> (r: Self)
        ensures
            r.entries() == Seq::<TimerEntry<E>>::empty(),
    {
        Self { entries: Vec::new() }
    }

    /// Adds a timeout for `emitter` at `deadline`; when memory runs out
    /// nothing changes.
    pub fn add(&mut self, deadline: u64, emitter: E) -> (r: Result<(), ErrorCode>)
        ensures
            match r {
                Ok(()) => final(self).entries() == old(self).entries().push(
                    TimerEntry { deadline, emitter },
                ),
                Err(e) => e == ErrorCode::OutOfMemory && final(self).entries() == old(
                    self,
                ).entries(),
            },
    {
        let reserved = self.entries.try_reserve(1).is_ok();
        self.add_reserved(reserved, deadline, emitter)
    }

    /// Adds a timeout for `emitter` at `deadline` once room for one more was
    /// asked for: when the room was granted (`reserved`), the timeout is
    /// added after those pending, however many there are; when it was not,
    /// the add fails with `OutOfMemory` and nothing changes.
    pub fn add_reserved(&mut self, reserved: bool, deadline: u64, emitter: E) -> (r: Result<
        (),
        ErrorCode,
    >)
        ensures
            reserved ==> r is Ok && final(self).entries() == old(self).entries().push(
                TimerEntry { deadline, emitter },
            ),
            !reserved ==> r == Err::<(), ErrorCode>(ErrorCode::OutOfMemory) && final(self).entries()
                == old(self).entries(),
    {
        if !reserved {
            return Err(ErrorCode::OutOfMemory);
        }
        self.entries.push(TimerEntry { deadline, emitter });
        Ok(())
    }

    /// Removes the timeouts whose emitter is the one meant (`same` tells, for
    /// each); the others stay, in their order.
    pub fn cancel<F: Fn(&E) -> bool>(&mut self, same: F)
        requires
            forall|e: &E| #[trigger] call_requires(same, (e,)),
        ensures
            exists|keep: Seq<bool>|
                {
                    &&& keep.len() == old(self).entries().len()
                    &&& forall|i: int|
                        0 <= i < keep.len() ==> call_ensures(
                            same,
                            (&(#[trigger] old(self).entries()[i]).emitter,),
                            !keep[i],
                        )
                    &&& final(self).entries() == kept(old(self).entries(), keep)
                },
    {
        let mut entries: Vec<TimerEntry<E>> = Vec::new();
        std::mem::swap(&mut entries, &mut self.entries);
        let ghost all = entries@;
        let ghost mut keep: Seq<bool> = Seq::empty();
        for entry in iter: entries
            invariant
                iter.seq() == all,
                keep.len() == iter.index(),
                forall|e: &E| #[trigger] call_requires(same, (e,)),
                forall|i: int|
                    0 <= i < keep.len() ==> call_ensures(
                        same,
                        (&(#[trigger] all[i]).emitter,),
                        !keep[i],
                    ),
                self.entries@ == kept(all.take(iter.index() as int), keep),
        {
            let ghost i = iter.index() as int;
            let drop = same(&entry.emitter);
            proof {
                assert(all.take(i + 1).drop_last() =~= all.take(i));
                assert(all.take(i + 1).last() == all[i]);
                let before = keep;
                keep = keep.push(!drop);
                assert(keep.drop_last() =~= before);
            }
            if !drop {
                self.entries.push(entry);
            }
        }
        proof {
            assert(all.take(all.len() as int) =~= all);
        }
    }

    /// Removes the timeouts whose deadline `now` has reached, and hands back
    /// their emitters, in the order they were added, to be sent a timeout
    /// event; the others stay, in their order.
    pub fn tick(&mut self, now: u64) -> (fired: Vec<E>)
        ensures
            final(self).entries() == old(self).entries().filter(not_expired(now)),
            fired@ == old(self).entries().filter(expired(now)).map_values(
                |e: TimerEntry<E>| e.emitter,
            ),
    {
        let mut entries: Vec<TimerEntry<E>> = Vec::new();
        std::mem::swap(&mut entries, &mut self.entries);
        let ghost all = entries@;
        let mut fired: Vec<E> = Vec::new();
        for entry in iter: entries
            invariant
                iter.seq() == all,
                self.entries@ == all.take(iter.index() as int).filter(not_expired(now)),
                fired@ == all.take(iter.index() as int).filter(expired(now)).map_values(
                    |e: TimerEntry<E>| e.emitter,
                ),
        {
            let ghost i = iter.index() as int;
            proof {
                assert(all.take(i + 1).drop_last() =~= all.take(i));
                assert(all.take(i + 1).last() == all[i]);
                reveal(Seq::filter);
            }
            if now >= entry.deadline {
                fired.push(entry.emitter);
                proof {
                    assert(all.take(i + 1).filter(expired(now)) == all.take(i).filter(
                        expired(now),
                    ).push(all[i]));
                    assert(fired@ =~= all.take(i + 1).filter(expired(now)).map_values(
                        |e: TimerEntry<E>| e.emitter,
                    ));
                }
            } else {
                self.entries.push(entry);
                proof {
                    assert(all.take(i + 1).filter(not_expired(now)) == all.take(i).filter(
                        not_expired(now),
                    ).push(all[i]));
                }
            }
        }
        proof {
            assert(all.take(all.len() as int) =~= all);
        }
        fired
    }
}

/// A tick loses no timeout and keeps none that expired: every entry is
/// either kept or fired, each kept one is still ahead of `now`, and each
/// fired one has been reached.
pub proof fn law_tick_partitions<E>(entries: Seq<TimerEntry<E>>, now: u64)
    ensures
        entries.filter(not_expired(now)).len() + entries.filter(expired(now)).len()
            == entries.len(),
        forall|i: int|
            0 <= i < entries.filter(not_expired(now)).len() ==> now < (#[trigger] entries.filter(
                not_expired(now),
            )[i]).deadline,
        forall|i: int|
            0 <= i < entries.filter(expired(now)).len() ==> (#[trigger] entries.filter(
                expired(now),
            )[i]).deadline <= now,
    decreases entries.len(),
{
    reveal(Seq::filter);
    if entries.len() > 0 {
        law_tick_partitions(entries.drop_last(), now);
    }
    broadcast use vstd::seq_lib::group_filter_ensures;
}

} // verus!
