//! The state of a kernel thread, and how a blocked thread resumes.
use vstd::prelude::*;

use crate::error::ErrorCode;
use crate::scheduler::queue_with;
use crate::scheduler::Scheduler;

verus! {

/// The state of a thread; a blocked thread keeps what it waits for.
pub enum ThreadState<C> {
    Runnable,
    Blocked(C),
    Exited,
}

/// How the wait behind a blocked thread's continuation ended, if it did.
pub enum WaitEnd {
    /// Nothing yet: the thread stays blocked.
    WouldBlock,
    /// A result for user space, as its raw value.
    Value(isize),
    /// The wait failed with error number `errno`.
    Failed(u16),
}

/// What the blocked thread gets from its wait.
pub enum WaitResult {
    /// Nothing yet: the thread stays blocked.
    WouldBlock,
    /// The wait is over; `value` goes back to user space as the system
    /// call's return value.
    Done(isize),
}

/// The system call's return value that ends a wait, if it ended: a result
/// as it is, an error as its negated number (negative values are error
/// codes).
pub open spec fn resume_value(end: WaitEnd) -> Option<int> {
    match end {
        WaitEnd::WouldBlock => None,
        WaitEnd::Value(v) => Some(v as int),
        WaitEnd::Failed(errno) => Some(-(errno as int)),
    }
}

/// Turns the end of a wait into what the thread gets.
pub fn wait_result(end: WaitEnd) -> (r: WaitResult)
    ensures
        match resume_value(end) {
            None => r matches WaitResult::WouldBlock,
            Some(v) => r matches WaitResult::Done(value) && value == v,
        },
{
    match end {
        WaitEnd::WouldBlock => WaitResult::WouldBlock,
        WaitEnd::Value(v) => WaitResult::Done(v),
        WaitEnd::Failed(errno) => WaitResult::Done(-(errno as isize)),
    }
}

/// Whether the thread can go on running, and with which return value.
#[derive(Debug, PartialEq, Eq, Structural)]
pub enum ContinuationResult {
    ReturnToUser(Option<isize>),
    StillBlocked,
}

impl<C> ThreadState<C> {
    pub fn is_runnable(&self) -> (r: bool)
        ensures
            r == (*self is Runnable),
    {
        match self {
            ThreadState::Runnable => true,
            _ => false,
        }
    }
}

/// Runs the continuation of a thread about to be scheduled: a runnable
/// thread returns to user space as it is; a blocked one retries its wait
/// through `wait` and returns with what ended the wait once it ended.
pub fn run_continuation<C, F: FnOnce(&C) -> WaitEnd>(state: &mut ThreadState<C>, wait: F) -> (r:
    ContinuationResult)
    requires
        !(*old(state) is Exited),
        forall|c: &C| #[trigger] call_requires(wait, (c,)),
    ensures
        match *old(state) {
            ThreadState::Runnable => r == ContinuationResult::ReturnToUser(None) && *final(state)
                == *old(state),
            ThreadState::Blocked(c) => exists|w: WaitEnd|
                #[trigger] call_ensures(wait, (&c,), w) && match resume_value(w) {
                    None => r == ContinuationResult::StillBlocked && *final(state) == *old(state),
                    Some(v) => r matches ContinuationResult::ReturnToUser(Some(value)) && value == v
                        && *final(state) is Runnable,
                },
            ThreadState::Exited => false,
        },
{
    let end = match state {
        ThreadState::Runnable => return ContinuationResult::ReturnToUser(None),
        ThreadState::Exited => return ContinuationResult::StillBlocked,
        ThreadState::Blocked(c) => wait(c),
    };
    match wait_result(end) {
        WaitResult::WouldBlock => ContinuationResult::StillBlocked,
        WaitResult::Done(value) => {
            *state = ThreadState::Runnable;
            ContinuationResult::ReturnToUser(Some(value))
        },
    }
}

/// Switches to the next thread: the current thread goes back to the run
/// queue when it is still runnable and is not the CPU's idle thread; then
/// threads are taken from the queue and their continuation is run (`run`)
/// until one can return to user space. A thread still blocked leaves the
/// queue. Returns that thread with the value it returns with; `None`: the
/// queue ran empty, and the CPU idles.
pub fn switch_to_next<T, F: Fn(&T) -> ContinuationResult>(
    sched: &mut Scheduler<T>,
    current: T,
    runnable: bool,
    in_idle: bool,
    run: F,
) -> (r: Option<(T, Option<isize>)>)
    requires
        runnable && !in_idle ==> old(sched).queue().len() < old(sched).num_threads(),
        forall|t: &T| #[trigger] call_requires(run, (t,)),
    ensures
        final(sched).num_threads() == old(sched).num_threads(),
        switched_to(
            run,
            queue_with(old(sched).queue(), Some(current), runnable && !in_idle),
            final(sched).queue(),
            r,
        ),
{
    let ghost q = queue_with(sched.queue(), Some(current), runnable && !in_idle);
    if runnable && !in_idle {
        sched.push_back(current);
    }
    let ghost mut k: int = 0;
    let mut switched: Option<(T, Option<isize>)> = None;
    while sched.len() > 0
        invariant_except_break
            0 <= k <= q.len(),
            sched.queue() == q.skip(k),
            switched is None,
        invariant
            q == queue_with(old(sched).queue(), Some(current), runnable && !in_idle),
            sched.num_threads() == old(sched).num_threads(),
            forall|t: &T| #[trigger] call_requires(run, (t,)),
            forall|i: int|
                0 <= i < k ==> call_ensures(run, (&q[i],), ContinuationResult::StillBlocked),
        ensures
            switched is None ==> k == q.len() && sched.queue() == Seq::<T>::empty(),
            switched matches Some(s) ==> {
                &&& 0 <= k < q.len()
                &&& s.0 == q[k]
                &&& call_ensures(run, (&q[k],), ContinuationResult::ReturnToUser(s.1))
                &&& sched.queue() == q.skip(k + 1)
            },
        decreases q.len() - k,
    {
        let ghost before = sched.queue();
        let next = sched.pop().unwrap();
        proof {
            assert(before[0] == q[k]);
            assert(sched.queue() =~= q.skip(k + 1));
        }
        let result = run(&next);
        if let ContinuationResult::ReturnToUser(ret) = result {
            switched = Some((next, ret));
            break;
        }
        proof {
            k = k + 1;
        }
    }
    proof {
        assert(switched_to(run, q, sched.queue(), switched));
    }
    switched
}

/// Where a switch over the run queue `q` ended, with `after` the queue left:
/// at the first thread whose continuation let it return to user space, all
/// before it still blocked; `None` when every thread was still blocked.
pub open spec fn switched_to<T, F: Fn(&T) -> ContinuationResult>(
    run: F,
    q: Seq<T>,
    after: Seq<T>,
    r: Option<(T, Option<isize>)>,
) -> bool {
    match r {
        None => {
            &&& after == Seq::<T>::empty()
            &&& forall|i: int|
                0 <= i < q.len() ==> call_ensures(run, (&q[i],), ContinuationResult::StillBlocked)
        },
        Some(switched) => exists|k: int|
            #![trigger q[k]]
            {
                &&& 0 <= k < q.len()
                &&& switched.0 == q[k]
                &&& call_ensures(run, (&q[k],), ContinuationResult::ReturnToUser(switched.1))
                &&& after == q.skip(k + 1)
                &&& forall|i: int|
                    0 <= i < k ==> call_ensures(run, (&q[i],), ContinuationResult::StillBlocked)
            },
    }
}

/// Whether the registers of thread `src` may be copied to thread `dest` on
/// behalf of thread `current` (threads named by object identity): a thread
/// is not copied onto itself, and only the current thread's registers can
/// be copied.
pub fn check_copy_regs(src: u64, dest: u64, current: u64) -> (r: Result<(), ErrorCode>)
    ensures
        r == (if src == dest {
            Err::<(), ErrorCode>(ErrorCode::InvalidArg)
        } else if src != current {
            Err(ErrorCode::Unsupported)
        } else {
            Ok(())
        }),
{
    if src == dest {
        return Err(ErrorCode::InvalidArg);
    }
    if src != current {
        return Err(ErrorCode::Unsupported);
    }
    Ok(())
}

/// The life of a thread: created, started, blocked on a poll `P`, exited.
pub enum Lifecycle<P> {
    NotStarted,
    Runnable,
    Blocked(P),
    Exited,
}

/// How a poll that a running thread starts ends for now.
#[derive(Debug, PartialEq, Eq, Structural)]
pub enum PollStart {
    /// An event was there: `value` is the system call's return value.
    Done(usize),
    /// No event: the thread blocks on the poll.
    Blocked,
}

impl<P> Lifecycle<P> {
    pub fn new() -> (r: Self)
        ensures
            r is NotStarted,
    {
        Lifecycle::NotStarted
    }

    pub fn is_runnable(&self) -> (r: bool)
        ensures
            r == (*self is Runnable),
    {
        match self {
            Lifecycle::Runnable => true,
            _ => false,
        }
    }

    /// Succeeds while the thread has not started: its registers may still
    /// be set.
    pub fn check_not_started(&self) -> (r: Result<(), ErrorCode>)
        ensures
            r == (if *self is NotStarted {
                Ok::<(), ErrorCode>(())
            } else {
                Err(ErrorCode::InvalidState)
            }),
    {
        match self {
            Lifecycle::NotStarted => Ok(()),
            _ => Err(ErrorCode::InvalidState),
        }
    }

    /// Starts a thread that has not started: `enqueue` puts it on the run
    /// queue, and the thread is runnable once that succeeded.
    pub fn start<F: FnOnce() -> Result<(), ErrorCode>>(&mut self, enqueue: F) -> (r: Result<
        (),
        ErrorCode,
    >)
        requires
            call_requires(enqueue, ()),
        ensures
            lifecycle_step(*old(self), *final(self)),
            !(*old(self) is NotStarted) ==> r == Err::<(), ErrorCode>(ErrorCode::InvalidState)
                && *final(self) == *old(self),
            *old(self) is NotStarted ==> call_ensures(enqueue, (), r),
            *old(self) is NotStarted && r is Ok ==> *final(self) is Runnable,
            *old(self) is NotStarted && r is Err ==> *final(self) == *old(self),
    {
        match self {
            Lifecycle::NotStarted => {},
            _ => return Err(ErrorCode::InvalidState),
        }
        let enqueued = enqueue();
        if enqueued.is_ok() {
            *self = Lifecycle::Runnable;
        }
        enqueued
    }

    /// Ends a running thread.
    pub fn exit(&mut self) -> (r: Result<(), ErrorCode>)
        ensures
            lifecycle_step(*old(self), *final(self)),
            *old(self) is Runnable ==> r is Ok && *final(self) is Exited,
            !(*old(self) is Runnable) ==> r == Err::<(), ErrorCode>(ErrorCode::InvalidState)
                && *final(self) == *old(self),
    {
        match self {
            Lifecycle::Runnable => {
                *self = Lifecycle::Exited;
                Ok(())
            },
            _ => Err(ErrorCode::InvalidState),
        }
    }

    /// A running thread polls `poll` through `try_wait`: an event is
    /// returned at once; with none, the thread blocks on the poll.
    pub fn start_polling<F: FnOnce() -> Result<Option<usize>, ErrorCode>>(
        &mut self,
        poll: P,
        try_wait: F,
    ) -> (r: Result<PollStart, ErrorCode>)
        requires
            call_requires(try_wait, ()),
        ensures
            lifecycle_step(*old(self), *final(self)),
            !(*old(self) is Runnable) ==> r == Err::<PollStart, ErrorCode>(ErrorCode::InvalidState)
                && *final(self) == *old(self),
            *old(self) is Runnable ==> exists|w: Result<Option<usize>, ErrorCode>|
                #[trigger] call_ensures(try_wait, (), w) && match w {
                    Err(e) => r == Err::<PollStart, ErrorCode>(e) && *final(self) == *old(self),
                    Ok(Some(value)) => r == Ok::<PollStart, ErrorCode>(PollStart::Done(value))
                        && *final(self) == *old(self),
                    Ok(None) => r == Ok::<PollStart, ErrorCode>(PollStart::Blocked) && *final(self)
                        == Lifecycle::Blocked(poll),
                },
    {
        match self {
            Lifecycle::Runnable => {},
            _ => return Err(ErrorCode::InvalidState),
        }
        let waited = try_wait();
        match waited {
            Err(e) => Err(e),
            Ok(Some(value)) => Ok(PollStart::Done(value)),
            Ok(None) => {
                *self = Lifecycle::Blocked(poll);
                Ok(PollStart::Blocked)
            },
        }
    }

    /// Wakes a blocked thread if its poll has something: `try_wait` gives
    /// the system call's return value (an event or an error code) or none.
    /// Returns the value the thread resumes with, if it does.
    pub fn try_wake<F: FnOnce(&P) -> Option<usize>>(&mut self, try_wait: F) -> (r: Option<usize>)
        requires
            forall|p: &P| #[trigger] call_requires(try_wait, (p,)),
        ensures
            lifecycle_step(*old(self), *final(self)),
            match *old(self) {
                Lifecycle::Blocked(p) => exists|w: Option<usize>|
                    #[trigger] call_ensures(try_wait, (&p,), w) && r == w && match w {
                        Some(_) => *final(self) is Runnable,
                        None => *final(self) == *old(self),
                    },
                _ => r is None && *final(self) == *old(self),
            },
    {
        let woken = match self {
            Lifecycle::Blocked(p) => try_wait(p),
            _ => return None,
        };
        if woken.is_some() {
            *self = Lifecycle::Runnable;
        }
        woken
    }
}

/// The state of a virtual CPU: created blocked, resumed by its owner.
#[derive(Debug, PartialEq, Eq, Structural)]
pub enum VCpuState {
    Runnable,
    Blocked,
    Terminated,
}

impl VCpuState {
    pub fn new() -> (r: Self)
        ensures
            r == VCpuState::Blocked,
    {
        VCpuState::Blocked
    }

    pub fn is_runnable(&self) -> (r: bool)
        ensures
            r == (*self == VCpuState::Runnable),
    {
        match self {
            VCpuState::Runnable => true,
            _ => false,
        }
    }

    /// Resumes a blocked vCPU: `enqueue` puts it on the run queue, and it is
    /// runnable once that succeeded.
    pub fn unblock<F: FnOnce() -> Result<(), ErrorCode>>(&mut self, enqueue: F) -> (r: Result<
        (),
        ErrorCode,
    >)
        requires
            call_requires(enqueue, ()),
        ensures
            *old(self) != VCpuState::Blocked ==> r == Err::<(), ErrorCode>(ErrorCode::InvalidState)
                && *final(self) == *old(self),
            *old(self) == VCpuState::Blocked ==> call_ensures(enqueue, (), r),
            *old(self) == VCpuState::Blocked && r is Ok ==> *final(self) == VCpuState::Runnable,
            *old(self) == VCpuState::Blocked && r is Err ==> *final(self) == VCpuState::Blocked,
    {
        match self {
            VCpuState::Blocked => {},
            _ => return Err(ErrorCode::InvalidState),
        }
        let enqueued = enqueue();
        if enqueued.is_ok() {
            *self = VCpuState::Runnable;
        }
        enqueued
    }
}

/// A step of a thread's life: no step leads back to not started, and an
/// exited thread stays exited.
pub open spec fn lifecycle_step<P>(before: Lifecycle<P>, after: Lifecycle<P>) -> bool {
    &&& after is NotStarted ==> before is NotStarted
    &&& before is Exited ==> after is Exited
}

} // verus!
