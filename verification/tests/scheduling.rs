use ftl_kernel::error::ErrorCode;
use ftl_kernel::poll::Poll;
use ftl_kernel::poll::WaitOutcome;
use ftl_kernel::scheduler::Scheduler;
use ftl_kernel::sink::Sink;
use ftl_kernel::thread::run_continuation;
use ftl_kernel::thread::ContinuationResult;
use ftl_kernel::thread::ThreadState;
use ftl_kernel::thread::wait_result;
use ftl_kernel::thread::switch_to_next;
use ftl_kernel::thread::WaitEnd;
use ftl_kernel::thread::WaitResult;
use ftl_kernel::scheduler::pick_next;
use ftl_kernel::scheduler::room_to_reserve;
use ftl_kernel::thread::check_copy_regs;
use ftl_kernel::time::Timer;

#[test]
fn scheduler_runs_threads_in_order() {
    let mut s: Scheduler<&str> = Scheduler::new();
    assert_eq!(s.reserve_capacity(), Ok(()));
    assert_eq!(s.reserve_capacity(), Ok(()));
    s.push_back("a");
    s.push_back("b");
    assert_eq!(s.pop(), Some("a"));
    assert_eq!(s.pop(), Some("b"));
    assert_eq!(s.pop(), None);
    s.release_capacity();
    s.push_back("c");
    assert_eq!(s.pop(), Some("c"));
}

#[test]
fn continuation_of_a_runnable_thread_returns_nothing() {
    let mut state: ThreadState<u32> = ThreadState::Runnable;
    assert!(state.is_runnable());
    let r = run_continuation(&mut state, |_: &u32| WaitEnd::Value(1));
    assert_eq!(r, ContinuationResult::ReturnToUser(None));
}

#[test]
fn continuation_of_a_blocked_thread_waits_then_returns() {
    let mut state = ThreadState::Blocked(5u32);
    assert!(!state.is_runnable());
    let r = run_continuation(&mut state, |_: &u32| WaitEnd::WouldBlock);
    assert_eq!(r, ContinuationResult::StillBlocked);
    assert!(matches!(state, ThreadState::Blocked(5)));
    let r = run_continuation(&mut state, |c: &u32| WaitEnd::Value(*c as isize * 10));
    assert_eq!(r, ContinuationResult::ReturnToUser(Some(50)));
    assert!(state.is_runnable());
    let mut failed = ThreadState::Blocked(0u32);
    let r = run_continuation(&mut failed, |_: &u32| WaitEnd::Failed(3));
    assert_eq!(r, ContinuationResult::ReturnToUser(Some(-3)));
    assert!(failed.is_runnable());
}

#[test]
fn a_failed_wait_returns_the_negated_error_number() {
    assert!(matches!(wait_result(WaitEnd::WouldBlock), WaitResult::WouldBlock));
    assert!(matches!(wait_result(WaitEnd::Value(7)), WaitResult::Done(7)));
    assert!(matches!(wait_result(WaitEnd::Value(0)), WaitResult::Done(0)));
    assert!(matches!(wait_result(WaitEnd::Failed(12)), WaitResult::Done(-12)));
    assert!(matches!(wait_result(WaitEnd::Failed(u16::MAX)), WaitResult::Done(-65535)));
}

fn scheduler_with(threads: &[u32], room: usize) -> Scheduler<u32> {
    let mut s: Scheduler<u32> = Scheduler::new();
    for _ in 0..room {
        s.reserve_capacity().unwrap();
    }
    for t in threads {
        s.push_back(*t);
    }
    s
}

#[test]
fn pick_next_requeues_a_runnable_current_thread() {
    let mut s = scheduler_with(&[1, 2], 3);
    // Thread 1 is blocked and leaves the queue; thread 2 runs.
    assert_eq!(pick_next(&mut s, Some(9), true, |t: &u32| *t != 1), Some(2));
    assert_eq!(s.len(), 1);
    assert_eq!(pick_next(&mut s, None, false, |_: &u32| true), Some(9));
    assert_eq!(s.len(), 0);
}

#[test]
fn pick_next_drops_a_blocked_current_thread_and_idles_on_empty() {
    let mut s = scheduler_with(&[4], 2);
    assert_eq!(pick_next(&mut s, Some(9), false, |t: &u32| *t == 9), None);
    assert_eq!(s.len(), 0);
    assert_eq!(pick_next(&mut s, None, false, |_: &u32| true), None);
}

#[test]
fn switch_to_next_skips_still_blocked_threads() {
    let mut s = scheduler_with(&[1, 2, 3], 4);
    let run = |t: &u32| {
        if *t == 2 {
            ContinuationResult::StillBlocked
        } else {
            ContinuationResult::ReturnToUser(Some(*t as isize))
        }
    };
    // The current thread (5) is runnable and not idle: it goes to the back.
    assert_eq!(switch_to_next(&mut s, 5, true, false, run), Some((1, Some(1))));
    assert_eq!(switch_to_next(&mut s, 1, false, false, run), Some((3, Some(3))));
    assert_eq!(s.len(), 1);
    // The idle thread never goes back to the queue.
    assert_eq!(switch_to_next(&mut s, 0, true, true, run), Some((5, Some(5))));
    assert_eq!(switch_to_next(&mut s, 5, false, false, run), None);
}

#[test]
fn timer_fires_reached_deadlines_in_order() {
    let mut t: Timer<&str> = Timer::new();
    t.add(30, "c").unwrap();
    t.add(10, "a").unwrap();
    t.add(20, "b").unwrap();
    t.add(40, "d").unwrap();
    assert_eq!(t.tick(5), Vec::<&str>::new());
    assert_eq!(t.tick(20), vec!["a", "b"]);
    assert_eq!(t.tick(20), Vec::<&str>::new());
    assert_eq!(t.tick(100), vec!["c", "d"]);
    assert_eq!(t.tick(100), Vec::<&str>::new());
}

#[test]
fn poll_delivers_events_in_order_and_wakes_waiters() {
    let mut p: Poll<&str> = Poll::new();
    let mut timer: Timer<u64> = Timer::new();
    assert!(matches!(p.try_wait(7, None, 0, &mut timer, 7), Ok(WaitOutcome::MustWait)));
    assert!(matches!(p.try_wait(8, None, 0, &mut timer, 8), Ok(WaitOutcome::MustWait)));
    assert_eq!(timer.tick(u64::MAX), Vec::<u64>::new());
    assert_eq!(p.enqueue("e1", &mut timer, same_thread), Ok(Some(7)));
    assert_eq!(p.enqueue("e2", &mut timer, same_thread), Ok(Some(8)));
    assert_eq!(p.enqueue("e3", &mut timer, same_thread), Ok(None));
    assert!(matches!(p.try_wait(1, None, 0, &mut timer, 1), Ok(WaitOutcome::Event("e1"))));
    assert!(matches!(p.try_wait(1, Some(0), 99, &mut timer, 1), Ok(WaitOutcome::Event("e2"))));
    assert!(matches!(p.try_wait(1, None, 0, &mut timer, 1), Ok(WaitOutcome::Event("e3"))));
    assert_eq!(timer.tick(u64::MAX), Vec::<u64>::new());
    assert!(matches!(p.try_wait(4, Some(50), 49, &mut timer, 4), Ok(WaitOutcome::MustWait)));
    assert!(matches!(p.try_wait(5, Some(50), 50, &mut timer, 5), Ok(WaitOutcome::TimedOut)));
    // Only the thread that waits got a timeout, at its deadline.
    assert_eq!(timer.tick(49), Vec::<u64>::new());
    assert_eq!(timer.tick(50), vec![4]);
    // The timed-out thread 4 still waits, first.
    assert!(matches!(p.try_wait(6, Some(80), 60, &mut timer, 6), Ok(WaitOutcome::MustWait)));
    assert!(matches!(p.try_wait(7, Some(90), 60, &mut timer, 7), Ok(WaitOutcome::MustWait)));
    assert_eq!(p.enqueue("e4", &mut timer, same_thread), Ok(Some(4)));
    // Waking thread 6 takes its timeout out of the timer; thread 7's stays.
    assert_eq!(p.enqueue("e5", &mut timer, same_thread), Ok(Some(6)));
    assert_eq!(timer.tick(100), vec![7]);
    assert_eq!(p.enqueue("e6", &mut timer, same_thread), Ok(Some(7)));
    assert_eq!(p.enqueue("e7", &mut timer, same_thread), Ok(None));
}

fn same_thread(emitter: &u64, thread: u64) -> bool {
    *emitter == thread
}

#[test]
fn poll_cancel_removes_the_waiter() {
    let mut p: Poll<u8> = Poll::new();
    let mut timer: Timer<u64> = Timer::new();
    for w in [1, 2, 1, 3] {
        assert!(matches!(p.try_wait(w, None, 0, &mut timer, w), Ok(WaitOutcome::MustWait)));
    }
    p.cancel(1);
    assert_eq!(p.enqueue(0, &mut timer, same_thread), Ok(Some(2)));
    assert_eq!(p.enqueue(0, &mut timer, same_thread), Ok(Some(3)));
    assert_eq!(p.enqueue(0, &mut timer, same_thread), Ok(None));
    let _: Result<Option<u64>, ErrorCode> = p.enqueue(1, &mut timer, same_thread);
}

#[test]
fn sink_queues_each_handle_once() {
    let mut s: Sink<&str> = Sink::new();
    s.add(3);
    s.add_waiter("t");
    assert_eq!(s.enqueue(3), None);
    assert_eq!(s.enqueue(5), Some("t"));
    assert_eq!(s.enqueue(5), None);
    assert_eq!(s.pop_ready(), Some(3));
    assert_eq!(s.pop_ready(), Some(5));
    assert_eq!(s.pop_ready(), None);
    // Once taken out, an id can be marked ready again.
    assert_eq!(s.enqueue(3), None);
    assert_eq!(s.pop_ready(), Some(3));
}

use ftl_kernel::thread::Lifecycle;
use ftl_kernel::thread::PollStart;

#[test]
fn lifecycle_start_poll_wake_exit() {
    let mut t: Lifecycle<&str> = Lifecycle::new();
    assert!(t.check_not_started().is_ok());
    assert_eq!(t.exit(), Err(ErrorCode::InvalidState));
    assert_eq!(t.start_polling("p", || Ok(None)), Err(ErrorCode::InvalidState));
    assert_eq!(t.start(|| Err(ErrorCode::OutOfMemory)), Err(ErrorCode::OutOfMemory));
    assert!(matches!(t, Lifecycle::NotStarted));
    assert_eq!(t.start(|| Ok(())), Ok(()));
    assert!(t.is_runnable());
    assert_eq!(t.start(|| Ok(())), Err(ErrorCode::InvalidState));
    assert_eq!(t.check_not_started(), Err(ErrorCode::InvalidState));
    assert_eq!(t.start_polling("p", || Ok(Some(42))), Ok(PollStart::Done(42)));
    assert!(t.is_runnable());
    assert_eq!(t.start_polling("p", || Err(ErrorCode::OutOfMemory)), Err(ErrorCode::OutOfMemory));
    assert_eq!(t.start_polling("p", || Ok(None)), Ok(PollStart::Blocked));
    assert!(matches!(t, Lifecycle::Blocked("p")));
    assert_eq!(t.try_wake(|_| None), None);
    assert!(!t.is_runnable());
    assert_eq!(t.try_wake(|p| Some(p.len())), Some(1));
    assert!(t.is_runnable());
    assert_eq!(t.try_wake(|_| Some(5)), None);
    assert_eq!(t.exit(), Ok(()));
    assert!(matches!(t, Lifecycle::Exited));
    assert_eq!(t.exit(), Err(ErrorCode::InvalidState));
}

use ftl_kernel::thread::VCpuState;

#[test]
fn vcpu_unblock_only_when_blocked() {
    let mut v = VCpuState::new();
    assert!(!v.is_runnable());
    assert_eq!(v.unblock(|| Err(ErrorCode::OutOfMemory)), Err(ErrorCode::OutOfMemory));
    assert_eq!(v, VCpuState::Blocked);
    assert_eq!(v.unblock(|| Ok(())), Ok(()));
    assert!(v.is_runnable());
    assert_eq!(v.unblock(|| Ok(())), Err(ErrorCode::InvalidState));
    let mut t = VCpuState::Terminated;
    assert_eq!(t.unblock(|| Ok(())), Err(ErrorCode::InvalidState));
}

#[test]
fn timer_cancel_removes_the_threads_timeouts() {
    let mut t: Timer<(u64, &str)> = Timer::new();
    t.add(10, (1, "p")).unwrap();
    t.add(20, (2, "p")).unwrap();
    t.add(30, (1, "q")).unwrap();
    t.cancel(|e| e.0 == 1);
    assert_eq!(t.tick(100), vec![(2, "p")]);
}

#[test]
fn room_to_reserve_covers_every_thread() {
    assert_eq!(room_to_reserve(4, 1, 4), None);
    assert_eq!(room_to_reserve(4, 1, 5), Some(4));
    assert_eq!(room_to_reserve(0, 0, 1), Some(1));
}

#[test]
fn registers_are_copied_only_from_the_current_thread_to_another() {
    assert_eq!(check_copy_regs(1, 1, 1), Err(ErrorCode::InvalidArg));
    assert_eq!(check_copy_regs(1, 2, 3), Err(ErrorCode::Unsupported));
    assert_eq!(check_copy_regs(3, 2, 3), Ok(()));
}
