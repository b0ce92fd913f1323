//! Making room in a `VecDeque` without aborting when memory runs out.
use std::collections::TryReserveError;
use std::collections::VecDeque;

use vstd::prelude::*;

verus! {

/// `VecDeque::try_reserve`: asks the allocator for room for `additional`
/// more items. Whether it succeeds depends on the allocator; the items in
/// the queue stay as they were either way.
#[verifier::external_body]
pub(crate) fn deque_try_reserve<T>(queue: &mut VecDeque<T>, additional: usize) -> (r: Result<
    (),
    TryReserveError,
>)
    ensures
        final(queue)@ == old(queue)@,
{
    queue.try_reserve(additional)
}

/// `VecDeque::capacity`: how many items the queue can hold without asking
/// the allocator for more room, which is at least as many as it holds. How
/// much more depends on the allocator.
#[verifier::external_body]
pub(crate) fn deque_capacity<T>(queue: &VecDeque<T>) -> (r: usize)
    ensures
        r >= queue@.len(),
{
    queue.capacity()
}

} // verus!
