//! What a system call hands back to user space.
use vstd::prelude::*;

verus! {

/// How a system call handler finished.
#[derive(Debug, PartialEq, Eq, Structural)]
pub enum SyscallOutput {
    /// Done, with this return value.
    Done(usize),
    /// The thread blocked; it gets its return value when it resumes.
    Blocked,
    /// The thread exited.
    Exited,
}

/// The return value to store for the calling thread, given how the handler
/// finished or the code of the error it failed with; none when the thread
/// blocked or exited. A return value must not look like an error code (it
/// fits in an `isize`).
pub fn syscall_retval(result: Result<SyscallOutput, usize>) -> (r: Option<usize>)
    requires
        result matches Ok(SyscallOutput::Done(value)) ==> value <= isize::MAX,
    ensures
        r == match result {
            Ok(SyscallOutput::Done(value)) => Some(value),
            Ok(_) => None,
            Err(code) => Some(code),
        },
{
    match result {
        Ok(SyscallOutput::Done(value)) => Some(value),
        Ok(SyscallOutput::Blocked) => None,
        Ok(SyscallOutput::Exited) => None,
        Err(code) => Some(code),
    }
}

/// The value a system call returns in its register: the result, or the
/// negated number of the error.
pub fn syscall_return(result: Result<isize, isize>) -> (r: isize)
    requires
        result matches Err(errno) ==> errno > isize::MIN,
    ensures
        r == match result {
            Ok(value) => value as int,
            Err(errno) => -errno,
        },
{
    match result {
        Ok(value) => value,
        Err(errno) => -errno,
    }
}

} // verus!
