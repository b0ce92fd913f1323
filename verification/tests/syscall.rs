use ftl_kernel::syscall::syscall_retval;
use ftl_kernel::syscall::syscall_return;
use ftl_kernel::syscall::SyscallOutput;

#[test]
fn syscall_retval_by_outcome() {
    assert_eq!(syscall_retval(Ok(SyscallOutput::Done(7))), Some(7));
    assert_eq!(syscall_retval(Ok(SyscallOutput::Blocked)), None);
    assert_eq!(syscall_retval(Ok(SyscallOutput::Exited)), None);
    assert_eq!(syscall_retval(Err(usize::MAX - 3)), Some(usize::MAX - 3));
}

#[test]
fn syscall_return_negates_errors() {
    assert_eq!(syscall_return(Ok(42)), 42);
    assert_eq!(syscall_return(Err(5)), -5);
    assert_eq!(syscall_return(Err(isize::MAX)), -isize::MAX);
}
