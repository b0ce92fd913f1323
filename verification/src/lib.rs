mod deque;
pub mod elf;
pub mod error;
pub mod net;
pub mod uaddr;
pub mod vmspace;
pub mod vmarea;
pub mod vmobject;
pub mod poll;
pub mod process;
pub mod scheduler;
pub mod service;
pub mod sink;
pub mod syscall;
pub mod thread;
pub mod time;
