//! What threads wait on: mutexes, semaphores and condition variables, and
//! the count of nested sections in which interrupts are masked.
pub mod condvar;
pub mod mutex;
pub mod semaphore;
pub mod up;
