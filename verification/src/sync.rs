pub mod condvar;
