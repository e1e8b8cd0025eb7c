//! Verified core of a small teaching file system (its allocation bitmaps and
//! directory entries) and of a teaching kernel's system calls (memory
//! mapping checks and the bookkeeping of mutexes, semaphores and condition
//! variables used for deadlock detection).
pub mod bitmap;
pub mod block_dev;
pub mod dir;
pub mod process;
pub mod sync;

pub use bitmap::{Bitmap, BLOCK_SZ};
pub use block_dev::BlockDevice;
pub use dir::{DirEntry, Directory};
pub use process::TimeVal;
