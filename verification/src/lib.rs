//! Allocation-free access to the arguments a process was started with.
//!
//! A capture is either an array of argument entries bounded by a count
//! ([`unix`]), or a single raw UTF-16 command line that is split into argument
//! views on demand ([`win32`]). Either way the arguments are handed out as
//! views into the capture, front to back, and a walk can be started over at
//! any time.

pub mod unix;
pub mod win32;

pub use unix::{static_args, StaticArgs};
pub use win32::{static_args_windows, ArgsWindows, StaticArgsWindows};
