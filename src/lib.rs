//! Bridge between interrupt-driven hardware events and a cooperative task
//! scheduler: a time source that multiplexes a fixed set of comparator
//! channels, and a per-pin interrupt-to-wake table for GPIO waits.
//!
//! Every operation takes its shared state by `&mut`, so exclusion between
//! task context and interrupt context is the caller's to provide (on a single
//! core, by masking interrupts while the call runs). Register access is the
//! caller's too: the operations return what has to be written or woken.

pub mod gpio;
pub mod time_driver;
