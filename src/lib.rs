//! A non-blocking view of a process's input stream.
//!
//! The library holds the decisions of the bridge between a blocking input
//! source and its consumer: the background reader's state machine, which turns
//! the bytes of each blocking read into the units that it pushes to the
//! consumer (module `reader`), and the fallback policy that decides what a
//! bounded or a blocking read hands back (module `policy`). Module `text`
//! decodes line units as UTF-8. The host performs
//! the reads, owns the channel and the worker thread, and feeds these
//! functions what happened. Module `laws` states and proves how the two fit
//! together.
pub mod policy;
pub mod reader;
pub mod laws;
pub mod text;
