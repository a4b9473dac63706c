//! Host-reachability sweep library.
//!
//! Given a set of targets — an inclusive IPv4 address range, the lines of a
//! file, or the lines piped in on standard input — a sweep probes each target
//! for reachability and reports the subset that answered.
//!
//! The library holds the logic of the sweep: enumerating targets from each
//! input mode, building the probe command, interpreting each probe's textual
//! verdict, and aggregating per-target outcomes into the final report. The
//! surrounding binary does the I/O: it parses arguments, reads files and
//! standard input, and runs the probe processes, handing every result back to
//! the library as plain values.

pub mod addr;
pub mod errors;
pub mod input;
pub mod probe;
pub mod range;
pub mod sweep;
