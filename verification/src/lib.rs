//! Sizes of the files under a path.
//!
//! The crate holds the rules of a file-size report and leaves every access to
//! the file system, the clock and the terminal to its caller:
//!
//! * [`unit`] resolves the unit in which sizes are shown;
//! * [`record`] defines the records of a report and their totals;
//! * [`walk`] decides, one answer of the file system at a time, what to look
//!   at next and what to record;
//! * [`tree`] models a directory tree and proves that a walk over it asks
//!   what it should and ends as it should;
//! * [`contents`] proves what the outcome holds: which files, how many, how
//!   many bytes, whatever the order of the listings.

pub mod contents;
pub mod record;
pub mod tree;
pub mod unit;
pub mod walk;
