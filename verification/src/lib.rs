//! A small directory-listing library: it renders permission strings, models a
//! directory subtree as plain data, aggregates recursive sizes, builds one
//! display entry per child, and orders the result deterministically.
//!
//! All filesystem reads, argument parsing and colored output live outside the
//! library; callers hand in plain values (names, mode bits, byte lengths, a
//! subtree snapshot) and receive plain entries back.

pub mod order;
pub mod permissions;
pub mod pls;
pub mod sort;
pub mod sums;
