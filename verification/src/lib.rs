//! GEMINUS compares two folders, copies and moves between them, and asks the
//! disks underneath how they are.
//!
//! The rules live here: what counts as a difference, what a copy does next, what
//! a health report means. Whoever runs them reads the disk, writes to it and
//! talks to the window, and hands over plain values.
pub mod diagnosis;
pub mod diff;
pub mod error;
pub mod ops;
pub mod sort;
pub mod sys;
pub mod text;

pub use error::{system_text, CmdError};
