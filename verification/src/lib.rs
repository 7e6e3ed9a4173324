//! A sans-I/O core for building and applying a Landlock filesystem sandbox.
//!
//! The crate decides which kernel calls are due and what their replies mean;
//! the caller performs the calls and hands each reply back. It also reads
//! the text form of a sandbox profile.

pub mod access;
pub mod finalization;
pub mod layout;
pub mod profile;
pub mod ruleset;
pub mod syscall;
