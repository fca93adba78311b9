//! The rules of a bootable container system, verified.
//!
//! The library decides and computes; it touches neither files nor processes. Where work outside
//! alternates with decisions, a type of the library holds where that work is, says what is to be done
//! next and takes what came of it.
//!
//! - [`mlock`]: whether the executable is locked in memory.
//! - [`mount`]: mounting and unmounting an offline deployment.
//! - [`ukify`], [`cmdline`]: the arguments of a unified kernel image, and its kernel command line.
//! - [`commit`]: cleaning the transient directories of a root.
//! - [`bcvk`], [`tmt`]: the test machines and the test runner.
//! - [`runner`]: running a command and keeping its logs.
//! - [`text`], [`paths`], [`yaml`], [`json`]: what the others are stated over.

pub mod bcvk;
pub mod cmdline;
pub mod commit;
pub mod json;
pub mod mlock;
pub mod mount;
pub mod paths;
pub mod runner;
pub mod text;
pub mod tmt;
pub mod ukify;
pub mod yaml;
