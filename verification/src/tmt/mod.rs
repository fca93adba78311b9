//! The tmt test runner.

pub mod commands;
pub mod disk;
pub mod generated;
pub mod integration;
pub mod libvirt;
pub mod metadata;
pub mod names;
pub mod plans;
pub mod provision;
pub mod ready;
pub mod run;
