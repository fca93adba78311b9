//! Explicit, caller-owned mounts of an offline deployment.
//!
//! The mount namespace belongs to the caller, and the mounts remain after the process
//! exits. A record on disk says which mounts were made; only what it names is ever
//! unmounted.

pub mod assembly;
pub mod record;
pub mod target;
pub mod teardown;
pub mod topology;
