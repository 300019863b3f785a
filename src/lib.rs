//! Inspection of a process's control-group placement and of the attribute
//! files that each controller exposes for it.
//!
//! The placement comes from the contents of `/proc/<pid>/cgroup`; a
//! controller's view joins it with the mount root of the cgroup filesystem and
//! with a listing of the controller's directory. Reading files is left to the
//! caller, which hands the library what it read.
pub mod bytemap;
pub mod bytes;
pub mod cgroup;
pub mod placement;

pub use crate::cgroup::{CGroup, Controller, DirEntry};
