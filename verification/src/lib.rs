//! Which runtimes do the processes of a container run?
//!
//! This library holds the decisions of a scanner that answers the question
//! from outside the container, at one moment, without an agent in it: which
//! process of a container is looked at, by which steps a disposable child takes
//! the place of that process, which fingerprint executables are run for it, what
//! those write down, and what the scanner gathers from it in the end.
//!
//! The library reads no file, forks no process and joins no namespace. Its
//! caller does that, hands over what it read and is told what to do next.
//!
//! - [`container`]: the containers that the container runtime lists
//! - [`process`]: the leaf processes below the root process of a container
//! - [`sandbox`] and [`perms`]: the steps of the child, and the capabilities
//!   before and after them
//! - [`fingerprint`]: the detectors and the order in which they are asked
//! - [`file`], [`jar`], [`java_manifest`] and [`facts`]: fact files, Java
//!   archives and what the fingerprint executables make of them
//! - [`runtime_info`], [`scan`] and [`report`]: the scan of a container, its
//!   result, and the record of all results
//! - [`text`], [`order`], [`decimal`] and [`entries`]: what the others are
//!   built on

pub mod config;
pub mod container;
pub mod decimal;
pub mod entries;
pub mod facts;
pub mod file;
pub mod fingerprint;
pub mod jar;
pub mod java_manifest;
pub mod order;
pub mod perms;
pub mod process;
pub mod report;
pub mod runtime_info;
pub mod sandbox;
pub mod scan;
pub mod text;

pub use crate::container::get_container;
pub use crate::container::get_containers;
pub use crate::runtime_info::RuntimeInfo;
pub use crate::scan::scan_container;

use vstd::prelude::*;

verus! {

/// Why a scan could not go on.
#[derive(Debug, PartialEq, Eq)]
pub enum ScannerError {
    /// The capabilities are not what they have to be: the message says how.
    Caps(String),
    /// A call of the operating system failed with this error number.
    Errno(i32),
    /// Any other failure.
    String,
}

} // verus!
