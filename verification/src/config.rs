//! The configuration of the fingerprints.

use vstd::prelude::*;

verus! {

/// The whole configuration.
#[derive(Debug)]
pub struct Config {
    pub fingerprints: Fingerprints,
}

/// What the detectors are configured with.
#[derive(Debug)]
pub struct Fingerprints {
    /// The runtimes that tell their version when run with `--version`.
    pub versioned_executables: Vec<VersionExecutables>,
    /// The Java applications that are known by their main class.
    pub java: Vec<JavaFingerprint>,
}

/// A runtime kind, with the process names under which it runs.
#[derive(Debug)]
pub struct VersionExecutables {
    pub process_names: Vec<String>,
    pub runtime_kind_name: String,
}

/// A Java application that is known by its main class.
#[derive(Debug)]
pub struct JavaFingerprint {
    /// The name under which the application is reported.
    pub runtime_name: String,
    /// The class that the application is started with.
    pub main_class: String,
    /// A part of the name of the jar that holds the application, where it is
    /// known.
    pub main_jar: Option<String>,
    /// Whether the version stands in the manifest of the jar that is run,
    /// and not in that of the jar that holds the main class.
    pub read_manifest_of_executable_jar: bool,
    /// The manifest attribute that holds the version.
    pub jar_version_manifest_entry: String,
}

} // verus!
