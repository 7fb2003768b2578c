//! The detector of native executables.

use crate::config::Config;
use crate::fingerprint::version_executable::{is_version_executable, launched, version_executable};
use crate::fingerprint::FingerPrint;
use crate::process::ContainerProcess;
use crate::text::texts;
use vstd::prelude::*;

verus! {

/// Detects a native executable: what does not look like a runtime that tells
/// its version.
pub struct NativeExecutable {}

impl FingerPrint for NativeExecutable {
    /// Nothing for a process that looks like a runtime that tells its
    /// version, nor for one whose working directory or command line is not
    /// known. For any other, the probe of native executables, with the
    /// working directory and what the process was launched as.
    open spec fn applies(
        &self,
        config: &Config,
        out_dir: Seq<char>,
        process: &ContainerProcess,
        jars: Seq<Option<Seq<u8>>>,
    ) -> Option<Seq<Seq<char>>> {
        if version_executable(process) || process.command_line@.len() == 0 {
            None
        } else {
            match process.cwd {
                Some(cwd) => Some(
                    seq!["./fpr_native_executable"@, out_dir, cwd@, launched(process)],
                ),
                None => None,
            }
        }
    }

    fn can_apply_to(
        &self,
        config: &Config,
        out_dir: &String,
        process: &ContainerProcess,
        jars: &Vec<Option<Vec<u8>>>,
    ) -> (r: Option<Vec<String>>) {
        if is_version_executable(process) || process.command_line.len() == 0 {
            return None;
        }
        match &process.cwd {
            Some(cwd) => {
                let mut command: Vec<String> = Vec::new();
                command.push("./fpr_native_executable".to_owned());
                command.push(out_dir.clone());
                command.push(cwd.clone());
                command.push(process.command_line[0].clone());
                assert(texts(command@) =~= seq![
                    "./fpr_native_executable"@,
                    out_dir@,
                    cwd@,
                    launched(process),
                ]);
                Some(command)
            },
            None => None,
        }
    }
}

} // verus!
