//! The detector of the operating system.

use crate::config::Config;
use crate::fingerprint::FingerPrint;
use crate::process::ContainerProcess;
use crate::text::texts;
use vstd::prelude::*;

verus! {

/// Detects the operating system: it applies to every process.
pub struct Os {}

impl FingerPrint for Os {
    open spec fn applies(
        &self,
        config: &Config,
        out_dir: Seq<char>,
        process: &ContainerProcess,
        jars: Seq<Option<Seq<u8>>>,
    ) -> Option<Seq<Seq<char>>> {
        Some(seq!["./fpr_os"@, out_dir])
    }

    fn can_apply_to(
        &self,
        config: &Config,
        out_dir: &String,
        process: &ContainerProcess,
        jars: &Vec<Option<Vec<u8>>>,
    ) -> (r: Option<Vec<String>>) {
        let mut command: Vec<String> = Vec::new();
        command.push("./fpr_os".to_owned());
        command.push(out_dir.clone());
        assert(texts(command@) =~= seq!["./fpr_os"@, out_dir@]);
        Some(command)
    }
}

} // verus!
