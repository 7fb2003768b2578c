//! The scan of one container: which of its processes is fingerprinted, and
//! where its fact files go.

use crate::container::{bare_id, Container, container_key};
use crate::decimal::{decimal, push_decimal};
use crate::entries::{Entries, ordered_pairs};
use crate::file::{FactFile, render_pairs, write_entries};
use crate::text::push_text;
use crate::process::ContainerProcess;
use vstd::prelude::*;

verus! {

/// The directory for the fact files of the process `pid`, below the
/// directory `out` of the scan: processes that are scanned at the same time
/// do not share a directory.
pub open spec fn output_dir(out: Seq<char>, pid: u32) -> Seq<char> {
    out + "/"@ + decimal(pid as nat)
}

/// What is written down of a container: the name and the namespace of its
/// pod, and its id without the prefix of the runtime.
pub open spec fn container_facts(container: &Container) -> Map<Seq<char>, Seq<char>> {
    Map::empty().insert("pod-name"@, container.pod_name@).insert(
        "pod-namespace"@,
        container.pod_namespace@,
    ).insert("container-id"@, bare_id(container.id@))
}

/// What a scan does for a container.
#[derive(Debug, PartialEq, Eq)]
pub struct ScanPlan {
    /// The process that is fingerprinted.
    pub pid: u32,
    /// The directory where the fingerprints write their fact files.
    pub output_dir: String,
    /// The file that tells which container the facts are of.
    pub container_info: FactFile,
}

/// The directory for the fact files of the process `pid`.
pub fn process_output_dir(out: &str, pid: u32) -> (dir: String)
    ensures
        dir@ == output_dir(out@, pid),
{
    let mut dir = out.to_owned();
    push_text(&mut dir, "/");
    push_decimal(&mut dir, pid);
    dir
}

/// What is written down of a container.
pub fn container_info(container: &Container) -> (out: Entries)
    ensures
        out@ == container_facts(container),
        out.wf(),
{
    let mut out = Entries::new();
    out.insert("pod-name".to_owned(), container.pod_name.clone());
    out.insert("pod-namespace".to_owned(), container.pod_namespace.clone());
    out.insert("container-id".to_owned(), container_key(container.id.as_str()));
    out
}

/// Plans the scan of `container`, whose leaf processes are `leaves`. Only
/// the first leaf is fingerprinted: its facts go to a directory of its own
/// below `out`, beside a file `container-info.txt`. A container without a
/// leaf is not scanned.
pub fn scan_container(out: &String, container: &Container, leaves: &Vec<ContainerProcess>) -> (r:
    Option<ScanPlan>)
    ensures
        match r {
            Some(plan) => {
                &&& leaves@.len() > 0
                &&& plan.pid == leaves@[0].pid
                &&& plan.output_dir@ == output_dir(out@, leaves@[0].pid)
                &&& plan.container_info.name@ == "container-info.txt"@
                &&& plan.container_info.content@ == render_pairs(
                    ordered_pairs(container_facts(container)),
                )
            },
            None => leaves@.len() == 0,
        },
{
    if leaves.len() == 0 {
        return None;
    }
    let pid = leaves[0].pid;
    let info = container_info(container);
    proof {
        info.lemma_pairs_ordered();
        if info.pairs().len() == 0 {
            assert(info@.contains_key("container-id"@));
        }
    }
    match write_entries("container-info.txt", &info) {
        Some(file) => Some(
            ScanPlan { pid, output_dir: process_output_dir(out.as_str(), pid), container_info: file },
        ),
        None => None,
    }
}

} // verus!
