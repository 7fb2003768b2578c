//! The detector of runtimes that tell their version themselves.

use crate::config::{Config, VersionExecutables};
use crate::fingerprint::FingerPrint;
use crate::process::ContainerProcess;
use crate::text::{among, contains_text, occurs_at, text_contains, text_ends_with, texts};
use vstd::prelude::*;

verus! {

/// Detects a runtime that tells its version when run with `--version`.
pub struct VersionExecutable {}

/// The index of the first of `kinds` whose process names hold `name`, or the
/// length of `kinds` when none does. The name has to be the same: a name that
/// only begins with a configured one is no match.
pub open spec fn first_kind(kinds: Seq<VersionExecutables>, name: Seq<char>) -> int
    decreases kinds.len(),
{
    if kinds.len() == 0 || texts(kinds[0].process_names@).contains(name) {
        0
    } else {
        1 + first_kind(kinds.drop_first(), name)
    }
}

/// The first kind that holds the name is the one before which none holds
/// it.
proof fn lemma_first_kind_is(kinds: Seq<VersionExecutables>, name: Seq<char>, i: int)
    requires
        0 <= i <= kinds.len(),
        forall|k: int| 0 <= k < i ==> !texts(kinds[k].process_names@).contains(name),
        i < kinds.len() ==> texts(kinds[i].process_names@).contains(name),
    ensures
        first_kind(kinds, name) == i,
    decreases kinds.len(),
{
    if !(kinds.len() == 0 || texts(kinds[0].process_names@).contains(name)) {
        let rest = kinds.drop_first();
        assert(i > 0);
        assert forall|k: int| 0 <= k < i - 1 implies !texts(rest[k].process_names@).contains(
            name,
        ) by {
            assert(rest[k] == kinds[k + 1]);
        }
        if i - 1 < rest.len() {
            assert(rest[i - 1] == kinds[i]);
        }
        lemma_first_kind_is(rest, name, i - 1);
    }
}

/// The value of `key` in `environ`, or the empty text where it has none.
pub open spec fn variable(environ: Map<Seq<char>, Seq<char>>, key: Seq<char>) -> Seq<char> {
    if environ.contains_key(key) {
        environ[key]
    } else {
        Seq::empty()
    }
}

/// The first text of the command line, or the empty text where the command
/// line is empty.
pub open spec fn launched(process: &ContainerProcess) -> Seq<char> {
    if process.command_line@.len() > 0 {
        process.command_line@[0]@
    } else {
        Seq::empty()
    }
}

/// Whether `process` looks like a runtime that tells its version: its name
/// ends with `node`, or what it was launched as holds `python` or `java`.
pub open spec fn version_executable(process: &ContainerProcess) -> bool {
    ||| "node"@.is_suffix_of(process.name@)
    ||| contains_text(launched(process), "python"@)
    ||| contains_text(launched(process), "java"@)
}

/// Whether `process` looks like a runtime that tells its version.
pub fn is_version_executable(process: &ContainerProcess) -> (r: bool)
    ensures
        r == version_executable(process),
{
    if text_ends_with(process.name.as_str(), "node") {
        return true;
    }
    if process.command_line.len() == 0 {
        proof {
            assert forall|i: int| !occurs_at(Seq::<char>::empty(), "python"@, i) by {
                reveal_strlit("python");
            }
            assert forall|i: int| !occurs_at(Seq::<char>::empty(), "java"@, i) by {
                reveal_strlit("java");
            }
        }
        return false;
    }
    let command = process.command_line[0].as_str();
    text_contains(command, "python") || text_contains(command, "java")
}

impl FingerPrint for VersionExecutable {
    /// Nothing for a process without command line. For a process whose name
    /// is one of the process names of a configured kind, the first such kind
    /// in the configuration: the version is asked of what the process was
    /// launched as. Else, for a process launched as something with `java` in
    /// it, the Java version, to be found from `JAVA_HOME` or `PATH`.
    open spec fn applies(
        &self,
        config: &Config,
        out_dir: Seq<char>,
        process: &ContainerProcess,
        jars: Seq<Option<Seq<u8>>>,
    ) -> Option<Seq<Seq<char>>> {
        let kinds = config.fingerprints.versioned_executables@;
        let at = first_kind(kinds, process.name@);
        if process.command_line@.len() == 0 {
            None
        } else if 0 <= at < kinds.len() {
            Some(
                seq![
                    "./fpr_kind_executable"@,
                    launched(process),
                    kinds[at].runtime_kind_name@,
                    out_dir,
                ],
            )
        } else if contains_text(launched(process), "java"@) {
            Some(
                seq![
                    "./fpr_java_version"@,
                    out_dir,
                    variable(process.environ@, "PATH"@),
                    variable(process.environ@, "JAVA_HOME"@),
                ],
            )
        } else {
            None
        }
    }

    fn can_apply_to(
        &self,
        config: &Config,
        out_dir: &String,
        process: &ContainerProcess,
        jars: &Vec<Option<Vec<u8>>>,
    ) -> (r: Option<Vec<String>>) {
        if process.command_line.len() == 0 {
            return None;
        }
        let kinds = &config.fingerprints.versioned_executables;
        let mut i: usize = 0;
        while i < kinds.len()
            invariant
                i <= kinds@.len(),
                process.command_line@.len() > 0,
                kinds@ == config.fingerprints.versioned_executables@,
                forall|k: int|
                    0 <= k < i ==> !texts(kinds@[k].process_names@).contains(process.name@),
            decreases kinds.len() - i,
        {
            if among(process.name.as_str(), &kinds[i].process_names) {
                proof {
                    lemma_first_kind_is(kinds@, process.name@, i as int);
                }
                let mut command: Vec<String> = Vec::new();
                command.push("./fpr_kind_executable".to_owned());
                command.push(process.command_line[0].clone());
                command.push(kinds[i].runtime_kind_name.clone());
                command.push(out_dir.clone());
                assert(texts(command@) =~= seq![
                    "./fpr_kind_executable"@,
                    launched(process),
                    kinds@[i as int].runtime_kind_name@,
                    out_dir@,
                ]);
                return Some(command);
            }
            i += 1;
        }
        proof {
            lemma_first_kind_is(kinds@, process.name@, i as int);
        }
        if text_contains(process.command_line[0].as_str(), "java") {
            let path = match process.environ.get("PATH") {
                Some(value) => value.clone(),
                None => String::new(),
            };
            let home = match process.environ.get("JAVA_HOME") {
                Some(value) => value.clone(),
                None => String::new(),
            };
            let mut command: Vec<String> = Vec::new();
            command.push("./fpr_java_version".to_owned());
            command.push(out_dir.clone());
            command.push(path);
            command.push(home);
            assert(texts(command@) =~= seq![
                "./fpr_java_version"@,
                out_dir@,
                variable(process.environ@, "PATH"@),
                variable(process.environ@, "JAVA_HOME"@),
            ]);
            return Some(command);
        }
        None
    }
}

/// A kind is found for a process only where the name of the process is one
/// of the process names of the kind, whole: a name that only begins with one
/// of them, or with which one of them begins, finds nothing.
pub proof fn lemma_kind_holds_name(kinds: Seq<VersionExecutables>, name: Seq<char>)
    ensures
        0 <= first_kind(kinds, name) <= kinds.len(),
        first_kind(kinds, name) < kinds.len() ==> texts(
            kinds[first_kind(kinds, name)].process_names@,
        ).contains(name),
        forall|k: int|
            0 <= k < first_kind(kinds, name) ==> !texts(
                (#[trigger] kinds[k]).process_names@,
            ).contains(name),
    decreases kinds.len(),
{
    if !(kinds.len() == 0 || texts(kinds[0].process_names@).contains(name)) {
        let rest = kinds.drop_first();
        lemma_kind_holds_name(rest, name);
        let at = first_kind(rest, name);
        if at < rest.len() {
            assert(rest[at] == kinds[at + 1]);
        }
        assert forall|k: int| 0 <= k < first_kind(kinds, name) implies !texts(
            (#[trigger] kinds[k]).process_names@,
        ).contains(name) by {
            if k > 0 {
                assert(rest[k - 1] == kinds[k]);
            }
        }
    }
}

} // verus!
