//! The detectors: each looks at a process and either names the executable
//! that will fingerprint it, with its arguments, or declines.

pub mod java;
pub mod native_executable;
pub mod os;
pub mod version_executable;

use crate::config::Config;
use crate::fingerprint::java::Java;
use crate::fingerprint::native_executable::NativeExecutable;
use crate::fingerprint::os::Os;
use crate::fingerprint::version_executable::VersionExecutable;
use crate::jar::archives_view;
use crate::process::ContainerProcess;
use crate::text::texts;
use vstd::prelude::*;

verus! {

/// What a detector answers, as texts: the executable and its arguments, or
/// nothing where the detector declines.
pub open spec fn command_view(r: Option<Vec<String>>) -> Option<Seq<Seq<char>>> {
    match r {
        Some(command) => Some(texts(command@)),
        None => None,
    }
}

/// A detector.
pub trait FingerPrint {
    /// What the detector answers for `process`, given the content of the
    /// jars of its class path.
    spec fn applies(
        &self,
        config: &Config,
        out_dir: Seq<char>,
        process: &ContainerProcess,
        jars: Seq<Option<Seq<u8>>>,
    ) -> Option<Seq<Seq<char>>>;

    /// Decides whether the detector applies to `process`. Where it does, the
    /// answer is the executable to run and its arguments. The detector runs
    /// nothing and reads nothing itself: `jars` holds the content of the jars
    /// that `Java::jars_to_inspect` named, each in its place, and nothing for a
    /// jar that could not be read.
    fn can_apply_to(
        &self,
        config: &Config,
        out_dir: &String,
        process: &ContainerProcess,
        jars: &Vec<Option<Vec<u8>>>,
    ) -> (r: Option<Vec<String>>)
        ensures
            command_view(r) == self.applies(config, out_dir@, process, archives_view(jars@)),
    ;
}

/// One of the detectors that the dispatcher knows.
pub enum Detector {
    Os(Os),
    VersionExecutable(VersionExecutable),
    Java(Java),
    NativeExecutable(NativeExecutable),
}

impl FingerPrint for Detector {
    open spec fn applies(
        &self,
        config: &Config,
        out_dir: Seq<char>,
        process: &ContainerProcess,
        jars: Seq<Option<Seq<u8>>>,
    ) -> Option<Seq<Seq<char>>> {
        match self {
            Detector::Os(d) => d.applies(config, out_dir, process, jars),
            Detector::VersionExecutable(d) => d.applies(config, out_dir, process, jars),
            Detector::Java(d) => d.applies(config, out_dir, process, jars),
            Detector::NativeExecutable(d) => d.applies(config, out_dir, process, jars),
        }
    }

    fn can_apply_to(
        &self,
        config: &Config,
        out_dir: &String,
        process: &ContainerProcess,
        jars: &Vec<Option<Vec<u8>>>,
    ) -> (r: Option<Vec<String>>) {
        match self {
            Detector::Os(d) => d.can_apply_to(config, out_dir, process, jars),
            Detector::VersionExecutable(d) => d.can_apply_to(config, out_dir, process, jars),
            Detector::Java(d) => d.can_apply_to(config, out_dir, process, jars),
            Detector::NativeExecutable(d) => d.can_apply_to(config, out_dir, process, jars),
        }
    }
}

/// The detectors in the order in which they are asked.
pub open spec fn detectors() -> Seq<Detector> {
    seq![
        Detector::Os(Os {  }),
        Detector::VersionExecutable(VersionExecutable {  }),
        Detector::Java(Java {  }),
        Detector::NativeExecutable(NativeExecutable {  }),
    ]
}

/// The detectors in the order in which they are asked.
pub fn fingerprints() -> (out: Vec<Detector>)
    ensures
        out@ == detectors(),
{
    let mut out: Vec<Detector> = Vec::new();
    out.push(Detector::Os(Os {  }));
    out.push(Detector::VersionExecutable(VersionExecutable {  }));
    out.push(Detector::Java(Java {  }));
    out.push(Detector::NativeExecutable(NativeExecutable {  }));
    assert(out@ =~= detectors());
    out
}

/// The answers of the first `n` detectors that did not decline, in order.
pub open spec fn answers(
    config: &Config,
    out_dir: Seq<char>,
    process: &ContainerProcess,
    jars: Seq<Option<Seq<u8>>>,
    n: int,
) -> Seq<Seq<Seq<char>>>
    decreases n,
{
    if n <= 0 || n > detectors().len() {
        Seq::empty()
    } else {
        let before = answers(config, out_dir, process, jars, n - 1);
        match detectors()[n - 1].applies(config, out_dir, process, jars) {
            Some(command) => before.push(command),
            None => before,
        }
    }
}

/// The commands that fingerprint `process`: the answer of each detector
/// that applies, in the order of the detectors.
pub open spec fn fingerprint_commands(
    config: &Config,
    out_dir: Seq<char>,
    process: &ContainerProcess,
    jars: Seq<Option<Seq<u8>>>,
) -> Seq<Seq<Seq<char>>> {
    answers(config, out_dir, process, jars, detectors().len() as int)
}

/// The views of a sequence of commands.
pub open spec fn commands_view(commands: Seq<Vec<String>>) -> Seq<Seq<Seq<char>>> {
    commands.map_values(|c: Vec<String>| texts(c@))
}

/// Asks every detector, in order, and hands back the commands to run for
/// `process`. Whether one of them fails when it is run has no bearing on the
/// others. `jars` holds the content of the jars that `Java::jars_to_inspect`
/// named.
pub fn run_fingerprints(
    config: &Config,
    out_dir: &String,
    process: &ContainerProcess,
    jars: &Vec<Option<Vec<u8>>>,
) -> (out: Vec<Vec<String>>)
    ensures
        commands_view(out@) == fingerprint_commands(
            config,
            out_dir@,
            process,
            archives_view(jars@),
        ),
{
    let all = fingerprints();
    let mut out: Vec<Vec<String>> = Vec::new();
    let mut i: usize = 0;
    assert(commands_view(out@) =~= answers(config, out_dir@, process, archives_view(jars@), 0));
    while i < all.len()
        invariant
            i <= all@.len(),
            all@ == detectors(),
            commands_view(out@) == answers(
                config,
                out_dir@,
                process,
                archives_view(jars@),
                i as int,
            ),
        decreases all.len() - i,
    {
        let ghost before = commands_view(out@);
        match all[i].can_apply_to(config, out_dir, process, jars) {
            Some(command) => {
                out.push(command);
                assert(commands_view(out@) =~= before.push(texts(command@)));
            },
            None => {},
        }
        i += 1;
    }
    out
}

/// The operating system is fingerprinted for every process, and before
/// anything else.
pub proof fn lemma_os_comes_first(
    config: &Config,
    out_dir: Seq<char>,
    process: &ContainerProcess,
    jars: Seq<Option<Seq<u8>>>,
)
    ensures
        fingerprint_commands(config, out_dir, process, jars).len() > 0,
        fingerprint_commands(config, out_dir, process, jars)[0] == seq!["./fpr_os"@, out_dir],
{
    let first = answers(config, out_dir, process, jars, 1);
    assert(answers(config, out_dir, process, jars, 0) =~= Seq::<Seq<Seq<char>>>::empty());
    assert(first =~= seq![seq!["./fpr_os"@, out_dir]]);
    assert(answers(config, out_dir, process, jars, 2).len() >= 1 && answers(
        config,
        out_dir,
        process,
        jars,
        2,
    )[0] == first[0]);
    assert(answers(config, out_dir, process, jars, 3).len() >= 1 && answers(
        config,
        out_dir,
        process,
        jars,
        3,
    )[0] == first[0]);
    assert(answers(config, out_dir, process, jars, 4).len() >= 1 && answers(
        config,
        out_dir,
        process,
        jars,
        4,
    )[0] == first[0]);
}

} // verus!
