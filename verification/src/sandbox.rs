//! The steps by which a disposable child process takes the place of a
//! process of a container before it runs the fingerprints, and what the
//! parent makes of the child's end.
//!
//! Nothing here forks, joins a namespace or changes an identity: the caller
//! performs each step that it is told and reports how it went.

use crate::decimal::{decimal, push_decimal};
use crate::text::push_text;
use crate::process::ContainerProcess;
use crate::ScannerError;
use vstd::prelude::*;

verus! {

/// A namespace that the child joins.
#[derive(Clone, Copy, Debug, PartialEq, Eq, Structural)]
pub enum Namespace {
    Pid,
    Mount,
}

/// What the child does next.
#[derive(Debug, PartialEq, Eq)]
pub enum Action {
    /// Open the handle at this path and join the namespace behind it.
    JoinNamespace(String),
    /// Go back to the directory that was open before the namespaces were
    /// joined.
    RestoreDirectory,
    /// Take the identity of this user.
    SwitchUser(u32),
    /// Check that the privileges are gone.
    CheckNoPrivileges,
    /// Ask the detectors and run what they answer.
    RunFingerprints,
    /// Leave with this exit code.
    Exit(i32),
}

/// A step of the child, as text and numbers.
pub enum Step {
    JoinNamespace(Seq<char>),
    RestoreDirectory,
    SwitchUser(u32),
    CheckNoPrivileges,
    RunFingerprints,
    Exit(i32),
}

impl View for Action {
    type V = Step;

    open spec fn view(&self) -> Step {
        match self {
            Action::JoinNamespace(path) => Step::JoinNamespace(path@),
            Action::RestoreDirectory => Step::RestoreDirectory,
            Action::SwitchUser(uid) => Step::SwitchUser(*uid),
            Action::CheckNoPrivileges => Step::CheckNoPrivileges,
            Action::RunFingerprints => Step::RunFingerprints,
            Action::Exit(code) => Step::Exit(*code),
        }
    }
}

/// The step that the child is busy with.
#[derive(Clone, Copy, Debug, PartialEq, Eq, Structural)]
pub enum Stage {
    JoiningPidNamespace,
    JoiningMountNamespace,
    RestoringDirectory,
    SwitchingUser,
    CheckingPrivileges,
    Fingerprinting,
    Exited,
}

/// The path of the handle of a namespace of the process `pid`.
pub open spec fn namespace_path(pid: u32, namespace: Namespace) -> Seq<char> {
    "/proc/"@ + decimal(pid as nat) + match namespace {
        Namespace::Pid => "/ns/pid"@,
        Namespace::Mount => "/ns/mnt"@,
    }
}

/// The stage that follows `stage` when its step went as `succeeded` says,
/// for a process owned by `uid`. A step that failed ends the child at once,
/// whatever it was: no later step is taken after it. The check of the
/// privileges is left out for the user 0, who keeps them. When the
/// fingerprints have run the child ends, however they went.
pub open spec fn next_stage(stage: Stage, uid: u32, succeeded: bool) -> Stage {
    match stage {
        Stage::JoiningPidNamespace => if succeeded {
            Stage::JoiningMountNamespace
        } else {
            Stage::Exited
        },
        Stage::JoiningMountNamespace => if succeeded {
            Stage::RestoringDirectory
        } else {
            Stage::Exited
        },
        Stage::RestoringDirectory => if succeeded {
            Stage::SwitchingUser
        } else {
            Stage::Exited
        },
        Stage::SwitchingUser => if !succeeded {
            Stage::Exited
        } else if uid != 0 {
            Stage::CheckingPrivileges
        } else {
            Stage::Fingerprinting
        },
        Stage::CheckingPrivileges => if succeeded {
            Stage::Fingerprinting
        } else {
            Stage::Exited
        },
        Stage::Fingerprinting => Stage::Exited,
        Stage::Exited => Stage::Exited,
    }
}

/// The step that is taken on entering `next` from `stage`. The child
/// leaves with 0 when the fingerprints have run, and with 1 in any other
/// case.
pub open spec fn step_into(stage: Stage, next: Stage, pid: u32, uid: u32) -> Step {
    match next {
        Stage::JoiningPidNamespace => Step::JoinNamespace(namespace_path(pid, Namespace::Pid)),
        Stage::JoiningMountNamespace => Step::JoinNamespace(
            namespace_path(pid, Namespace::Mount),
        ),
        Stage::RestoringDirectory => Step::RestoreDirectory,
        Stage::SwitchingUser => Step::SwitchUser(uid),
        Stage::CheckingPrivileges => Step::CheckNoPrivileges,
        Stage::Fingerprinting => Step::RunFingerprints,
        Stage::Exited => Step::Exit(
            if stage == Stage::Fingerprinting {
                0
            } else {
                1
            },
        ),
    }
}

/// The stage that the child has reached from `stage` when its steps went as
/// `outcomes` says, one after the other.
pub open spec fn stage_after(stage: Stage, uid: u32, outcomes: Seq<bool>) -> Stage
    decreases outcomes.len(),
{
    if outcomes.len() == 0 {
        stage
    } else {
        next_stage(stage_after(stage, uid, outcomes.drop_last()), uid, outcomes.last())
    }
}

/// The number of steps that come before the fingerprints.
pub open spec fn steps_before_fingerprints(uid: u32) -> nat {
    if uid != 0 {
        5
    } else {
        4
    }
}

/// The child of one attempt to fingerprint a process.
#[derive(Debug)]
pub struct Sandbox {
    pid: u32,
    uid: u32,
    stage: Stage,
}

impl Sandbox {
    /// The process whose place the child takes.
    pub closed spec fn pid(&self) -> u32 {
        self.pid
    }

    /// The owner of that process.
    pub closed spec fn uid(&self) -> u32 {
        self.uid
    }

    /// The step that the child is busy with.
    pub closed spec fn stage(&self) -> Stage {
        self.stage
    }

    /// The path of the handle of a namespace of the process `pid`.
    pub fn namespace_handle(pid: u32, namespace: Namespace) -> (path: String)
        ensures
            path@ == namespace_path(pid, namespace),
    {
        let mut path = "/proc/".to_owned();
        push_decimal(&mut path, pid);
        match namespace {
            Namespace::Pid => push_text(&mut path, "/ns/pid"),
            Namespace::Mount => push_text(&mut path, "/ns/mnt"),
        }
        path
    }

    /// The child as it begins, with its first step: to join the pid
    /// namespace of `process`.
    pub fn enter(process: &ContainerProcess) -> (r: (Sandbox, Action))
        ensures
            r.0.pid() == process.pid,
            r.0.uid() == process.uid,
            r.0.stage() == Stage::JoiningPidNamespace,
            r.1@ == Step::JoinNamespace(namespace_path(process.pid, Namespace::Pid)),
    {
        let sandbox = Sandbox {
            pid: process.pid,
            uid: process.uid,
            stage: Stage::JoiningPidNamespace,
        };
        (sandbox, Action::JoinNamespace(Sandbox::namespace_handle(process.pid, Namespace::Pid)))
    }

    /// Takes how the last step went and tells the next one.
    pub fn advance(&mut self, succeeded: bool) -> (action: Action)
        ensures
            final(self).pid() == old(self).pid(),
            final(self).uid() == old(self).uid(),
            final(self).stage() == next_stage(old(self).stage(), old(self).uid(), succeeded),
            action@ == step_into(
                old(self).stage(),
                final(self).stage(),
                old(self).pid(),
                old(self).uid(),
            ),
    {
        let before = self.stage;
        let next = match before {
            Stage::JoiningPidNamespace => if succeeded {
                Stage::JoiningMountNamespace
            } else {
                Stage::Exited
            },
            Stage::JoiningMountNamespace => if succeeded {
                Stage::RestoringDirectory
            } else {
                Stage::Exited
            },
            Stage::RestoringDirectory => if succeeded {
                Stage::SwitchingUser
            } else {
                Stage::Exited
            },
            Stage::SwitchingUser => if !succeeded {
                Stage::Exited
            } else if self.uid != 0 {
                Stage::CheckingPrivileges
            } else {
                Stage::Fingerprinting
            },
            Stage::CheckingPrivileges => if succeeded {
                Stage::Fingerprinting
            } else {
                Stage::Exited
            },
            Stage::Fingerprinting => Stage::Exited,
            Stage::Exited => Stage::Exited,
        };
        self.stage = next;
        match next {
            Stage::JoiningPidNamespace => Action::JoinNamespace(
                Sandbox::namespace_handle(self.pid, Namespace::Pid),
            ),
            Stage::JoiningMountNamespace => Action::JoinNamespace(
                Sandbox::namespace_handle(self.pid, Namespace::Mount),
            ),
            Stage::RestoringDirectory => Action::RestoreDirectory,
            Stage::SwitchingUser => Action::SwitchUser(self.uid),
            Stage::CheckingPrivileges => Action::CheckNoPrivileges,
            Stage::Fingerprinting => Action::RunFingerprints,
            Stage::Exited => Action::Exit(
                if before == Stage::Fingerprinting {
                    0
                } else {
                    1
                },
            ),
        }
    }
}

/// The fingerprints run only after every step before them succeeded: the
/// child is about to run them exactly when both namespaces were joined, the
/// directory was restored, the identity was taken and, for any user but 0, the
/// privileges were found gone, and nothing else was done. In particular a
/// child that failed to join a namespace never takes another step.
pub proof fn lemma_fingerprints_need_every_step(uid: u32, outcomes: Seq<bool>)
    ensures
        stage_after(Stage::JoiningPidNamespace, uid, outcomes) == Stage::Fingerprinting <==> (
        outcomes.len() == steps_before_fingerprints(uid) && forall|i: int|
            0 <= i < outcomes.len() ==> outcomes[i]),
{
    let start = Stage::JoiningPidNamespace;
    let n = outcomes.len() as int;
    assert(outcomes.take(0) =~= Seq::<bool>::empty());
    assert(stage_after(start, uid, outcomes.take(0)) == start);
    if n >= 1 {
        lemma_stage_step(uid, outcomes, 0);
    }
    if n >= 2 {
        lemma_stage_step(uid, outcomes, 1);
    }
    if n >= 3 {
        lemma_stage_step(uid, outcomes, 2);
    }
    if n >= 4 {
        lemma_stage_step(uid, outcomes, 3);
    }
    if n >= 5 {
        lemma_stage_step(uid, outcomes, 4);
    }
    if n >= 6 {
        lemma_stage_step(uid, outcomes, 5);
        assert(stage_after(start, uid, outcomes.take(6)) == Stage::Exited);
        lemma_tail_of_exited(uid, outcomes, 6);
    }
    assert(outcomes.take(n) =~= outcomes);
}

/// The stage after one more outcome.
proof fn lemma_stage_step(uid: u32, outcomes: Seq<bool>, k: int)
    requires
        0 <= k < outcomes.len(),
    ensures
        stage_after(Stage::JoiningPidNamespace, uid, outcomes.take(k + 1)) == next_stage(
            stage_after(Stage::JoiningPidNamespace, uid, outcomes.take(k)),
            uid,
            outcomes[k],
        ),
{
    let upto = outcomes.take(k + 1);
    assert(upto.drop_last() =~= outcomes.take(k));
    assert(upto.last() == outcomes[k]);
}

/// Whatever follows the end of the child changes nothing.
proof fn lemma_tail_of_exited(uid: u32, outcomes: Seq<bool>, k: int)
    requires
        0 <= k <= outcomes.len(),
        stage_after(Stage::JoiningPidNamespace, uid, outcomes.take(k)) == Stage::Exited,
    ensures
        stage_after(Stage::JoiningPidNamespace, uid, outcomes) == Stage::Exited,
    decreases outcomes.len() - k,
{
    if k == outcomes.len() {
        assert(outcomes.take(k) =~= outcomes);
    } else {
        lemma_stage_step(uid, outcomes, k);
        lemma_tail_of_exited(uid, outcomes, k + 1);
    }
}

/// How the child of an attempt ended, as far as the parent could tell.
#[derive(Clone, Copy, Debug, PartialEq, Eq, Structural)]
pub enum ChildEnd {
    /// The child left with this exit code.
    Exited(i32),
    /// The child ended in another way: a signal ended it, say.
    Abnormal,
    /// Waiting for the child failed.
    Unknown,
}

/// What the parent makes of an attempt: an attempt whose child could not be
/// forked fails with the error number of the fork. Any other attempt is over
/// and done with, and only a child that left with 0 may have written
/// fingerprints.
pub fn fork_and_exec(forked: Result<ChildEnd, i32>) -> (r: Result<bool, ScannerError>)
    ensures
        match forked {
            Ok(end) => r == Ok::<bool, ScannerError>(end == ChildEnd::Exited(0)),
            Err(errno) => r == Err::<bool, ScannerError>(ScannerError::Errno(errno)),
        },
{
    match forked {
        Ok(end) => Ok(
            match end {
                ChildEnd::Exited(code) => code == 0,
                _ => false,
            },
        ),
        Err(errno) => Err(ScannerError::Errno(errno)),
    }
}

/// Where a process stands, as far as the steps of a child change it.
pub struct Standing {
    /// The user whose identity the process has.
    pub uid: u32,
    /// The process whose pid namespace it is in.
    pub pid_namespace: u32,
    /// The process whose mount namespace it is in.
    pub mount_namespace: u32,
    /// Whether its working directory is the one that was open before the
    /// attempt.
    pub in_safe_directory: bool,
}

/// An attempt: where the parent stands, and where its child does.
pub struct Attempt {
    pub parent: Standing,
    pub child: Standing,
}

/// The attempt as it begins: the child is a copy of the parent.
pub open spec fn forked(parent: Standing) -> Attempt {
    Attempt { parent, child: parent }
}

/// Where the one who takes the step of `stage` stands after it. A step that
/// fails changes nothing. To join a mount namespace is to lose the working
/// directory, until it is restored.
pub open spec fn step_effect(
    stage: Stage,
    pid: u32,
    uid: u32,
    succeeded: bool,
    standing: Standing,
) -> Standing {
    if !succeeded {
        standing
    } else {
        match stage {
            Stage::JoiningPidNamespace => Standing { pid_namespace: pid, ..standing },
            Stage::JoiningMountNamespace => Standing {
                mount_namespace: pid,
                in_safe_directory: false,
                ..standing
            },
            Stage::RestoringDirectory => Standing { in_safe_directory: true, ..standing },
            Stage::SwitchingUser => Standing { uid, ..standing },
            _ => standing,
        }
    }
}

/// The attempt after the steps of the child went as `outcomes` says: the
/// child takes every step, the parent none.
pub open spec fn attempt_after(attempt: Attempt, pid: u32, uid: u32, outcomes: Seq<bool>) -> Attempt
    decreases outcomes.len(),
{
    if outcomes.len() == 0 {
        attempt
    } else {
        let before = attempt_after(attempt, pid, uid, outcomes.drop_last());
        let stage = stage_after(Stage::JoiningPidNamespace, uid, outcomes.drop_last());
        Attempt {
            parent: before.parent,
            child: step_effect(stage, pid, uid, outcomes.last(), before.child),
        }
    }
}

/// Whatever the child does and however it fails, the parent stands where it
/// stood: with its identity, in its namespaces, in its directory.
pub proof fn lemma_parent_untouched(parent: Standing, pid: u32, uid: u32, outcomes: Seq<bool>)
    ensures
        attempt_after(forked(parent), pid, uid, outcomes).parent == parent,
    decreases outcomes.len(),
{
    if outcomes.len() > 0 {
        lemma_parent_untouched(parent, pid, uid, outcomes.drop_last());
    }
}

/// When the fingerprints run, the child has the identity of the owner of
/// the process, is in both namespaces of the process, and is back in the
/// directory that was open before the attempt.
pub proof fn lemma_fingerprints_run_in_place(
    parent: Standing,
    pid: u32,
    uid: u32,
    outcomes: Seq<bool>,
)
    requires
        stage_after(Stage::JoiningPidNamespace, uid, outcomes) == Stage::Fingerprinting,
    ensures
        attempt_after(forked(parent), pid, uid, outcomes).child == (Standing {
            uid,
            pid_namespace: pid,
            mount_namespace: pid,
            in_safe_directory: true,
        }),
{
    lemma_fingerprints_need_every_step(uid, outcomes);
    let start = forked(parent);
    assert(outcomes.take(0) =~= Seq::<bool>::empty());
    let n = outcomes.len() as int;
    lemma_attempt_step(start, pid, uid, outcomes, 0);
    lemma_stage_step(uid, outcomes, 0);
    lemma_attempt_step(start, pid, uid, outcomes, 1);
    lemma_stage_step(uid, outcomes, 1);
    lemma_attempt_step(start, pid, uid, outcomes, 2);
    lemma_stage_step(uid, outcomes, 2);
    lemma_attempt_step(start, pid, uid, outcomes, 3);
    lemma_stage_step(uid, outcomes, 3);
    if n == 5 {
        lemma_attempt_step(start, pid, uid, outcomes, 4);
    }
    assert(outcomes.take(n) =~= outcomes);
}

/// The attempt after one more outcome.
proof fn lemma_attempt_step(attempt: Attempt, pid: u32, uid: u32, outcomes: Seq<bool>, k: int)
    requires
        0 <= k < outcomes.len(),
    ensures
        attempt_after(attempt, pid, uid, outcomes.take(k + 1)) == (Attempt {
            parent: attempt_after(attempt, pid, uid, outcomes.take(k)).parent,
            child: step_effect(
                stage_after(Stage::JoiningPidNamespace, uid, outcomes.take(k)),
                pid,
                uid,
                outcomes[k],
                attempt_after(attempt, pid, uid, outcomes.take(k)).child,
            ),
        }),
{
    let upto = outcomes.take(k + 1);
    assert(upto.drop_last() =~= outcomes.take(k));
    assert(upto.last() == outcomes[k]);
}

} // verus!
