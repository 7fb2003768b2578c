use insights_runtime_extractor::entries::Entries;
use insights_runtime_extractor::process::ContainerProcess;
use insights_runtime_extractor::sandbox::{fork_and_exec, Action, ChildEnd, Namespace, Sandbox};
use insights_runtime_extractor::ScannerError;

fn process(pid: u32, uid: u32) -> ContainerProcess {
    ContainerProcess {
        pid,
        uid,
        name: String::from("p"),
        command_line: Vec::new(),
        cwd: None,
        environ: Entries::new(),
    }
}

fn run(uid: u32, outcomes: &[bool]) -> Vec<Action> {
    let (mut sandbox, first) = Sandbox::enter(&process(42, uid));
    let mut actions = vec![first];
    for outcome in outcomes {
        actions.push(sandbox.advance(*outcome));
    }
    actions
}

#[test]
fn the_steps_of_a_child_come_in_order() {
    assert_eq!(
        run(1000, &[true, true, true, true, true, true]),
        vec![
            Action::JoinNamespace(String::from("/proc/42/ns/pid")),
            Action::JoinNamespace(String::from("/proc/42/ns/mnt")),
            Action::RestoreDirectory,
            Action::SwitchUser(1000),
            Action::CheckNoPrivileges,
            Action::RunFingerprints,
            Action::Exit(0),
        ]
    );
}

#[test]
fn root_keeps_its_privileges() {
    assert_eq!(
        run(0, &[true, true, true, true, false]),
        vec![
            Action::JoinNamespace(String::from("/proc/42/ns/pid")),
            Action::JoinNamespace(String::from("/proc/42/ns/mnt")),
            Action::RestoreDirectory,
            Action::SwitchUser(0),
            Action::RunFingerprints,
            Action::Exit(0),
        ]
    );
}

#[test]
fn a_failed_step_ends_the_child() {
    for uid in [0u32, 1000] {
        let steps = if uid == 0 { 4 } else { 5 };
        for failing in 0..steps {
            let mut outcomes = vec![true; failing];
            outcomes.push(false);
            outcomes.extend([true, true, true]);
            let actions = run(uid, &outcomes);
            assert_eq!(actions[failing + 1], Action::Exit(1));
            assert!(!actions.contains(&Action::RunFingerprints));
            for later in &actions[failing + 1..] {
                assert_eq!(later, &Action::Exit(1));
            }
        }
    }
}

#[test]
fn the_child_leaves_with_zero_whatever_was_detected() {
    let with = run(1000, &[true, true, true, true, true, true]);
    let without = run(1000, &[true, true, true, true, true, false]);
    assert_eq!(with.last(), Some(&Action::Exit(0)));
    assert_eq!(without.last(), Some(&Action::Exit(0)));
}

#[test]
fn namespace_handles_are_below_proc() {
    assert_eq!(Sandbox::namespace_handle(1, Namespace::Pid), "/proc/1/ns/pid");
    assert_eq!(Sandbox::namespace_handle(4294967295, Namespace::Mount), "/proc/4294967295/ns/mnt");
}

#[test]
fn the_parent_goes_on_after_any_child() {
    assert_eq!(fork_and_exec(Ok(ChildEnd::Exited(0))), Ok(true));
    assert_eq!(fork_and_exec(Ok(ChildEnd::Exited(1))), Ok(false));
    assert_eq!(fork_and_exec(Ok(ChildEnd::Exited(101))), Ok(false));
    assert_eq!(fork_and_exec(Ok(ChildEnd::Abnormal)), Ok(false));
    assert_eq!(fork_and_exec(Ok(ChildEnd::Unknown)), Ok(false));
    assert_eq!(fork_and_exec(Err(11)), Err(ScannerError::Errno(11)));
}
