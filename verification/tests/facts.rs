use insights_runtime_extractor::entries::Entries;
use insights_runtime_extractor::facts::{
    java_home_of, java_release_file, java_version_fingerprints, kind_fingerprints, os_fingerprints,
};
use insights_runtime_extractor::file::read_key_value_file;
use insights_runtime_extractor::perms::{
    check_no_privileged_perms, check_privileged_perms, privileged, unprivileged,
};
use insights_runtime_extractor::ScannerError;

fn owned(items: &[(&str, &str)]) -> Vec<(String, String)> {
    items.iter().map(|(k, v)| (k.to_string(), v.to_string())).collect()
}

#[test]
fn the_facts_of_an_operating_system() {
    let release = read_key_value_file("NAME=\"Fedora Linux\"\nID=fedora\nVERSION_ID=39\n");
    assert_eq!(
        os_fingerprints(&release).to_vec(),
        owned(&[("os-release-id", "fedora"), ("os-release-version-id", "39")])
    );
    let release = read_key_value_file("ID=alpine\n");
    assert_eq!(os_fingerprints(&release).to_vec(), owned(&[("os-release-id", "alpine")]));
    assert!(os_fingerprints(&Entries::new()).is_empty());
}

#[test]
fn the_facts_of_a_runtime_that_told_its_version() {
    assert_eq!(
        kind_fingerprints("Node.js", "v20.11.0").to_vec(),
        owned(&[("runtime-kind", "Node.js"), ("runtime-kind-version", "v20.11.0")])
    );
}

#[test]
fn the_facts_of_a_java_runtime() {
    let release = read_key_value_file(
        "IMPLEMENTOR=\"Red Hat, Inc.\"\nJAVA_VERSION=\"17.0.9\"\nJAVA_RUNTIME_VERSION=\"17.0.9+9\"\n",
    );
    assert_eq!(
        java_version_fingerprints(&release).to_vec(),
        owned(&[
            ("runtime-kind", "Java"),
            ("runtime-kind-implementer", "Red Hat, Inc."),
            ("runtime-kind-version", "17.0.9"),
        ])
    );
    assert_eq!(
        java_version_fingerprints(&Entries::new()).to_vec(),
        owned(&[("runtime-kind", "Java")])
    );
}

#[test]
fn the_home_of_java_is_two_directories_up() {
    assert_eq!(
        java_home_of("/usr/lib/jvm/java-17/bin/java"),
        Some(String::from("/usr/lib/jvm/java-17"))
    );
    assert_eq!(java_home_of("/bin/java"), Some(String::from("/")));
    assert_eq!(java_home_of("bin/java"), None);
    assert_eq!(java_home_of("java"), None);
    assert_eq!(java_release_file("/usr/lib/jvm/java-17"), "/usr/lib/jvm/java-17/release");
}

#[test]
fn scanning_needs_both_capabilities() {
    let missing = Err(ScannerError::Caps(String::from(
        "Must have CAP_SETUID and CAP_SYS_ADMIN permissions",
    )));
    assert_eq!(privileged(Some(true), Some(true)), Ok(()));
    assert_eq!(privileged(Some(true), Some(false)), missing);
    assert_eq!(privileged(Some(false), Some(true)), missing);
    assert_eq!(privileged(Some(false), Some(false)), missing);
    assert_eq!(privileged(None, Some(true)), missing);
    assert_eq!(privileged(Some(true), None), missing);
    assert_eq!(privileged(None, None), missing);
}

#[test]
fn fingerprinting_needs_neither_capability() {
    let held = Err(ScannerError::Caps(String::from(
        "Must not have CAP_SETUID and CAP_SYS_ADMIN permissions",
    )));
    assert_eq!(unprivileged(Some(false), Some(false)), Ok(()));
    assert_eq!(unprivileged(Some(true), Some(false)), held);
    assert_eq!(unprivileged(Some(false), Some(true)), held);
    assert_eq!(unprivileged(Some(true), Some(true)), held);
    assert_eq!(unprivileged(None, Some(false)), held);
    assert_eq!(unprivileged(Some(false), None), held);
    assert_eq!(unprivileged(None, None), held);
}

#[test]
fn the_kernel_is_asked_for_the_capabilities() {
    let has = check_privileged_perms();
    let has_not = check_no_privileged_perms();
    // the two checks cannot both pass
    assert!(has.is_err() || has_not.is_err());
    if let Err(e) = has {
        assert_eq!(
            e,
            ScannerError::Caps(String::from("Must have CAP_SETUID and CAP_SYS_ADMIN permissions"))
        );
    }
    if let Err(e) = has_not {
        assert_eq!(
            e,
            ScannerError::Caps(String::from(
                "Must not have CAP_SETUID and CAP_SYS_ADMIN permissions"
            ))
        );
    }
}
