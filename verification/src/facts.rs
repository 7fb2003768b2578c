//! The facts that the fingerprints write, made from what they read.

use crate::entries::Entries;
use crate::text::push_text;
use crate::runtime_info::fact;
use crate::text::{parent_of, path_parent};
use vstd::prelude::*;

verus! {

/// `facts` with the value that `source` has for `key`, under the name
/// `name`, where it has one.
pub open spec fn with_copied(
    facts: Map<Seq<char>, Seq<char>>,
    source: Map<Seq<char>, Seq<char>>,
    key: Seq<char>,
    name: Seq<char>,
) -> Map<Seq<char>, Seq<char>> {
    match fact(source, key) {
        Some(value) => facts.insert(name, value),
        None => facts,
    }
}

/// The facts of an operating system, from the entries of its release file:
/// its version and its id.
pub open spec fn os_facts(release: Map<Seq<char>, Seq<char>>) -> Map<Seq<char>, Seq<char>> {
    with_copied(
        with_copied(Map::empty(), release, "VERSION_ID"@, "os-release-version-id"@),
        release,
        "ID"@,
        "os-release-id"@,
    )
}

/// The facts of a runtime that told its version itself: its kind and that
/// version.
pub open spec fn kind_facts(kind: Seq<char>, version: Seq<char>) -> Map<Seq<char>, Seq<char>> {
    Map::empty().insert("runtime-kind"@, kind).insert("runtime-kind-version"@, version)
}

/// The facts of a Java runtime, from the entries of the release file of its
/// home: the kind is `Java`, and the file gives version and implementer.
pub open spec fn java_version_facts(release: Map<Seq<char>, Seq<char>>) -> Map<
    Seq<char>,
    Seq<char>,
> {
    with_copied(
        with_copied(
            Map::empty().insert("runtime-kind"@, "Java"@),
            release,
            "JAVA_VERSION"@,
            "runtime-kind-version"@,
        ),
        release,
        "IMPLEMENTOR"@,
        "runtime-kind-implementer"@,
    )
}

/// The home of the Java runtime whose executable is at `executable`, links
/// resolved: the directory above the directory of the executable.
pub open spec fn java_home(executable: Seq<char>) -> Option<Seq<char>> {
    match path_parent(executable) {
        Some(bin) => path_parent(bin),
        None => None,
    }
}

/// Copies the value that `source` has for `key` to `facts`, under the name
/// `name`.
fn copy_fact(facts: &mut Entries, source: &Entries, key: &str, name: &str)
    ensures
        final(facts)@ == with_copied(old(facts)@, source@, key@, name@),
{
    match source.get(key) {
        Some(value) => {
            facts.insert(name.to_owned(), value.clone());
        },
        None => {},
    }
}

/// The facts of an operating system, from the entries of its release file.
pub fn os_fingerprints(release: &Entries) -> (out: Entries)
    ensures
        out@ == os_facts(release@),
{
    let mut out = Entries::new();
    copy_fact(&mut out, release, "VERSION_ID", "os-release-version-id");
    copy_fact(&mut out, release, "ID", "os-release-id");
    out
}

/// The facts of the runtime of the kind `kind` that told the version
/// `version`.
pub fn kind_fingerprints(kind: &str, version: &str) -> (out: Entries)
    ensures
        out@ == kind_facts(kind@, version@),
{
    let mut out = Entries::new();
    out.insert("runtime-kind".to_owned(), kind.to_owned());
    out.insert("runtime-kind-version".to_owned(), version.to_owned());
    out
}

/// The facts of a Java runtime, from the entries of the release file of its
/// home. Where that file could not be read, pass no entries: the kind is known
/// all the same.
pub fn java_version_fingerprints(release: &Entries) -> (out: Entries)
    ensures
        out@ == java_version_facts(release@),
{
    let mut out = Entries::new();
    out.insert("runtime-kind".to_owned(), "Java".to_owned());
    copy_fact(&mut out, release, "JAVA_VERSION", "runtime-kind-version");
    copy_fact(&mut out, release, "IMPLEMENTOR", "runtime-kind-implementer");
    out
}

/// The home of the Java runtime whose executable is at `executable`, links
/// resolved.
pub fn java_home_of(executable: &str) -> (r: Option<String>)
    ensures
        match r {
            Some(home) => java_home(executable@) == Some(home@),
            None => java_home(executable@) is None,
        },
{
    match parent_of(executable) {
        Some(bin) => parent_of(bin.as_str()),
        None => None,
    }
}

/// The path of the release file of the Java home `home`.
pub fn java_release_file(home: &str) -> (path: String)
    ensures
        path@ == home@ + "/release"@,
{
    let mut path = home.to_owned();
    push_text(&mut path, "/release");
    path
}

} // verus!
