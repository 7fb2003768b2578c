//! What the manifest of a Java archive tells of the application in it.

use crate::config::JavaFingerprint;
use crate::entries::Entries;
use crate::text::push_text;
use crate::jar::{
    archive_view, archives_view, get_jar_manifest, holds_class, jar_contains_class, jar_manifest,
};
use crate::runtime_info::fact;
use crate::text::text_view;
use crate::text::{
    chars_of, find_char, find_last, first_index, join_path, last_index, parent_of, path_file_name,
    path_join, path_parent, rows, same_text, split, split_text, string_of, substring,
    text_starts_with, texts,
};
use vstd::prelude::*;

verus! {

/// What stands after the last `c` in `s`: the whole of `s` where `c` does
/// not occur.
pub open spec fn after_last(s: Seq<char>, c: char) -> Seq<char> {
    s.skip(last_index(s, c) + 1)
}

/// What stands before the first `c` in `s`: the whole of `s` where `c` does
/// not occur.
pub open spec fn before_first(s: Seq<char>, c: char) -> Seq<char> {
    s.take(first_index(s, c))
}

/// The name under which Kafka is reported, with the variant of its build.
pub open spec fn kafka_name(variant: Seq<char>) -> Seq<char> {
    "Kafka "@ + variant
}

/// Kafka, as the title of the implementation tells it: where the title
/// begins with `kafka_` and the manifest has a version of the implementation,
/// that version, for the variant that stands after the last `_` of the title.
pub open spec fn kafka_by_title(manifest: Map<Seq<char>, Seq<char>>) -> Option<
    (Seq<char>, Seq<char>),
> {
    let title = manifest["Implementation-Title"@];
    if manifest.contains_key("Implementation-Title"@) && "kafka_"@.is_prefix_of(title)
        && manifest.contains_key("Implementation-Version"@) {
        Some((kafka_name(after_last(title, '_')), manifest["Implementation-Version"@]))
    } else {
        None
    }
}

/// Kafka, as the name of the jar tells it: where the manifest has the
/// attribute `Version` and the file name of the jar begins with `kafka_`, that
/// version, for the variant that stands after the last `_` of the path and
/// before the `-` that follows. Nothing where that variant is empty.
pub open spec fn kafka_by_file_name(manifest: Map<Seq<char>, Seq<char>>, jar_path: Seq<char>) -> Option<
    (Seq<char>, Seq<char>),
> {
    let variant = before_first(after_last(jar_path, '_'), '-');
    if manifest.contains_key("Version"@) && "kafka_"@.is_prefix_of(path_file_name(jar_path))
        && variant.len() > 0 {
        Some((kafka_name(variant), manifest["Version"@]))
    } else {
        None
    }
}

/// The index of the first of `applications` whose main class is
/// `main_class`, or their number where there is none.
pub open spec fn application_for(applications: Seq<JavaFingerprint>, main_class: Seq<char>) -> int
    decreases applications.len(),
{
    if applications.len() == 0 || applications[0].main_class@ == main_class {
        0
    } else {
        1 + application_for(applications.drop_first(), main_class)
    }
}

/// The configured application that the manifest names by its main class.
pub open spec fn application_of(
    manifest: Map<Seq<char>, Seq<char>>,
    applications: Seq<JavaFingerprint>,
) -> Option<JavaFingerprint> {
    let at = application_for(applications, manifest["Main-Class"@]);
    if manifest.contains_key("Main-Class"@) && 0 <= at < applications.len() {
        Some(applications[at])
    } else {
        None
    }
}

/// The directory of the jar at `jar_path`: empty for a path without `/`.
pub open spec fn jar_dir(jar_path: Seq<char>) -> Seq<char> {
    match path_parent(jar_path) {
        Some(dir) => dir,
        None => Seq::empty(),
    }
}

/// The jars of the class path of a manifest, which stand between spaces:
/// each below the directory of the jar at `jar_path`, unless its path begins
/// with `/`.
pub open spec fn class_path(manifest: Map<Seq<char>, Seq<char>>, jar_path: Seq<char>) -> Seq<
    Seq<char>,
> {
    if manifest.contains_key("Class-Path"@) {
        split(manifest["Class-Path"@], ' ').map_values(
            |jar: Seq<char>| path_join(jar_dir(jar_path), jar),
        )
    } else {
        Seq::empty()
    }
}

/// The jars that have to be read besides the jar at `jar_path`: those of
/// its class path, where the manifest names a configured application whose
/// version does not stand in this manifest. None in any other case.
pub open spec fn member_jars(
    manifest: Map<Seq<char>, Seq<char>>,
    jar_path: Seq<char>,
    applications: Seq<JavaFingerprint>,
) -> Seq<Seq<char>> {
    match application_of(manifest, applications) {
        Some(application) => if application.read_manifest_of_executable_jar {
            Seq::empty()
        } else {
            class_path(manifest, jar_path)
        },
        None => Seq::empty(),
    }
}

/// The version that one jar of the class path gives: the attribute
/// `attribute` of its manifest, where the jar could be read and holds the
/// compiled class `main_class`.
pub open spec fn version_in(member: Option<Seq<u8>>, main_class: Seq<char>, attribute: Seq<char>) -> Option<
    Seq<char>,
> {
    match member {
        Some(archive) => if holds_class(archive, main_class) {
            match jar_manifest(member) {
                Ok(attributes) => fact(attributes, attribute),
                Err(_) => None,
            }
        } else {
            None
        },
        None => None,
    }
}

/// The version that the first `n` jars of the class path give: that of the
/// last of them that gives one.
pub open spec fn version_among(
    members: Seq<Option<Seq<u8>>>,
    main_class: Seq<char>,
    attribute: Seq<char>,
    n: int,
) -> Option<Seq<char>>
    decreases n,
{
    if n <= 0 || n > members.len() {
        None
    } else {
        match version_in(members[n - 1], main_class, attribute) {
            Some(version) => Some(version),
            None => version_among(members, main_class, attribute, n - 1),
        }
    }
}

/// The configured application that the manifest names by its main class,
/// with its version: the configured attribute of this manifest where the
/// application is configured so, else what the jars of the class path give.
pub open spec fn configured_application(
    manifest: Map<Seq<char>, Seq<char>>,
    applications: Seq<JavaFingerprint>,
    members: Seq<Option<Seq<u8>>>,
) -> Option<(Seq<char>, Seq<char>)> {
    match application_of(manifest, applications) {
        Some(application) => {
            let version = if application.read_manifest_of_executable_jar {
                fact(manifest, application.jar_version_manifest_entry@)
            } else {
                version_among(
                    members,
                    manifest["Main-Class"@],
                    application.jar_version_manifest_entry@,
                    members.len() as int,
                )
            };
            match version {
                Some(v) => Some((application.runtime_name@, v)),
                None => None,
            }
        },
        None => None,
    }
}

/// `facts` with one more fact, if there is one.
pub open spec fn with_fact(
    facts: Map<Seq<char>, Seq<char>>,
    found: Option<(Seq<char>, Seq<char>)>,
) -> Map<Seq<char>, Seq<char>> {
    match found {
        Some((name, version)) => facts.insert(name, version),
        None => facts,
    }
}

/// What a jar tells of the application in it, each name with its version.
/// Kafka is known by the title of the implementation or, failing that, by the
/// name of the jar; a configured application by its main class. Where two of
/// these give the same name, the title comes before the name of the jar, and
/// that before the main class.
pub open spec fn java_facts(
    manifest: Map<Seq<char>, Seq<char>>,
    jar_path: Seq<char>,
    applications: Seq<JavaFingerprint>,
    members: Seq<Option<Seq<u8>>>,
) -> Map<Seq<char>, Seq<char>> {
    with_fact(
        with_fact(
            with_fact(Map::empty(), configured_application(manifest, applications, members)),
            kafka_by_file_name(manifest, jar_path),
        ),
        kafka_by_title(manifest),
    )
}

/// The view of a name with its version.
pub open spec fn found_view(found: Option<(String, String)>) -> Option<(Seq<char>, Seq<char>)> {
    match found {
        Some((name, version)) => Some((name@, version@)),
        None => None,
    }
}

/// The name under which Kafka is reported, with the variant of its build.
fn kafka_named(variant: &str) -> (name: String)
    ensures
        name@ == kafka_name(variant@),
{
    let mut name = "Kafka ".to_owned();
    push_text(&mut name, variant);
    name
}

/// What stands after the last `c` in `text`.
pub fn text_after_last(text: &str, c: char) -> (out: String)
    ensures
        out@ == after_last(text@, c),
{
    let chars = chars_of(text);
    let from = match find_last(&chars, c) {
        Some(at) => at + 1,
        None => 0,
    };
    let out = substring(&chars, from, chars.len());
    assert(chars@.subrange(from as int, chars@.len() as int) =~= chars@.skip(from as int));
    out
}

/// What stands before the first `c` in `text`.
pub fn text_before_first(text: &str, c: char) -> (out: String)
    ensures
        out@ == before_first(text@, c),
{
    let chars = chars_of(text);
    assert(chars@.skip(0) =~= chars@);
    let to = find_char(&chars, c, 0);
    substring(&chars, 0, to)
}

/// Kafka, as the title of the implementation tells it.
pub fn kafka_from_title(manifest: &Entries) -> (r: Option<(String, String)>)
    ensures
        found_view(r) == kafka_by_title(manifest@),
{
    match manifest.get("Implementation-Title") {
        Some(title) => {
            if text_starts_with(title.as_str(), "kafka_") {
                match manifest.get("Implementation-Version") {
                    Some(version) => {
                        let variant = text_after_last(title.as_str(), '_');
                        Some((kafka_named(variant.as_str()), version.clone()))
                    },
                    None => None,
                }
            } else {
                None
            }
        },
        None => None,
    }
}

/// Kafka, as the name of the jar at `jar_path` tells it.
pub fn kafka_from_file_name(manifest: &Entries, jar_path: &str) -> (r: Option<(String, String)>)
    ensures
        found_view(r) == kafka_by_file_name(manifest@, jar_path@),
{
    match manifest.get("Version") {
        Some(version) => {
            let file_name = crate::text::file_name_of(jar_path);
            if text_starts_with(file_name.as_str(), "kafka_") {
                let tail = text_after_last(jar_path, '_');
                let variant = text_before_first(tail.as_str(), '-');
                if variant.as_str().is_empty() {
                    None
                } else {
                    Some((kafka_named(variant.as_str()), version.clone()))
                }
            } else {
                None
            }
        },
        None => None,
    }
}

/// The configured application that the manifest names by its main class.
fn find_application<'a>(manifest: &Entries, applications: &'a Vec<JavaFingerprint>) -> (r: Option<
    &'a JavaFingerprint,
>)
    ensures
        match r {
            Some(application) => application_of(manifest@, applications@) == Some(*application),
            None => application_of(manifest@, applications@) is None,
        },
{
    let main_class = match manifest.get("Main-Class") {
        Some(main_class) => main_class,
        None => {
            return None;
        },
    };
    let mut i: usize = 0;
    assert(applications@.skip(0) =~= applications@);
    while i < applications.len()
        invariant
            i <= applications@.len(),
            manifest@.contains_key("Main-Class"@),
            main_class@ == manifest@["Main-Class"@],
            application_for(applications@, main_class@) == i + application_for(
                applications@.skip(i as int),
                main_class@,
            ),
        decreases applications.len() - i,
    {
        let ghost rest = applications@.skip(i as int);
        assert(rest[0] == applications@[i as int]);
        assert(rest.drop_first() =~= applications@.skip(i + 1));
        if same_text(applications[i].main_class.as_str(), main_class.as_str()) {
            return Some(&applications[i]);
        }
        i += 1;
    }
    None
}

/// The jars that have to be read besides the jar at `jar_path` before
/// `java_fingerprints` can tell what the jar holds, in the order in which
/// their content is wanted.
pub fn class_path_jars(manifest: &Entries, jar_path: &str, applications: &Vec<JavaFingerprint>) -> (out:
    Vec<String>)
    ensures
        texts(out@) == member_jars(manifest@, jar_path@, applications@),
{
    let mut out: Vec<String> = Vec::new();
    assert(texts(out@) =~= Seq::<Seq<char>>::empty());
    let application = match find_application(manifest, applications) {
        Some(application) => application,
        None => {
            return out;
        },
    };
    if application.read_manifest_of_executable_jar {
        return out;
    }
    let listed = match manifest.get("Class-Path") {
        Some(listed) => listed,
        None => {
            return out;
        },
    };
    let dir = match parent_of(jar_path) {
        Some(dir) => dir,
        None => String::new(),
    };
    let jars = split_text(&chars_of(listed.as_str()), ' ');
    let ghost wanted = class_path(manifest@, jar_path@);
    let mut i: usize = 0;
    while i < jars.len()
        invariant
            i <= jars@.len(),
            out@.len() == i,
            dir@ == jar_dir(jar_path@),
            manifest@.contains_key("Class-Path"@),
            rows(jars@) == split(manifest@["Class-Path"@], ' '),
            wanted == class_path(manifest@, jar_path@),
            texts(out@) == wanted.take(i as int),
        decreases jars.len() - i,
    {
        let jar = string_of(&jars[i]);
        out.push(join_path(dir.as_str(), jar.as_str()));
        assert(texts(out@) =~= wanted.take(i + 1));
        i += 1;
    }
    assert(wanted.take(i as int) =~= wanted);
    out
}

/// The version that one jar of the class path gives.
fn member_version(member: &Option<Vec<u8>>, main_class: &str, attribute: &str) -> (r: Option<
    String,
>)
    ensures
        text_view(r) == version_in(archive_view(*member), main_class@, attribute@),
{
    match member {
        Some(archive) => {
            if jar_contains_class(archive, main_class) {
                match get_jar_manifest(member) {
                    Ok(attributes) => match attributes.get(attribute) {
                        Some(version) => Some(version.clone()),
                        None => None,
                    },
                    Err(_) => None,
                }
            } else {
                None
            }
        },
        None => None,
    }
}

/// The configured application that the manifest names by its main class,
/// with its version.
pub fn application_from_main_class(
    manifest: &Entries,
    applications: &Vec<JavaFingerprint>,
    members: &Vec<Option<Vec<u8>>>,
) -> (r: Option<(String, String)>)
    ensures
        found_view(r) == configured_application(
            manifest@,
            applications@,
            archives_view(members@),
        ),
{
    let application = match find_application(manifest, applications) {
        Some(application) => application,
        None => {
            return None;
        },
    };
    let attribute = application.jar_version_manifest_entry.as_str();
    if application.read_manifest_of_executable_jar {
        return match manifest.get(attribute) {
            Some(version) => Some((application.runtime_name.clone(), version.clone())),
            None => None,
        };
    }
    let main_class = match manifest.get("Main-Class") {
        Some(main_class) => main_class,
        None => {
            return None;
        },
    };
    let ghost all = archives_view(members@);
    let mut k: usize = members.len();
    while k > 0
        invariant
            k <= members@.len(),
            all == archives_view(members@),
            application_of(manifest@, applications@) == Some(*application),
            !application.read_manifest_of_executable_jar,
            attribute@ == application.jar_version_manifest_entry@,
            main_class@ == manifest@["Main-Class"@],
            version_among(all, main_class@, attribute@, k as int) == version_among(
                all,
                main_class@,
                attribute@,
                all.len() as int,
            ),
        decreases k,
    {
        proof {
            assert(all[k - 1] == archive_view(members@[k - 1]));
        }
        match member_version(&members[k - 1], main_class.as_str(), attribute) {
            Some(version) => {
                return Some((application.runtime_name.clone(), version));
            },
            None => {},
        }
        k -= 1;
    }
    None
}

/// What the jar at `jar_path` tells of the application in it, from its
/// manifest and from the content of the jars that `class_path_jars` named:
/// each in its place, and nothing for a jar that could not be read.
pub fn java_fingerprints(
    manifest: &Entries,
    jar_path: &str,
    applications: &Vec<JavaFingerprint>,
    members: &Vec<Option<Vec<u8>>>,
) -> (out: Entries)
    ensures
        out@ == java_facts(manifest@, jar_path@, applications@, archives_view(members@)),
{
    let mut out = Entries::new();
    match application_from_main_class(manifest, applications, members) {
        Some((name, version)) => {
            out.insert(name, version);
        },
        None => {},
    }
    match kafka_from_file_name(manifest, jar_path) {
        Some((name, version)) => {
            out.insert(name, version);
        },
        None => {},
    }
    match kafka_from_title(manifest) {
        Some((name, version)) => {
            out.insert(name, version);
        },
        None => {},
    }
    out
}

} // verus!
