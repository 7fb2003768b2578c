//! The detector of Java applications.

use crate::config::{Config, JavaFingerprint};
use crate::fingerprint::{command_view, FingerPrint};
use crate::jar::{archive_view, archives_view, holds_class, jar_contains_class};
use crate::process::ContainerProcess;
use crate::text::{
    among, chars_of, concat_all, contains, contains_text, ends_with, find_one_of, first_of,
    join_all, push_text, rows, slices, split, split_text, string_of, text_ends_with,
    text_starts_with, text_view, texts,
};
use vstd::prelude::*;

verus! {

/// Detects a Java application: it applies to a process whose name ends with
/// `java` and whose command line names a jar, directly or on a class path.
pub struct Java {}

/// How a jar of a class path is recognised by its path.
#[derive(Clone, Copy, Debug, PartialEq, Eq, Structural)]
pub enum JarRule {
    /// The path of the jar ends with the fragment.
    EndsWith,
    /// The path of the jar holds the fragment.
    Contains,
}

/// The path of `jar`: as it is where it begins with `/`, else below the
/// working directory, which has to be known.
pub open spec fn jar_target(cwd: Option<String>, jar: Seq<char>) -> Option<Seq<char>> {
    if "/"@.is_prefix_of(jar) {
        Some(jar)
    } else {
        match cwd {
            Some(dir) => Some(dir@ + "/"@ + jar),
            None => None,
        }
    }
}

/// The command that fingerprints `jar`.
pub open spec fn jar_command(out_dir: Seq<char>, cwd: Option<String>, jar: Seq<char>) -> Option<
    Seq<Seq<char>>,
> {
    match jar_target(cwd, jar) {
        Some(target) => Some(seq!["./fpr_java"@, out_dir, target]),
        None => None,
    }
}

/// The argument that follows the first argument that is one of `flags`.
pub open spec fn argument_after(args: Seq<Seq<char>>, flags: Seq<Seq<char>>) -> Option<
    Seq<char>,
> {
    let at = first_of(args, flags);
    if 0 <= at && at + 1 < args.len() {
        Some(args[at + 1])
    } else {
        None
    }
}

/// Whether `jar` is recognised by `rule` and `fragment`.
pub open spec fn rule_matches(rule: JarRule, fragment: Seq<char>, jar: Seq<char>) -> bool {
    match rule {
        JarRule::EndsWith => fragment.is_suffix_of(jar),
        JarRule::Contains => contains_text(jar, fragment),
    }
}

/// The first of `jars` that `rule` and `fragment` recognise.
pub open spec fn select_jar(jars: Seq<Seq<char>>, rule: JarRule, fragment: Seq<char>) -> Option<
    Seq<char>,
>
    decreases jars.len(),
{
    if jars.len() == 0 {
        None
    } else if rule_matches(rule, fragment, jars[0]) {
        Some(jars[0])
    } else {
        select_jar(jars.drop_first(), rule, fragment)
    }
}

/// The first of `jars`, from the index `from` on, whose content is known and
/// holds the compiled class `class_name`. The content of a jar stands at its
/// index in `archives`.
pub open spec fn jar_holding(
    jars: Seq<Seq<char>>,
    archives: Seq<Option<Seq<u8>>>,
    class_name: Seq<char>,
    from: int,
) -> Option<Seq<char>>
    decreases jars.len() - from,
{
    if from < 0 || from >= jars.len() {
        None
    } else if from < archives.len() && archives[from] is Some && holds_class(
        archives[from]->0,
        class_name,
    ) {
        Some(jars[from])
    } else {
        jar_holding(jars, archives, class_name, from + 1)
    }
}

/// The jar of an application that is known by a class on its command line:
/// where the command line, its texts put together, holds `entry_point`, the
/// first of `jars` that `rule` and `fragment` recognise.
pub open spec fn known_jar(
    joined: Seq<char>,
    jars: Seq<Seq<char>>,
    entry_point: Seq<char>,
    rule: JarRule,
    fragment: Seq<char>,
) -> Option<Seq<char>> {
    if contains_text(joined, entry_point) {
        select_jar(jars, rule, fragment)
    } else {
        None
    }
}

/// The jar of a configured application, where one argument is its main
/// class: the first of `jars` whose path holds the configured part of a name
/// or, where none is configured, the first whose content holds the compiled
/// main class.
pub open spec fn configured_jar(
    args: Seq<Seq<char>>,
    jars: Seq<Seq<char>>,
    archives: Seq<Option<Seq<u8>>>,
    application: JavaFingerprint,
) -> Option<Seq<char>> {
    if !args.contains(application.main_class@) {
        None
    } else {
        match application.main_jar {
            Some(fragment) => select_jar(jars, JarRule::Contains, fragment@),
            None => jar_holding(jars, archives, application.main_class@, 0),
        }
    }
}

/// The jar of the first of `applications`, in order, that has one among
/// `jars`.
pub open spec fn first_configured_jar(
    args: Seq<Seq<char>>,
    jars: Seq<Seq<char>>,
    archives: Seq<Option<Seq<u8>>>,
    applications: Seq<JavaFingerprint>,
) -> Option<Seq<char>>
    decreases applications.len(),
{
    if applications.len() == 0 {
        None
    } else {
        match configured_jar(args, jars, archives, applications[0]) {
            Some(jar) => Some(jar),
            None => first_configured_jar(args, jars, archives, applications.drop_first()),
        }
    }
}

/// `first`, or `second` where `first` is nothing.
pub open spec fn or_else(first: Option<Seq<char>>, second: Option<Seq<char>>) -> Option<
    Seq<char>,
> {
    match first {
        Some(jar) => Some(jar),
        None => second,
    }
}

/// The jar to fingerprint among those of `classpath`, whose jars stand
/// between colons. Apache Tomcat, Quarkus and Kafka are known by a class on
/// the command line and come first, in this order; the configured
/// applications follow, in the order of the configuration.
pub open spec fn classpath_jar(
    config: &Config,
    args: Seq<Seq<char>>,
    classpath: Seq<char>,
    archives: Seq<Option<Seq<u8>>>,
) -> Option<Seq<char>> {
    let jars = split(classpath, ':');
    let joined = concat_all(args);
    or_else(
        known_jar(
            joined,
            jars,
            "org.apache.catalina.startup.Bootstrap"@,
            JarRule::EndsWith,
            "bootstrap.jar"@,
        ),
        or_else(
            known_jar(
                joined,
                jars,
                "io.quarkus.bootstrap.runner.QuarkusEntryPoint"@,
                JarRule::Contains,
                "io.quarkus.quarkus-core"@,
            ),
            or_else(
                known_jar(joined, jars, "kafka.Kafka"@, JarRule::Contains, "kafka_"@),
                first_configured_jar(args, jars, archives, config.fingerprints.java@),
            ),
        ),
    )
}

/// The command for the jar that follows `-jar`, where there is one and its
/// path can be told.
pub open spec fn direct_command(out_dir: Seq<char>, process: &ContainerProcess) -> Option<
    Seq<Seq<char>>,
> {
    match argument_after(texts(process.command_line@), seq!["-jar"@]) {
        Some(jar) => jar_command(out_dir, process.cwd, jar),
        None => None,
    }
}

/// The command for the jar that the class path after `-classpath` or `-cp`
/// gives, where there is one and its path can be told.
pub open spec fn classpath_command(
    config: &Config,
    out_dir: Seq<char>,
    process: &ContainerProcess,
    archives: Seq<Option<Seq<u8>>>,
) -> Option<Seq<Seq<char>>> {
    let args = texts(process.command_line@);
    match argument_after(args, seq!["-classpath"@, "-cp"@]) {
        Some(classpath) => match classpath_jar(config, args, classpath, archives) {
            Some(jar) => jar_command(out_dir, process.cwd, jar),
            None => None,
        },
        None => None,
    }
}

/// Whether the content of the jars of the class path may decide: whether
/// one argument is the main class of a configured application for which no
/// part of the name of its jar is configured.
pub open spec fn content_decides(args: Seq<Seq<char>>, applications: Seq<JavaFingerprint>) -> bool {
    exists|i: int|
        0 <= i < applications.len() && (#[trigger] applications[i]).main_jar is None
            && args.contains(applications[i].main_class@)
}

/// The jars whose content the detector wants to see: for a Java process
/// whose class path may be decided by content, each jar of the class path, by
/// the path under which it can be read, or nothing for a jar whose path cannot
/// be told. For any other process, no jar at all.
pub open spec fn inspected_jars(config: &Config, process: &ContainerProcess) -> Seq<
    Option<Seq<char>>,
> {
    let args = texts(process.command_line@);
    match argument_after(args, seq!["-classpath"@, "-cp"@]) {
        Some(classpath) => if "java"@.is_suffix_of(process.name@) && content_decides(
            args,
            config.fingerprints.java@,
        ) {
            split(classpath, ':').map_values(|jar: Seq<char>| jar_target(process.cwd, jar))
        } else {
            Seq::empty()
        },
        None => Seq::empty(),
    }
}

/// The views of a sequence of paths that may be missing.
pub open spec fn paths_view(paths: Seq<Option<String>>) -> Seq<Option<Seq<char>>> {
    paths.map_values(|p: Option<String>| text_view(p))
}

/// The index of the first of `jars` that `rule` and `fragment` recognise.
fn find_jar(jars: &Vec<Vec<char>>, rule: JarRule, fragment: &str) -> (r: Option<usize>)
    ensures
        match r {
            Some(i) => i < jars@.len() && select_jar(rows(jars@), rule, fragment@) == Some(
                jars@[i as int]@,
            ),
            None => select_jar(rows(jars@), rule, fragment@) is None,
        },
{
    let wanted = chars_of(fragment);
    let mut i: usize = 0;
    assert(rows(jars@).skip(0) =~= rows(jars@));
    while i < jars.len()
        invariant
            i <= jars@.len(),
            wanted@ == fragment@,
            select_jar(rows(jars@).skip(i as int), rule, fragment@) == select_jar(
                rows(jars@),
                rule,
                fragment@,
            ),
        decreases jars.len() - i,
    {
        let ghost rest = rows(jars@).skip(i as int);
        assert(rest[0] == jars@[i as int]@);
        assert(rest.drop_first() =~= rows(jars@).skip(i + 1));
        let hit = match rule {
            JarRule::EndsWith => ends_with(&jars[i], &wanted),
            JarRule::Contains => contains(&jars[i], &wanted),
        };
        if hit {
            return Some(i);
        }
        i += 1;
    }
    None
}

/// The index of the first of `jars` whose content holds the compiled class
/// `class_name`.
fn find_jar_holding(jars: &Vec<Vec<char>>, archives: &Vec<Option<Vec<u8>>>, class_name: &str) -> (r:
    Option<usize>)
    ensures
        match r {
            Some(i) => i < jars@.len() && jar_holding(
                rows(jars@),
                archives_view(archives@),
                class_name@,
                0,
            ) == Some(jars@[i as int]@),
            None => jar_holding(rows(jars@), archives_view(archives@), class_name@, 0) is None,
        },
{
    let mut i: usize = 0;
    while i < jars.len()
        invariant
            i <= jars@.len(),
            jar_holding(rows(jars@), archives_view(archives@), class_name@, i as int)
                == jar_holding(rows(jars@), archives_view(archives@), class_name@, 0),
        decreases jars.len() - i,
    {
        if i < archives.len() {
            assert(archives_view(archives@)[i as int] == archive_view(archives@[i as int]));
            match &archives[i] {
                Some(archive) => {
                    if jar_contains_class(archive, class_name) {
                        return Some(i);
                    }
                },
                None => {},
            }
        }
        i += 1;
    }
    None
}

/// The jar of an application that is known by a class on its command line.
fn find_known_jar(
    joined: &Vec<char>,
    jars: &Vec<Vec<char>>,
    entry_point: &str,
    rule: JarRule,
    fragment: &str,
) -> (r: Option<usize>)
    ensures
        match r {
            Some(i) => i < jars@.len() && known_jar(
                joined@,
                rows(jars@),
                entry_point@,
                rule,
                fragment@,
            ) == Some(jars@[i as int]@),
            None => known_jar(joined@, rows(jars@), entry_point@, rule, fragment@) is None,
        },
{
    if contains(joined, &chars_of(entry_point)) {
        find_jar(jars, rule, fragment)
    } else {
        None
    }
}

/// The jar of the first configured application that has one among `jars`.
fn find_configured_jar(
    args: &Vec<String>,
    jars: &Vec<Vec<char>>,
    archives: &Vec<Option<Vec<u8>>>,
    applications: &Vec<JavaFingerprint>,
) -> (r: Option<usize>)
    ensures
        match r {
            Some(i) => i < jars@.len() && first_configured_jar(
                texts(args@),
                rows(jars@),
                archives_view(archives@),
                applications@,
            ) == Some(jars@[i as int]@),
            None => first_configured_jar(
                texts(args@),
                rows(jars@),
                archives_view(archives@),
                applications@,
            ) is None,
        },
{
    let mut k: usize = 0;
    assert(applications@.skip(0) =~= applications@);
    while k < applications.len()
        invariant
            k <= applications@.len(),
            first_configured_jar(
                texts(args@),
                rows(jars@),
                archives_view(archives@),
                applications@.skip(k as int),
            ) == first_configured_jar(
                texts(args@),
                rows(jars@),
                archives_view(archives@),
                applications@,
            ),
        decreases applications.len() - k,
    {
        let ghost rest = applications@.skip(k as int);
        assert(rest[0] == applications@[k as int]);
        assert(rest.drop_first() =~= applications@.skip(k + 1));
        let application = &applications[k];
        if among(application.main_class.as_str(), args) {
            let found = match &application.main_jar {
                Some(fragment) => find_jar(jars, JarRule::Contains, fragment.as_str()),
                None => find_jar_holding(jars, archives, application.main_class.as_str()),
            };
            match found {
                Some(i) => {
                    return Some(i);
                },
                None => {},
            }
        }
        k += 1;
    }
    None
}

/// The jar to fingerprint among those of `classpath`.
fn find_classpath_jar(
    config: &Config,
    args: &Vec<String>,
    classpath: &str,
    archives: &Vec<Option<Vec<u8>>>,
) -> (r: Option<String>)
    ensures
        text_view(r) == classpath_jar(config, texts(args@), classpath@, archives_view(archives@)),
{
    let jars = split_text(&chars_of(classpath), ':');
    let joined = join_all(args);
    let mut found = find_known_jar(
        &joined,
        &jars,
        "org.apache.catalina.startup.Bootstrap",
        JarRule::EndsWith,
        "bootstrap.jar",
    );
    if found.is_none() {
        found =
        find_known_jar(
            &joined,
            &jars,
            "io.quarkus.bootstrap.runner.QuarkusEntryPoint",
            JarRule::Contains,
            "io.quarkus.quarkus-core",
        );
    }
    if found.is_none() {
        found = find_known_jar(&joined, &jars, "kafka.Kafka", JarRule::Contains, "kafka_");
    }
    if found.is_none() {
        found = find_configured_jar(args, &jars, archives, &config.fingerprints.java);
    }
    match found {
        Some(i) => Some(string_of(&jars[i])),
        None => None,
    }
}

/// Whether the content of the jars of the class path may decide.
fn may_need_content(args: &Vec<String>, applications: &Vec<JavaFingerprint>) -> (r: bool)
    ensures
        r == content_decides(texts(args@), applications@),
{
    let mut i: usize = 0;
    while i < applications.len()
        invariant
            i <= applications@.len(),
            forall|k: int|
                0 <= k < i ==> !((#[trigger] applications@[k]).main_jar is None && texts(
                    args@,
                ).contains(applications@[k].main_class@)),
        decreases applications.len() - i,
    {
        if applications[i].main_jar.is_none() && among(applications[i].main_class.as_str(), args) {
            return true;
        }
        i += 1;
    }
    false
}

impl Java {
    /// The path of `jar`: a jar whose path does not begin with `/` is looked
    /// for below the working directory of `process`. Nothing where that
    /// directory is needed and not known.
    pub fn jar_path(process: &ContainerProcess, jar: &str) -> (r: Option<String>)
        ensures
            text_view(r) == jar_target(process.cwd, jar@),
    {
        if text_starts_with(jar, "/") {
            Some(jar.to_owned())
        } else {
            match &process.cwd {
                Some(dir) => {
                    let mut path = dir.clone();
                    push_text(&mut path, "/");
                    push_text(&mut path, jar);
                    Some(path)
                },
                None => None,
            }
        }
    }

    /// The command that fingerprints `jar`, where the path of the jar can be
    /// told.
    pub fn jar_executable(out_dir: &String, process: &ContainerProcess, jar: &str) -> (r: Option<
        Vec<String>,
    >)
        ensures
            command_view(r) == jar_command(out_dir@, process.cwd, jar@),
    {
        match Java::jar_path(process, jar) {
            Some(target) => {
                let mut command: Vec<String> = Vec::new();
                command.push("./fpr_java".to_owned());
                command.push(out_dir.clone());
                command.push(target);
                assert(texts(command@) =~= seq!["./fpr_java"@, out_dir@, target@]);
                Some(command)
            },
            None => None,
        }
    }

    /// The jars whose content the detector wants to see before it is asked,
    /// each by the path under which it can be read: their content is what
    /// `can_apply_to` takes, in the same order.
    pub fn jars_to_inspect(config: &Config, process: &ContainerProcess) -> (out: Vec<
        Option<String>,
    >)
        ensures
            paths_view(out@) == inspected_jars(config, process),
    {
        let mut out: Vec<Option<String>> = Vec::new();
        assert(paths_view(out@) =~= Seq::<Option<Seq<char>>>::empty());
        let args = &process.command_line;
        let classpath_flags: Vec<&str> = vec!["-classpath", "-cp"];
        assert(slices(classpath_flags@) =~= seq!["-classpath"@, "-cp"@]);
        let at = find_one_of(args, &classpath_flags);
        if !(at < args.len() && at + 1 < args.len()) {
            return out;
        }
        if !text_ends_with(process.name.as_str(), "java") || !may_need_content(
            args,
            &config.fingerprints.java,
        ) {
            return out;
        }
        let jars = split_text(&chars_of(args[at + 1].as_str()), ':');
        let ghost wanted = inspected_jars(config, process);
        let mut i: usize = 0;
        while i < jars.len()
            invariant
                i <= jars@.len(),
                out@.len() == i,
                wanted == rows(jars@).map_values(|jar: Seq<char>| jar_target(process.cwd, jar)),
                paths_view(out@) == wanted.take(i as int),
            decreases jars.len() - i,
        {
            let jar = string_of(&jars[i]);
            out.push(Java::jar_path(process, jar.as_str()));
            assert(paths_view(out@) =~= wanted.take(i + 1));
            i += 1;
        }
        assert(wanted.take(i as int) =~= wanted);
        out
    }
}

impl FingerPrint for Java {
    /// Nothing for a process whose name does not end with `java`. Else the
    /// command for the jar after `-jar`; where that gives nothing, the
    /// command for the jar that the class path gives.
    open spec fn applies(
        &self,
        config: &Config,
        out_dir: Seq<char>,
        process: &ContainerProcess,
        jars: Seq<Option<Seq<u8>>>,
    ) -> Option<Seq<Seq<char>>> {
        if !"java"@.is_suffix_of(process.name@) {
            None
        } else {
            match direct_command(out_dir, process) {
                Some(command) => Some(command),
                None => classpath_command(config, out_dir, process, jars),
            }
        }
    }

    fn can_apply_to(
        &self,
        config: &Config,
        out_dir: &String,
        process: &ContainerProcess,
        jars: &Vec<Option<Vec<u8>>>,
    ) -> (r: Option<Vec<String>>) {
        if !text_ends_with(process.name.as_str(), "java") {
            return None;
        }
        let args = &process.command_line;
        let jar_flags: Vec<&str> = vec!["-jar"];
        assert(slices(jar_flags@) =~= seq!["-jar"@]);
        let at = find_one_of(args, &jar_flags);
        if at < args.len() && at + 1 < args.len() {
            let direct = Java::jar_executable(out_dir, process, args[at + 1].as_str());
            if direct.is_some() {
                return direct;
            }
        }
        let classpath_flags: Vec<&str> = vec!["-classpath", "-cp"];
        assert(slices(classpath_flags@) =~= seq!["-classpath"@, "-cp"@]);
        let at = find_one_of(args, &classpath_flags);
        if at < args.len() && at + 1 < args.len() {
            match find_classpath_jar(config, args, args[at + 1].as_str(), jars) {
                Some(jar) => Java::jar_executable(out_dir, process, jar.as_str()),
                None => None,
            }
        } else {
            None
        }
    }
}

} // verus!
