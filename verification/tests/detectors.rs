use insights_runtime_extractor::config::{
    Config, Fingerprints, JavaFingerprint, VersionExecutables,
};
use insights_runtime_extractor::entries::Entries;
use insights_runtime_extractor::fingerprint::java::Java;
use insights_runtime_extractor::fingerprint::native_executable::NativeExecutable;
use insights_runtime_extractor::fingerprint::os::Os;
use insights_runtime_extractor::fingerprint::version_executable::{
    is_version_executable, VersionExecutable,
};
use insights_runtime_extractor::fingerprint::{fingerprints, run_fingerprints, Detector, FingerPrint};
use insights_runtime_extractor::process::{get_environ_hashmap, ContainerProcess};

fn config() -> Config {
    Config {
        fingerprints: Fingerprints {
            versioned_executables: vec![
                VersionExecutables {
                    process_names: vec![String::from("node")],
                    runtime_kind_name: String::from("Node.js"),
                },
                VersionExecutables {
                    process_names: vec![
                        String::from("python"),
                        String::from("python3"),
                        String::from("node"),
                    ],
                    runtime_kind_name: String::from("Python"),
                },
            ],
            java: vec![
                JavaFingerprint {
                    runtime_name: String::from("Spring Boot"),
                    main_class: String::from("org.springframework.boot.loader.JarLauncher"),
                    main_jar: Some(String::from("spring-boot")),
                    read_manifest_of_executable_jar: true,
                    jar_version_manifest_entry: String::from("Spring-Boot-Version"),
                },
                JavaFingerprint {
                    runtime_name: String::from("WildFly"),
                    main_class: String::from("org.jboss.modules.Main"),
                    main_jar: None,
                    read_manifest_of_executable_jar: false,
                    jar_version_manifest_entry: String::from("JBoss-Product-Release-Version"),
                },
                JavaFingerprint {
                    runtime_name: String::from("Example"),
                    main_class: String::from("org.example.Main"),
                    main_jar: Some(String::from("example-core")),
                    read_manifest_of_executable_jar: false,
                    jar_version_manifest_entry: String::from("Version"),
                },
            ],
        },
    }
}

fn process(name: &str, command_line: &[&str], cwd: Option<&str>, environ: &[&str]) -> ContainerProcess {
    let envs: Vec<String> = environ.iter().map(|e| e.to_string()).collect();
    ContainerProcess {
        pid: 4711,
        uid: 1000,
        name: name.to_string(),
        command_line: command_line.iter().map(|a| a.to_string()).collect(),
        cwd: cwd.map(|c| c.to_string()),
        environ: get_environ_hashmap(&envs),
    }
}

fn out() -> String {
    String::from("out/4711")
}

fn command(items: &[&str]) -> Option<Vec<String>> {
    Some(items.iter().map(|a| a.to_string()).collect())
}

#[test]
fn java_jar_with_an_absolute_path() {
    let p = process("java", &["java", "-jar", "/app/app.jar"], Some("/srv"), &[]);
    assert_eq!(
        (Java {}).can_apply_to(&config(), &out(), &p, &Vec::new()),
        command(&["./fpr_java", "out/4711", "/app/app.jar"])
    );
}

#[test]
fn java_jar_with_a_relative_path() {
    let p = process("java", &["java", "-Xmx1g", "-jar", "app.jar", "--port", "80"], Some("/srv"), &[]);
    assert_eq!(
        (Java {}).can_apply_to(&config(), &out(), &p, &Vec::new()),
        command(&["./fpr_java", "out/4711", "/srv/app.jar"])
    );
}

#[test]
fn java_jar_below_an_unknown_directory() {
    let p = process("java", &["java", "-jar", "app.jar"], None, &[]);
    assert_eq!((Java {}).can_apply_to(&config(), &out(), &p, &Vec::new()), None);
    assert_eq!(Java::jar_executable(&out(), &p, "app.jar"), None);
    assert_eq!(
        Java::jar_executable(&out(), &p, "/app.jar"),
        command(&["./fpr_java", "out/4711", "/app.jar"])
    );
}

#[test]
fn java_applies_to_java_processes_only() {
    let p = process("javaw", &["javaw", "-jar", "/app/app.jar"], Some("/srv"), &[]);
    assert_eq!((Java {}).can_apply_to(&config(), &out(), &p, &Vec::new()), None);
    let p = process("/usr/bin/java", &["java", "-jar", "/app/app.jar"], Some("/srv"), &[]);
    assert_eq!(
        (Java {}).can_apply_to(&config(), &out(), &p, &Vec::new()),
        command(&["./fpr_java", "out/4711", "/app/app.jar"])
    );
    let p = process("java", &["java", "-version"], Some("/srv"), &[]);
    assert_eq!((Java {}).can_apply_to(&config(), &out(), &p, &Vec::new()), None);
    let p = process("java", &["java", "-jar"], Some("/srv"), &[]);
    assert_eq!((Java {}).can_apply_to(&config(), &out(), &p, &Vec::new()), None);
}

#[test]
fn java_classpath_of_tomcat() {
    let p = process(
        "java",
        &[
            "/usr/bin/java",
            "-classpath",
            "/opt/tomcat/bin/commons.jar:/opt/tomcat/bin/bootstrap.jar:/opt/tomcat/bin/tomcat-juli.jar",
            "org.apache.catalina.startup.Bootstrap",
            "start",
        ],
        Some("/opt/tomcat"),
        &[],
    );
    assert_eq!(
        (Java {}).can_apply_to(&config(), &out(), &p, &Vec::new()),
        command(&["./fpr_java", "out/4711", "/opt/tomcat/bin/bootstrap.jar"])
    );
}

#[test]
fn java_classpath_of_quarkus_and_kafka() {
    let p = process(
        "java",
        &[
            "java",
            "-cp",
            "lib/a.jar:lib/main/io.quarkus.quarkus-core-3.2.jar:lib/b.jar",
            "io.quarkus.bootstrap.runner.QuarkusEntryPoint",
        ],
        Some("/deployments"),
        &[],
    );
    assert_eq!(
        (Java {}).can_apply_to(&config(), &out(), &p, &Vec::new()),
        command(&[
            "./fpr_java",
            "out/4711",
            "/deployments/lib/main/io.quarkus.quarkus-core-3.2.jar"
        ])
    );
    let p = process(
        "java",
        &["java", "-cp", "/opt/kafka/libs/zookeeper.jar:/opt/kafka/libs/kafka_2.13-3.5.0.jar", "kafka.Kafka", "server.properties"],
        None,
        &[],
    );
    assert_eq!(
        (Java {}).can_apply_to(&config(), &out(), &p, &Vec::new()),
        command(&["./fpr_java", "out/4711", "/opt/kafka/libs/kafka_2.13-3.5.0.jar"])
    );
}

#[test]
fn java_classpath_of_a_configured_application() {
    let p = process(
        "java",
        &["java", "-cp", "lib/x.jar:lib/example-core-1.0.jar", "org.example.Main"],
        Some("/app"),
        &[],
    );
    assert_eq!(
        (Java {}).can_apply_to(&config(), &out(), &p, &Vec::new()),
        command(&["./fpr_java", "out/4711", "/app/lib/example-core-1.0.jar"])
    );
    // the main class has to be an argument of its own
    let p = process(
        "java",
        &["java", "-cp", "lib/x.jar:lib/example-core-1.0.jar", "org.example.MainExtra"],
        Some("/app"),
        &[],
    );
    assert_eq!((Java {}).can_apply_to(&config(), &out(), &p, &Vec::new()), None);
    // an application without a known jar is found by the content of the jars
    let p = process(
        "java",
        &["java", "-cp", "jboss-modules.jar", "org.jboss.modules.Main"],
        Some("/app"),
        &[],
    );
    assert_eq!(
        Java::jars_to_inspect(&config(), &p),
        vec![Some(String::from("/app/jboss-modules.jar"))]
    );
    assert_eq!((Java {}).can_apply_to(&config(), &out(), &p, &Vec::new()), None);
    assert_eq!((Java {}).can_apply_to(&config(), &out(), &p, &vec![None]), None);
    assert_eq!(
        (Java {}).can_apply_to(&config(), &out(), &p, &vec![Some(b"no archive".to_vec())]),
        None
    );
    // no jar of that name on the class path
    let p = process("java", &["java", "-cp", "lib/x.jar", "org.example.Main"], Some("/app"), &[]);
    assert_eq!((Java {}).can_apply_to(&config(), &out(), &p, &Vec::new()), None);
}

#[test]
fn java_asks_for_jars_only_where_their_content_decides() {
    let none: Vec<Option<String>> = Vec::new();
    let p = process("java", &["java", "-jar", "/app/app.jar"], Some("/srv"), &[]);
    assert_eq!(Java::jars_to_inspect(&config(), &p), none);
    let p = process("java", &["java", "-cp", "a.jar:b.jar", "org.example.Main"], Some("/srv"), &[]);
    assert_eq!(Java::jars_to_inspect(&config(), &p), none);
    let p = process("node", &["node", "-cp", "a.jar", "org.jboss.modules.Main"], Some("/srv"), &[]);
    assert_eq!(Java::jars_to_inspect(&config(), &p), none);
    let p = process("java", &["java", "-cp", "a.jar:/opt/b.jar:", "org.jboss.modules.Main"], Some("/srv"), &[]);
    assert_eq!(
        Java::jars_to_inspect(&config(), &p),
        vec![
            Some(String::from("/srv/a.jar")),
            Some(String::from("/opt/b.jar")),
            Some(String::from("/srv/"))
        ]
    );
    let p = process("java", &["java", "-cp", "a.jar:/opt/b.jar", "org.jboss.modules.Main"], None, &[]);
    assert_eq!(Java::jars_to_inspect(&config(), &p), vec![None, Some(String::from("/opt/b.jar"))]);
    assert_eq!(Java::jar_path(&p, "a.jar"), None);
    assert_eq!(Java::jar_path(&p, "/a.jar"), Some(String::from("/a.jar")));
}

#[test]
fn java_jar_comes_before_the_classpath() {
    let p = process(
        "java",
        &["java", "-cp", "/opt/kafka/libs/kafka_2.13.jar", "kafka.Kafka", "-jar", "/app/app.jar"],
        None,
        &[],
    );
    assert_eq!(
        (Java {}).can_apply_to(&config(), &out(), &p, &Vec::new()),
        command(&["./fpr_java", "out/4711", "/app/app.jar"])
    );
}

#[test]
fn version_executable_matches_the_whole_name() {
    let p = process("node", &["/usr/bin/node", "server.js"], Some("/app"), &[]);
    assert_eq!(
        (VersionExecutable {}).can_apply_to(&config(), &out(), &p, &Vec::new()),
        command(&["./fpr_kind_executable", "/usr/bin/node", "Node.js", "out/4711"])
    );
    let p = process("nodexx", &["/usr/bin/nodexx", "server.js"], Some("/app"), &[]);
    assert_eq!((VersionExecutable {}).can_apply_to(&config(), &out(), &p, &Vec::new()), None);
    let p = process("nod", &["/usr/bin/nod"], Some("/app"), &[]);
    assert_eq!((VersionExecutable {}).can_apply_to(&config(), &out(), &p, &Vec::new()), None);
}

#[test]
fn version_executable_takes_the_first_kind() {
    let p = process("python3", &["python3", "app.py"], Some("/app"), &[]);
    assert_eq!(
        (VersionExecutable {}).can_apply_to(&config(), &out(), &p, &Vec::new()),
        command(&["./fpr_kind_executable", "python3", "Python", "out/4711"])
    );
}

#[test]
fn version_executable_falls_back_to_java() {
    let p = process(
        "java",
        &["/usr/lib/jvm/bin/java", "-jar", "app.jar"],
        Some("/app"),
        &["PATH=/usr/bin:/bin", "JAVA_HOME=/usr/lib/jvm", "HOME=/root"],
    );
    assert_eq!(
        (VersionExecutable {}).can_apply_to(&config(), &out(), &p, &Vec::new()),
        command(&["./fpr_java_version", "out/4711", "/usr/bin:/bin", "/usr/lib/jvm"])
    );
    let p = process("java", &["java"], Some("/app"), &["PATH=/usr/bin:/bin"]);
    assert_eq!(
        (VersionExecutable {}).can_apply_to(&config(), &out(), &p, &Vec::new()),
        command(&["./fpr_java_version", "out/4711", "/usr/bin:/bin", ""])
    );
    let p = process("java", &["java"], Some("/app"), &[]);
    assert_eq!(
        (VersionExecutable {}).can_apply_to(&config(), &out(), &p, &Vec::new()),
        command(&["./fpr_java_version", "out/4711", "", ""])
    );
}

#[test]
fn version_executable_needs_a_command_line() {
    let p = process("node", &[], Some("/app"), &[]);
    assert_eq!((VersionExecutable {}).can_apply_to(&config(), &out(), &p, &Vec::new()), None);
    let p = process("sleep", &["sleep", "10"], Some("/app"), &[]);
    assert_eq!((VersionExecutable {}).can_apply_to(&config(), &out(), &p, &Vec::new()), None);
}

#[test]
fn os_applies_to_every_process() {
    let p = process("anything", &[], None, &[]);
    assert_eq!((Os {}).can_apply_to(&config(), &out(), &p, &Vec::new()), command(&["./fpr_os", "out/4711"]));
}

#[test]
fn native_executable_applies_to_the_rest() {
    let p = process("server", &["/app/server", "--port", "80"], Some("/app"), &[]);
    assert!(!is_version_executable(&p));
    assert_eq!(
        (NativeExecutable {}).can_apply_to(&config(), &out(), &p, &Vec::new()),
        command(&["./fpr_native_executable", "out/4711", "/app", "/app/server"])
    );
    let p = process("server", &["/app/server"], None, &[]);
    assert_eq!((NativeExecutable {}).can_apply_to(&config(), &out(), &p, &Vec::new()), None);
    let p = process("server", &[], Some("/app"), &[]);
    assert_eq!((NativeExecutable {}).can_apply_to(&config(), &out(), &p, &Vec::new()), None);
}

#[test]
fn native_executable_leaves_runtimes_alone() {
    for (name, command_line) in [
        ("node", vec!["server"]),
        ("mynode", vec!["server"]),
        ("x", vec!["/usr/bin/python3.11"]),
        ("x", vec!["/opt/java/bin/x"]),
    ] {
        let p = process(name, &command_line, Some("/app"), &[]);
        assert!(is_version_executable(&p), "{} {:?}", name, command_line);
        assert_eq!((NativeExecutable {}).can_apply_to(&config(), &out(), &p, &Vec::new()), None);
    }
    let p = process("nodexx", &[], Some("/app"), &[]);
    assert!(!is_version_executable(&p));
    let p = process("node", &[], Some("/app"), &[]);
    assert!(is_version_executable(&p));
}

#[test]
fn the_detectors_are_asked_in_order() {
    let all = fingerprints();
    assert_eq!(all.len(), 4);
    assert!(matches!(all[0], Detector::Os(_)));
    assert!(matches!(all[1], Detector::VersionExecutable(_)));
    assert!(matches!(all[2], Detector::Java(_)));
    assert!(matches!(all[3], Detector::NativeExecutable(_)));

    let p = process(
        "java",
        &["java", "-jar", "app.jar"],
        Some("/srv"),
        &["PATH=/usr/bin", "JAVA_HOME=/opt/jdk"],
    );
    assert_eq!(
        run_fingerprints(&config(), &out(), &p, &Vec::new()),
        vec![
            vec!["./fpr_os", "out/4711"],
            vec!["./fpr_java_version", "out/4711", "/usr/bin", "/opt/jdk"],
            vec!["./fpr_java", "out/4711", "/srv/app.jar"],
        ]
    );
    let p = process("server", &["/app/server"], Some("/app"), &[]);
    assert_eq!(
        run_fingerprints(&config(), &out(), &p, &Vec::new()),
        vec![
            vec!["./fpr_os", "out/4711"],
            vec!["./fpr_native_executable", "out/4711", "/app", "/app/server"],
        ]
    );
    let p = process("gone", &[], None, &[]);
    assert_eq!(run_fingerprints(&config(), &out(), &p, &Vec::new()), vec![vec!["./fpr_os", "out/4711"]]);
}

#[test]
fn the_environment_is_read_from_its_texts() {
    let envs: Vec<String> =
        ["PATH=/usr/bin", "EMPTY=", "no separator", "A=b=c", "PATH=/bin", "=x"]
            .iter()
            .map(|e| e.to_string())
            .collect();
    let environ: Entries = get_environ_hashmap(&envs);
    assert_eq!(
        environ.to_vec(),
        vec![
            (String::new(), String::from("x")),
            (String::from("A"), String::from("b=c")),
            (String::from("EMPTY"), String::new()),
            (String::from("PATH"), String::from("/bin")),
        ]
    );
}
