use insights_runtime_extractor::config::{Config, Fingerprints, JavaFingerprint};
use insights_runtime_extractor::entries::Entries;
use insights_runtime_extractor::fingerprint::java::Java;
use insights_runtime_extractor::fingerprint::{run_fingerprints, FingerPrint};
use insights_runtime_extractor::process::ContainerProcess;
use insights_runtime_extractor::file::ManifestError;
use insights_runtime_extractor::jar::{
    class_file_name, get_jar_manifest, jar_contains_class, jar_member, lists_class, read_manifest,
};
use insights_runtime_extractor::java_manifest::{
    application_from_main_class, class_path_jars, java_fingerprints, kafka_from_file_name,
    kafka_from_title, text_after_last, text_before_first,
};

fn crc32(data: &[u8]) -> u32 {
    let mut crc: u32 = 0xffff_ffff;
    for byte in data {
        crc ^= *byte as u32;
        for _ in 0..8 {
            crc = if crc & 1 == 1 { (crc >> 1) ^ 0xedb8_8320 } else { crc >> 1 };
        }
    }
    !crc
}

fn packed(data: &[u8], deflate: bool) -> Vec<u8> {
    if !deflate {
        return data.to_vec();
    }
    // one block of deflate that holds the data as they are
    let mut out = vec![0x01];
    out.extend((data.len() as u16).to_le_bytes());
    out.extend((!(data.len() as u16)).to_le_bytes());
    out.extend(data);
    out
}

fn zip(entries: &[(&str, &[u8], bool)]) -> Vec<u8> {
    let mut out: Vec<u8> = Vec::new();
    let mut directory: Vec<u8> = Vec::new();
    for (name, data, deflate) in entries {
        let offset = out.len() as u32;
        let body = packed(data, *deflate);
        let method: u16 = if *deflate { 8 } else { 0 };
        let mut header: Vec<u8> = Vec::new();
        header.extend(20u16.to_le_bytes()); // version needed
        header.extend(0u16.to_le_bytes()); // flags
        header.extend(method.to_le_bytes());
        header.extend(0u16.to_le_bytes()); // time
        header.extend(0x21u16.to_le_bytes()); // date
        header.extend(crc32(data).to_le_bytes());
        header.extend((body.len() as u32).to_le_bytes());
        header.extend((data.len() as u32).to_le_bytes());
        header.extend((name.len() as u16).to_le_bytes());
        header.extend(0u16.to_le_bytes()); // extra

        out.extend(0x0403_4b50u32.to_le_bytes());
        out.extend(&header);
        out.extend(name.as_bytes());
        out.extend(&body);

        directory.extend(0x0201_4b50u32.to_le_bytes());
        directory.extend(20u16.to_le_bytes()); // version made by
        directory.extend(&header);
        directory.extend(0u16.to_le_bytes()); // comment
        directory.extend(0u16.to_le_bytes()); // disk
        directory.extend(0u16.to_le_bytes()); // internal attributes
        directory.extend(0u32.to_le_bytes()); // external attributes
        directory.extend(offset.to_le_bytes());
        directory.extend(name.as_bytes());
    }
    let start = out.len() as u32;
    out.extend(&directory);
    out.extend(0x0605_4b50u32.to_le_bytes());
    out.extend(0u16.to_le_bytes());
    out.extend(0u16.to_le_bytes());
    out.extend((entries.len() as u16).to_le_bytes());
    out.extend((entries.len() as u16).to_le_bytes());
    out.extend((directory.len() as u32).to_le_bytes());
    out.extend(start.to_le_bytes());
    out.extend(0u16.to_le_bytes());
    out
}

fn jar(manifest: &str, classes: &[&str]) -> Vec<u8> {
    let mut entries: Vec<(&str, &[u8], bool)> = vec![
        ("META-INF/", b"", false),
        ("META-INF/MANIFEST.MF", manifest.as_bytes(), true),
    ];
    for class in classes {
        entries.push((class, b"\xca\xfe\xba\xbe", false));
    }
    zip(&entries)
}

fn manifest(items: &[(&str, &str)]) -> Entries {
    Entries::from_pairs(items.iter().map(|(k, v)| (k.to_string(), v.to_string())).collect())
}

fn owned(items: &[(&str, &str)]) -> Vec<(String, String)> {
    items.iter().map(|(k, v)| (k.to_string(), v.to_string())).collect()
}

fn applications() -> Vec<JavaFingerprint> {
    vec![
        JavaFingerprint {
            runtime_name: String::from("Spring Boot"),
            main_class: String::from("org.springframework.boot.loader.JarLauncher"),
            main_jar: None,
            read_manifest_of_executable_jar: true,
            jar_version_manifest_entry: String::from("Spring-Boot-Version"),
        },
        JavaFingerprint {
            runtime_name: String::from("Quarkus"),
            main_class: String::from("io.quarkus.bootstrap.runner.QuarkusEntryPoint"),
            main_jar: None,
            read_manifest_of_executable_jar: false,
            jar_version_manifest_entry: String::from("Implementation-Version"),
        },
    ]
}

#[test]
fn the_manifest_of_a_jar_is_read() {
    let archive = jar("Manifest-Version: 1.0\r\nMain-Class: org.example.Main\r\n\r\n", &[]);
    let entries = get_jar_manifest(&Some(archive.clone())).expect("manifest");
    assert_eq!(
        entries.to_vec(),
        owned(&[("Main-Class", "org.example.Main"), ("Manifest-Version", "1.0")])
    );
}

#[test]
fn a_member_is_unpacked() {
    let archive = zip(&[("a.txt", b"stored", false), ("b/c.txt", b"packed", true), ("a.txt", b"second", false)]);
    assert_eq!(jar_member(&archive, "a.txt"), Some(b"stored".to_vec()));
    assert_eq!(jar_member(&archive, "b/c.txt"), Some(b"packed".to_vec()));
    assert_eq!(jar_member(&archive, "c.txt"), None);
    assert_eq!(jar_member(&archive, ""), None);
}

#[test]
fn a_corrupt_archive_has_no_attributes() {
    assert!(get_jar_manifest(&Some(Vec::new())).expect("no error").is_empty());
    assert!(get_jar_manifest(&Some(b"this is no archive".to_vec())).expect("no error").is_empty());
    let archive = jar("Main-Class: org.example.Main\n", &[]);
    let cut = archive[..archive.len() - 7].to_vec();
    assert!(get_jar_manifest(&Some(cut.clone())).expect("no error").is_empty());
    assert!(!jar_contains_class(&cut, "org.example.Main"));
    assert_eq!(jar_member(&cut, "META-INF/MANIFEST.MF"), None);
}

#[test]
fn an_archive_that_could_not_be_read_has_no_attributes() {
    assert!(get_jar_manifest(&None).expect("no error").is_empty());
}

#[test]
fn an_archive_without_manifest_has_no_attributes() {
    let archive = zip(&[("org/example/Main.class", b"\xca\xfe", false)]);
    assert!(get_jar_manifest(&Some(archive.clone())).expect("no error").is_empty());
    assert!(get_jar_manifest(&Some(zip(&[]))).expect("no error").is_empty());
}

#[test]
fn a_header_outside_the_archive_is_not_followed() {
    let mut archive = zip(&[("META-INF/MANIFEST.MF", b"Key: value\n", false)]);
    // the offset of the local header stands 42 bytes into the directory entry
    let directory = archive.len() - 22 - (46 + "META-INF/MANIFEST.MF".len());
    archive[directory + 42..directory + 46].copy_from_slice(&0x00ff_ffffu32.to_le_bytes());
    assert_eq!(jar_member(&archive, "META-INF/MANIFEST.MF"), None);
    assert!(get_jar_manifest(&Some(archive.clone())).expect("no error").is_empty());
}

#[test]
fn a_manifest_that_is_no_text_is_an_error() {
    let archive = zip(&[("META-INF/MANIFEST.MF", &[b'K', b':', 0xff, 0xfe], false)]);
    assert_eq!(get_jar_manifest(&Some(archive.clone())).err(), Some(ManifestError::NotText));
    assert_eq!(read_manifest(Some(vec![0xc3])).err(), Some(ManifestError::NotText));
    let archive = zip(&[("META-INF/MANIFEST.MF", b" orphan\n", false)]);
    assert_eq!(get_jar_manifest(&Some(archive.clone())).err(), Some(ManifestError::ContinuationWithoutKey));
    assert!(read_manifest(None).expect("no manifest").is_empty());
    assert_eq!(
        read_manifest(Some(b"K\xc3\xa9y: v".to_vec())).expect("manifest").to_vec(),
        owned(&[("Kéy", "v")])
    );
}

#[test]
fn a_class_is_looked_for_by_its_file() {
    let archive = jar("Manifest-Version: 1.0\n", &["org/example/Main.class", "org/example/Other.class"]);
    assert!(jar_contains_class(&archive, "org.example.Main"));
    assert!(jar_contains_class(&archive, "org.example.Other"));
    assert!(!jar_contains_class(&archive, "org.example.Missing"));
    assert!(!jar_contains_class(&archive, "org.example"));
    assert!(!jar_contains_class(&archive, "Main"));
    assert!(!jar_contains_class(&b"no archive".to_vec(), "org.example.Main"));
    assert_eq!(class_file_name("org.example.Main"), "org/example/Main.class");
    assert_eq!(class_file_name("Main"), "Main.class");
    assert_eq!(class_file_name(""), ".class");
    let names = vec![String::from("a/B.class"), String::from("META-INF/MANIFEST.MF")];
    assert!(lists_class(&names, "a.B"));
    assert!(!lists_class(&names, "a.b"));
}

#[test]
fn kafka_is_known_by_its_title() {
    let m = manifest(&[
        ("Implementation-Title", "kafka_2.13"),
        ("Implementation-Version", "3.5.0"),
    ]);
    assert_eq!(kafka_from_title(&m), Some((String::from("Kafka 2.13"), String::from("3.5.0"))));
    let m = manifest(&[("Implementation-Title", "kafka_2.13")]);
    assert_eq!(kafka_from_title(&m), None);
    let m = manifest(&[("Implementation-Title", "Kafka_2.13"), ("Implementation-Version", "1")]);
    assert_eq!(kafka_from_title(&m), None);
    let m = manifest(&[("Implementation-Title", "kafka_a_b"), ("Implementation-Version", "1")]);
    assert_eq!(kafka_from_title(&m), Some((String::from("Kafka b"), String::from("1"))));
    let m = manifest(&[("Implementation-Version", "1")]);
    assert_eq!(kafka_from_title(&m), None);
}

#[test]
fn kafka_is_known_by_the_name_of_its_jar() {
    let m = manifest(&[("Version", "3.5.0")]);
    assert_eq!(
        kafka_from_file_name(&m, "/opt/kafka/libs/kafka_2.13-3.5.0.jar"),
        Some((String::from("Kafka 2.13"), String::from("3.5.0")))
    );
    assert_eq!(
        kafka_from_file_name(&m, "kafka_2.12.jar"),
        Some((String::from("Kafka 2.12.jar"), String::from("3.5.0")))
    );
    assert_eq!(kafka_from_file_name(&m, "/opt/kafka_2.13/libs/zookeeper.jar"), None);
    assert_eq!(kafka_from_file_name(&m, "/opt/kafka/libs/kafka_-3.5.0.jar"), None);
    assert_eq!(kafka_from_file_name(&manifest(&[]), "/opt/kafka/libs/kafka_2.13-3.5.0.jar"), None);
    assert_eq!(text_after_last("a_b_c", '_'), "c");
    assert_eq!(text_after_last("abc", '_'), "abc");
    assert_eq!(text_after_last("abc_", '_'), "");
    assert_eq!(text_before_first("2.13-3.5.0.jar", '-'), "2.13");
    assert_eq!(text_before_first("2.13", '-'), "2.13");
    assert_eq!(text_before_first("-x", '-'), "");
}

#[test]
fn a_configured_application_is_known_by_its_main_class() {
    let m = manifest(&[
        ("Main-Class", "org.springframework.boot.loader.JarLauncher"),
        ("Spring-Boot-Version", "3.1.4"),
        ("Class-Path", "lib/a.jar"),
    ]);
    assert_eq!(class_path_jars(&m, "/app/app.jar", &applications()), Vec::<String>::new());
    assert_eq!(
        application_from_main_class(&m, &applications(), &Vec::new()),
        Some((String::from("Spring Boot"), String::from("3.1.4")))
    );
    assert_eq!(
        java_fingerprints(&m, "/app/app.jar", &applications(), &Vec::new()).to_vec(),
        owned(&[("Spring Boot", "3.1.4")])
    );
    let m = manifest(&[("Main-Class", "org.springframework.boot.loader.JarLauncher")]);
    assert_eq!(application_from_main_class(&m, &applications(), &Vec::new()), None);
    let m = manifest(&[("Main-Class", "org.example.Main"), ("Spring-Boot-Version", "3.1.4")]);
    assert_eq!(application_from_main_class(&m, &applications(), &Vec::new()), None);
    assert!(java_fingerprints(&m, "/app/app.jar", &applications(), &Vec::new()).is_empty());
}

#[test]
fn the_version_comes_from_the_jar_that_holds_the_main_class() {
    let m = manifest(&[
        ("Main-Class", "io.quarkus.bootstrap.runner.QuarkusEntryPoint"),
        ("Class-Path", "lib/boot/a.jar /opt/shared/b.jar lib/main/runner.jar"),
        ("Implementation-Version", "1.0.0-app"),
    ]);
    assert_eq!(
        class_path_jars(&m, "/deployments/quarkus-run.jar", &applications()),
        vec![
            "/deployments/lib/boot/a.jar",
            "/opt/shared/b.jar",
            "/deployments/lib/main/runner.jar"
        ]
    );
    assert_eq!(
        class_path_jars(&m, "quarkus-run.jar", &applications()),
        vec!["lib/boot/a.jar", "/opt/shared/b.jar", "lib/main/runner.jar"]
    );
    let other = jar("Implementation-Version: 9.9.9\n", &["org/example/Other.class"]);
    let runner = jar(
        "Implementation-Version: 3.2.1\n",
        &["io/quarkus/bootstrap/runner/QuarkusEntryPoint.class"],
    );
    let silent = jar("Manifest-Version: 1.0\n", &["io/quarkus/bootstrap/runner/QuarkusEntryPoint.class"]);

    let members = vec![Some(other.clone()), None, Some(runner.clone())];
    assert_eq!(
        java_fingerprints(&m, "/deployments/quarkus-run.jar", &applications(), &members).to_vec(),
        owned(&[("Quarkus", "3.2.1")])
    );
    // the last jar that tells a version counts
    let older = jar(
        "Implementation-Version: 3.0.0\n",
        &["io/quarkus/bootstrap/runner/QuarkusEntryPoint.class"],
    );
    let members = vec![Some(runner.clone()), Some(older), Some(silent.clone())];
    assert_eq!(
        application_from_main_class(&m, &applications(), &members),
        Some((String::from("Quarkus"), String::from("3.0.0")))
    );
    let members = vec![Some(other), None, Some(silent), Some(b"broken".to_vec())];
    assert_eq!(application_from_main_class(&m, &applications(), &members), None);
    assert_eq!(application_from_main_class(&m, &applications(), &Vec::new()), None);
}

#[test]
fn the_title_comes_before_the_name_of_the_jar() {
    let m = manifest(&[
        ("Implementation-Title", "kafka_2.13"),
        ("Implementation-Version", "3.5.0"),
        ("Version", "3.4.9"),
        ("Main-Class", "org.springframework.boot.loader.JarLauncher"),
        ("Spring-Boot-Version", "3.1.4"),
    ]);
    assert_eq!(
        java_fingerprints(&m, "/opt/kafka/libs/kafka_2.13-3.5.0.jar", &applications(), &Vec::new())
            .to_vec(),
        owned(&[("Kafka 2.13", "3.5.0"), ("Spring Boot", "3.1.4")])
    );
    assert_eq!(
        java_fingerprints(&m, "/opt/kafka/libs/kafka_2.12-3.5.0.jar", &applications(), &Vec::new())
            .to_vec(),
        owned(&[("Kafka 2.12", "3.4.9"), ("Kafka 2.13", "3.5.0"), ("Spring Boot", "3.1.4")])
    );
}

#[test]
fn a_jar_of_the_class_path_is_found_by_its_content() {
    let config = Config {
        fingerprints: Fingerprints { versioned_executables: Vec::new(), java: applications() },
    };
    let process = ContainerProcess {
        pid: 4711,
        uid: 1000,
        name: String::from("java"),
        command_line: ["java", "-cp", "lib/a.jar:lib/b.jar:/opt/c.jar", "io.quarkus.bootstrap.runner.QuarkusEntryPoint"]
            .iter()
            .map(|a| a.to_string())
            .collect(),
        cwd: Some(String::from("/deployments")),
        environ: Entries::new(),
    };
    let out = String::from("out/4711");
    assert_eq!(
        Java::jars_to_inspect(&config, &process),
        vec![
            Some(String::from("/deployments/lib/a.jar")),
            Some(String::from("/deployments/lib/b.jar")),
            Some(String::from("/opt/c.jar")),
        ]
    );
    let other = jar("Manifest-Version: 1.0\n", &["org/example/Other.class"]);
    let runner = jar("Manifest-Version: 1.0\n", &["io/quarkus/bootstrap/runner/QuarkusEntryPoint.class"]);

    let jars = vec![Some(other.clone()), None, Some(runner.clone())];
    assert_eq!(
        (Java {}).can_apply_to(&config, &out, &process, &jars),
        Some(vec![
            String::from("./fpr_java"),
            String::from("out/4711"),
            String::from("/opt/c.jar")
        ])
    );
    // the first jar that holds the class counts
    let jars = vec![Some(other.clone()), Some(runner.clone()), Some(runner.clone())];
    assert_eq!(
        (Java {}).can_apply_to(&config, &out, &process, &jars),
        Some(vec![
            String::from("./fpr_java"),
            String::from("out/4711"),
            String::from("/deployments/lib/b.jar")
        ])
    );
    assert_eq!(
        run_fingerprints(&config, &out, &process, &jars),
        vec![
            vec!["./fpr_os", "out/4711"],
            vec!["./fpr_java_version", "out/4711", "", ""],
            vec!["./fpr_java", "out/4711", "/deployments/lib/b.jar"],
        ]
    );
    // no jar holds the class, or fewer jars were read than the class path has
    let jars = vec![Some(other.clone()), Some(other), None];
    assert_eq!((Java {}).can_apply_to(&config, &out, &process, &jars), None);
    assert_eq!((Java {}).can_apply_to(&config, &out, &process, &vec![None, None]), None);
    assert_eq!((Java {}).can_apply_to(&config, &out, &process, &Vec::new()), None);
    // more jars than the class path has: those beyond it do not count
    let jars = vec![None, None, None, Some(runner)];
    assert_eq!((Java {}).can_apply_to(&config, &out, &process, &jars), None);
}
