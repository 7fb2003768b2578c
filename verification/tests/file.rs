use insights_runtime_extractor::entries::Entries;
use insights_runtime_extractor::file::{
    find_executable_in_path, get_executable_version_output, read_jar_manifest_content,
    read_key_value_file, render_entries, write_entries, write_fingerprint, ManifestError,
    VersionError,
};

fn pairs(entries: &Entries) -> Vec<(String, String)> {
    entries.to_vec()
}

fn owned(items: &[(&str, &str)]) -> Vec<(String, String)> {
    items.iter().map(|(k, v)| (k.to_string(), v.to_string())).collect()
}

#[test]
fn it_write_fingerprint() {
    let mut entries = Entries::new();
    entries.insert(String::from("foo"), String::from("value1"));
    entries.insert(String::from("bar"), String::from("value2"));

    let file = write_entries("test.txt", &entries).expect("wrote fingerprints");

    assert_eq!(file.name, "test.txt");
    // map is stored in natural order
    assert_eq!(
        file.content,
        "\
bar=value2
foo=value1
"
        .to_string()
    );
}

#[test]
fn file_it_write_fingerprint() {
    let mut entries = Entries::new();
    entries.insert(String::from("foo"), String::from("value1"));
    entries.insert(String::from("bar"), String::from("value2"));

    let file = write_fingerprint("test", &entries).expect("wrote fingerprints");

    assert_eq!(file.name, "test-fingerprints.txt");
    // map is stored in natural order
    assert_eq!(
        file.content,
        "\
bar=value2
foo=value1
"
        .to_string()
    );
}

#[test]
fn nothing_is_written_without_entries() {
    let entries = Entries::new();
    assert_eq!(write_entries("os.txt", &entries), None);
    assert_eq!(write_fingerprint("java", &entries), None);
    assert_eq!(render_entries(&entries), "");
}

#[test]
fn nothing_is_written_without_prefix() {
    let mut entries = Entries::new();
    entries.insert(String::from("foo"), String::from("value1"));
    assert_eq!(write_fingerprint("", &entries), None);
    assert!(write_entries("", &entries).is_some());
}

#[test]
fn keys_are_written_in_byte_order() {
    let mut entries = Entries::new();
    for key in ["b", "a", "B", "ab", "é", "a-", "~", "", "Z"] {
        entries.insert(key.to_string(), String::from("x"));
    }
    let mut sorted: Vec<String> =
        ["b", "a", "B", "ab", "é", "a-", "~", "", "Z"].iter().map(|k| k.to_string()).collect();
    sorted.sort();
    let expected: String = sorted.iter().map(|k| format!("{}=x\n", k)).collect();
    assert_eq!(render_entries(&entries), expected);
}

#[test]
fn written_then_read_gives_the_same_mapping() {
    let mut entries = Entries::new();
    entries.insert(String::from("runtime-kind"), String::from("Java"));
    entries.insert(String::from("runtime-kind-version"), String::from("17.0.1"));
    entries.insert(String::from("empty"), String::from(""));
    entries.insert(String::from("with=equals"), String::from("x"));
    entries.insert(String::from("expr"), String::from("a=b=c"));
    entries.insert(String::from("inner space"), String::from("Red Hat, Inc."));
    entries.insert(String::from("inner\"quote"), String::from("a\"b"));

    // every key but one is plain: that one does not come back
    let back = read_key_value_file(&render_entries(&entries));
    assert_ne!(pairs(&back), pairs(&entries));

    let mut plain = Entries::new();
    for (key, value) in pairs(&entries) {
        if key != "with=equals" {
            plain.insert(key, value);
        }
    }
    let back = read_key_value_file(&render_entries(&plain));
    assert_eq!(pairs(&back), pairs(&plain));
}

#[test]
fn the_order_of_insertion_does_not_matter() {
    let mut one = Entries::new();
    one.insert(String::from("a"), String::from("1"));
    one.insert(String::from("b"), String::from("2"));
    one.insert(String::from("c"), String::from("3"));
    let mut other = Entries::new();
    other.insert(String::from("c"), String::from("3"));
    other.insert(String::from("a"), String::from("0"));
    other.insert(String::from("b"), String::from("2"));
    other.insert(String::from("a"), String::from("1"));
    assert_eq!(render_entries(&one), render_entries(&other));
    assert_eq!(pairs(&read_key_value_file(&render_entries(&other))), pairs(&one));
}

#[test]
fn a_value_with_a_line_feed_does_not_come_back() {
    let mut entries = Entries::new();
    entries.insert(String::from("a"), String::from("1\nb=2"));
    let back = read_key_value_file(&render_entries(&entries));
    assert_eq!(pairs(&back), owned(&[("a", "1"), ("b", "2")]));
}

#[test]
fn reads_an_os_release_file() {
    let content = "NAME=\"Red Hat Enterprise Linux\"\nVERSION=\"9.3 (Plow)\"\nID=\"rhel\"\nVERSION_ID=\"9.3\"\n# a comment\n\nHOME_URL=https://www.redhat.com/\n";
    let entries = read_key_value_file(content);
    assert_eq!(
        pairs(&entries),
        owned(&[
            ("HOME_URL", "https://www.redhat.com/"),
            ("ID", "rhel"),
            ("NAME", "Red Hat Enterprise Linux"),
            ("VERSION", "9.3 (Plow)"),
            ("VERSION_ID", "9.3"),
        ])
    );
    assert_eq!(entries.get("ID"), Some(&String::from("rhel")));
    assert_eq!(entries.get("MISSING"), None);
    assert!(entries.contains_key("NAME"));
    assert_eq!(entries.len(), 5);
}

#[test]
fn values_are_trimmed_and_unquoted() {
    let entries = read_key_value_file("  key \t=  \"value\"  \r\nother = plain text \n");
    assert_eq!(pairs(&entries), owned(&[("key", "value"), ("other", "plain text")]));
}

#[test]
fn quotes_inside_white_space_stay_outside_quotes() {
    // the white space goes first, then the quotes: what the quotes held stays
    let entries = read_key_value_file("k=\" a \"\n");
    assert_eq!(pairs(&entries), owned(&[("k", " a ")]));
}

#[test]
fn the_first_equals_sign_splits() {
    let entries = read_key_value_file("k=a=b\n=v\nno separator\nlast=1");
    assert_eq!(pairs(&entries), owned(&[("", "v"), ("k", "a=b"), ("last", "1")]));
}

#[test]
fn the_last_line_of_a_key_counts() {
    let entries = read_key_value_file("k=1\nk=2\n");
    assert_eq!(pairs(&entries), owned(&[("k", "2")]));
}

#[test]
fn an_empty_text_holds_nothing() {
    assert!(read_key_value_file("").is_empty());
    assert!(read_key_value_file("\n\n").is_empty());
}

#[test]
fn manifest_folding() {
    let manifest = read_jar_manifest_content("Key: part1\n part2").expect("manifest");
    assert_eq!(pairs(&manifest), owned(&[("Key", "part1part2")]));
}

#[test]
fn a_continuation_never_starts_a_key() {
    let manifest =
        read_jar_manifest_content("Class-Path: lib/a.jar lib/b\n .jar lib/c: d.jar\nOther: x\n")
            .expect("manifest");
    assert_eq!(
        pairs(&manifest),
        owned(&[("Class-Path", "lib/a.jar lib/b.jar lib/c: d.jar"), ("Other", "x")])
    );
}

#[test]
fn reads_a_manifest() {
    let content = "Manifest-Version: 1.0\r\nImplementation-Title: kafka_2.13\r\nImplementation-Version: 3.5.0\r\nMain-Class: \"org.example.Main\"\r\n\r\n";
    let manifest = read_jar_manifest_content(content).expect("manifest");
    assert_eq!(
        pairs(&manifest),
        owned(&[
            ("Implementation-Title", "kafka_2.13"),
            ("Implementation-Version", "3.5.0"),
            ("Main-Class", "org.example.Main"),
            ("Manifest-Version", "1.0"),
        ])
    );
}

#[test]
fn a_line_without_colon_continues_the_last_key() {
    let manifest = read_jar_manifest_content("Key: a\nb\nKey2: c\n\n d\n").expect("manifest");
    assert_eq!(pairs(&manifest), owned(&[("Key", "ab"), ("Key2", "cd")]));
}

#[test]
fn a_manifest_cannot_begin_with_a_continuation() {
    assert_eq!(
        read_jar_manifest_content(" part\nKey: value\n").err(),
        Some(ManifestError::ContinuationWithoutKey)
    );
    assert_eq!(
        read_jar_manifest_content("\nKey: value\n").err(),
        Some(ManifestError::ContinuationWithoutKey)
    );
    assert!(read_jar_manifest_content("").expect("empty manifest").is_empty());
}

#[test]
fn the_version_is_what_was_printed() {
    assert_eq!(get_executable_version_output(true, b"  v20.11.0\n"), Ok(String::from("v20.11.0")));
    assert_eq!(get_executable_version_output(true, b""), Ok(String::new()));
    assert_eq!(
        get_executable_version_output(false, b"v20.11.0\n"),
        Err(VersionError::CommandFailed)
    );
    assert_eq!(get_executable_version_output(true, &[0xff, 0xfe]), Err(VersionError::NoOutput));
    assert_eq!(
        get_executable_version_output(false, &[0xff, 0xfe]),
        Err(VersionError::CommandFailed)
    );
}

#[test]
fn an_executable_is_looked_for_along_the_path() {
    assert_eq!(
        find_executable_in_path("java", "/usr/local/bin:/usr/bin/::bin"),
        vec!["/usr/local/bin/java", "/usr/bin/java", "java", "bin/java"]
    );
    assert_eq!(find_executable_in_path("java", ""), vec!["java"]);
    assert_eq!(find_executable_in_path("/opt/java", "/usr/bin"), vec!["/opt/java"]);
}

#[test]
fn an_entry_can_be_taken_out() {
    let mut entries = Entries::new();
    entries.insert(String::from("b"), String::from("2"));
    entries.insert(String::from("a"), String::from("1"));
    entries.insert(String::from("c"), String::from("3"));
    assert_eq!(entries.remove("b"), Some(String::from("2")));
    assert_eq!(entries.remove("b"), None);
    assert_eq!(entries.remove("z"), None);
    assert_eq!(pairs(&entries), owned(&[("a", "1"), ("c", "3")]));
    assert_eq!(entries.remove("a"), Some(String::from("1")));
    assert_eq!(entries.remove("c"), Some(String::from("3")));
    assert!(entries.is_empty());
}
