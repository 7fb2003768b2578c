use insights_runtime_extractor::decimal::{decimal_string, parse_text};
use insights_runtime_extractor::order::{rank, Rank};
use insights_runtime_extractor::text::{
    chars_of, clean_bounds, file_name_of, is_space_char, join_all, join_path, lines_of, parent_of,
    split_text, string_of, substring, text_contains, text_ends_with, text_starts_with,
    trim_bounds, unquote_bounds,
};

fn trimmed(s: &str) -> String {
    let chars = chars_of(s);
    let (a, b) = trim_bounds(&chars, 0, chars.len());
    substring(&chars, a, b)
}

fn unquoted(s: &str) -> String {
    let chars = chars_of(s);
    let (a, b) = unquote_bounds(&chars, 0, chars.len());
    substring(&chars, a, b)
}

fn cleaned(s: &str) -> String {
    let chars = chars_of(s);
    let (a, b) = clean_bounds(&chars, 0, chars.len());
    substring(&chars, a, b)
}

fn lines(s: &str) -> Vec<String> {
    lines_of(&chars_of(s)).iter().map(string_of).collect()
}

fn pieces(s: &str, c: char) -> Vec<String> {
    split_text(&chars_of(s), c).iter().map(string_of).collect()
}

const SAMPLES: [&str; 16] = [
    "",
    "a",
    "\n",
    "a\nb",
    "a\nb\n",
    "a\r\nb\r\n",
    "a\r",
    "\r\n\r\n",
    "a\n\nb",
    "  a b  ",
    "\u{a0}x\u{3000}",
    "\"quoted\"",
    " \" both \" ",
    "k=v",
    "é=ü\nß",
    "\t\u{2003}tabs\u{85}",
];

#[test]
fn white_space_is_that_of_unicode() {
    for u in 0..=0x10ffffu32 {
        if let Some(c) = char::from_u32(u) {
            assert_eq!(is_space_char(c), c.is_whitespace(), "U+{:04X}", u);
        }
    }
}

#[test]
fn characters_and_strings_convert_both_ways() {
    for s in SAMPLES {
        let chars = chars_of(s);
        assert_eq!(chars, s.chars().collect::<Vec<char>>());
        assert_eq!(string_of(&chars), s);
    }
    let chars = chars_of("héllo");
    assert_eq!(substring(&chars, 1, 3), "él");
    assert_eq!(substring(&chars, 2, 2), "");
}

#[test]
fn trimming_is_that_of_str() {
    for s in SAMPLES {
        assert_eq!(trimmed(s), s.trim());
        assert_eq!(unquoted(s), s.trim_matches('"'));
        assert_eq!(cleaned(s), s.trim().trim_matches('"'));
    }
}

#[test]
fn lines_are_those_of_str() {
    for s in SAMPLES {
        assert_eq!(lines(s), s.lines().collect::<Vec<&str>>(), "{:?}", s);
    }
}

#[test]
fn pieces_are_those_of_str() {
    for s in SAMPLES {
        for c in [' ', ':', '=', '\n', 'a'] {
            assert_eq!(pieces(s, c), s.split(c).collect::<Vec<&str>>(), "{:?} {:?}", s, c);
        }
    }
    assert_eq!(pieces("a:b::c:", ':'), vec!["a", "b", "", "c", ""]);
}

#[test]
fn searching_is_that_of_str() {
    let needles = ["", "a", "b\n", "java", "ava", "jav", "é", "node"];
    let texts = ["", "a", "java", "/usr/bin/java", "javac", "a\nb\n", "nodexx", "node", "café"];
    for t in texts {
        for n in needles {
            assert_eq!(text_contains(t, n), t.contains(n), "{:?} contains {:?}", t, n);
            assert_eq!(text_starts_with(t, n), t.starts_with(n), "{:?} starts with {:?}", t, n);
            assert_eq!(text_ends_with(t, n), t.ends_with(n), "{:?} ends with {:?}", t, n);
        }
    }
}

#[test]
fn the_order_is_that_of_str() {
    let texts = ["", "a", "b", "ab", "B", "é", "e", "~", "a-", "a\u{10000}", "a\u{ffff}", "aa"];
    for a in texts {
        for b in texts {
            let expected = if a < b {
                Rank::Before
            } else if a == b {
                Rank::Same
            } else {
                Rank::After
            };
            assert_eq!(rank(a, b), expected, "{:?} {:?}", a, b);
        }
    }
}

#[test]
fn numbers_are_read_as_str_reads_them() {
    let texts = [
        "", "0", "7", "42", "+42", "-42", "+", "-", "++1", "007", "4294967295", "4294967296",
        "99999999999999999999", "12a", "a12", " 12", "12 ", "1_000", "٣", "+0",
    ];
    for t in texts {
        assert_eq!(parse_text(t), t.parse::<u32>().ok(), "{:?}", t);
    }
    assert_eq!(parse_text("4294967295"), Some(u32::MAX));
    assert_eq!(parse_text("4294967296"), None);
}

#[test]
fn numbers_are_written_in_decimal() {
    for n in [0u32, 1, 9, 10, 11, 99, 100, 101, 4711, 1_000_000, u32::MAX - 1, u32::MAX] {
        assert_eq!(decimal_string(n), n.to_string());
        assert_eq!(parse_text(&decimal_string(n)), Some(n));
    }
    assert_eq!(decimal_string(4294967295), "4294967295");
}

#[test]
fn texts_are_joined_without_separator() {
    let parts = vec![String::from("java"), String::from("-jar"), String::new(), String::from("é")];
    assert_eq!(string_of(&join_all(&parts)), "java-jaré");
    assert_eq!(string_of(&join_all(&Vec::new())), "");
}

#[test]
fn paths_are_joined_with_one_separator() {
    assert_eq!(join_path("/srv", "app.jar"), "/srv/app.jar");
    assert_eq!(join_path("/srv/", "app.jar"), "/srv/app.jar");
    assert_eq!(join_path("", "app.jar"), "app.jar");
    assert_eq!(join_path("/srv", "/opt/app.jar"), "/opt/app.jar");
    assert_eq!(join_path("lib", "a/b.jar"), "lib/a/b.jar");
}

#[test]
fn the_parent_stands_before_the_last_separator() {
    assert_eq!(parent_of("/usr/lib/jvm/bin/java"), Some(String::from("/usr/lib/jvm/bin")));
    assert_eq!(parent_of("/java"), Some(String::from("/")));
    assert_eq!(parent_of("java"), None);
    assert_eq!(parent_of("lib/app.jar"), Some(String::from("lib")));
    assert_eq!(file_name_of("/opt/kafka/libs/kafka_2.13-3.5.0.jar"), "kafka_2.13-3.5.0.jar");
    assert_eq!(file_name_of("app.jar"), "app.jar");
    assert_eq!(file_name_of("dir/"), "");
}
