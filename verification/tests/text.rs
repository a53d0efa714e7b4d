//! Text and paths, held against what the standard library does.

use rpool::git::get_remote_url;
use rpool::names::{name_fault, validate_name, NameFault};
use rpool::path::{file_name, is_same_path, join_path, path_components, path_within};
use rpool::text::{
    control_char, decimal, escape, hexadecimal, is_text, join_texts, lines, same_text, space_char,
    split_text, strip_ends, strip_prefix, to_chars, trim,
};
use std::path::Path;

const TEXTS: &[&str] = &[
    "", " ", "a", " a ", "\ta b\n", "a\nb", "a\r\nb\r\n", "\r", "\n", "\n\n", "a\r\r\n", "x.git",
    ".git", "x.git.git", "gitgit", "a/b/c", "/a//b/", "//", "/", "\u{a0}x\u{2003}", "\u{3000}é\u{85}",
    "日本 語", "..", "./a", "a/./b", "a/../b", ".", "a.", "no newline", "\u{feff}bom",
];

const PATHS: &[&str] = &[
    "", ".", "./", "/", "//", "/.", "/..", "..", "../", "a", "./a", "a/", "a/.", "a//b", "/a/b",
    "/a/b/", "/a/./b", "/a/../b", "a/..", "/a/b/c", "/ab", "./.", "././a", "/a/b/.hidden", "a b/c",
    "é/ü",
];

#[test]
fn white_space_is_what_the_standard_library_says() {
    for n in 0..=0x10ffffu32 {
        if let Some(c) = char::from_u32(n) {
            assert_eq!(space_char(c), c.is_whitespace(), "{:x}", n);
            assert_eq!(control_char(c), c.is_control(), "{:x}", n);
        }
    }
}

#[test]
fn escapes_are_those_of_the_standard_library() {
    for n in (0..0x3000u32).chain(0x1f600..0x1f700).chain(0x10ff00..=0x10ffff) {
        if let Some(c) = char::from_u32(n) {
            assert_eq!(escape(c), c.escape_default().to_string());
        }
    }
    assert_eq!(escape('\n'), "\\n");
    assert_eq!(escape('é'), "\\u{e9}");
    assert_eq!(escape('a'), "a");
}

#[test]
fn trimming_and_lines_are_those_of_the_standard_library() {
    for t in TEXTS {
        assert_eq!(trim(t), t.trim());
        assert_eq!(lines(t), t.lines().collect::<Vec<_>>());
        assert_eq!(to_chars(t), t.chars().collect::<Vec<_>>());
        for end in ["", ".git", "a", "\n", "git"] {
            if !end.is_empty() {
                assert_eq!(strip_ends(t, end), t.trim_end_matches(end));
            }
            assert_eq!(strip_prefix(t, end).as_deref(), t.strip_prefix(end));
        }
        for sep in ['/', '\n', 'a'] {
            assert_eq!(split_text(t, sep), t.split(sep).collect::<Vec<_>>());
        }
        for u in TEXTS {
            assert_eq!(same_text(t, u), t == u);
        }
    }
}

#[test]
fn joined_texts_have_the_separator_between_them() {
    let parts = vec!["a".to_string(), "b".to_string(), "".to_string()];
    assert_eq!(join_texts(&parts, ", "), "a, b, ");
    assert_eq!(join_texts(&Vec::new(), ", "), "");
}

#[test]
fn numbers_are_written_as_the_standard_library_writes_them() {
    for n in [0u128, 1, 9, 10, 99, 100, 12345, u64::MAX as u128, u128::MAX] {
        assert_eq!(decimal(n), n.to_string());
    }
    for n in [0u32, 9, 10, 15, 16, 255, 0x10ffff, u32::MAX] {
        assert_eq!(hexadecimal(n), format!("{:x}", n));
    }
    assert_ne!(decimal(11), decimal(1));
}

#[test]
fn output_is_text_if_it_is_utf8() {
    for t in TEXTS {
        assert_eq!(get_remote_url(true, t.as_bytes().to_vec()).unwrap(), t.trim());
    }
    assert!(get_remote_url(true, vec![0x61, 0xff]).is_err());
    assert!(get_remote_url(true, vec![0xc3]).is_err());
    assert!(get_remote_url(true, vec![0xed, 0xa0, 0x80]).is_err());
    assert_eq!(get_remote_url(true, vec![0xc3, 0xa9, 0x0a]).unwrap(), "é");
}

#[test]
fn an_optional_text_is_compared_as_a_whole() {
    assert!(is_text(&Some("main".to_string()), "main"));
    assert!(!is_text(&Some("main".to_string()), "mai"));
    assert!(!is_text(&None, "main"));
}

#[test]
fn paths_compare_as_those_of_the_standard_library() {
    for a in PATHS {
        let pa = Path::new(a);
        assert_eq!(
            path_components(a),
            pa.components().map(|c| c.as_os_str().to_str().unwrap().to_string()).collect::<Vec<_>>(),
            "{:?}",
            a
        );
        assert_eq!(
            file_name(a).as_deref(),
            pa.file_name().map(|n| n.to_str().unwrap()),
            "{:?}",
            a
        );
        for b in PATHS {
            let pb = Path::new(b);
            assert_eq!(path_within(a, b), pa.starts_with(pb), "{:?} in {:?}", a, b);
            assert_eq!(is_same_path(a, b), pa == pb, "{:?} and {:?}", a, b);
            assert_eq!(join_path(a, b), pa.join(pb).to_str().unwrap(), "{:?} to {:?}", a, b);
        }
    }
}

#[test]
fn a_directory_does_not_lie_in_one_whose_name_begins_like_its_own() {
    assert!(path_within("/r/pool/x", "/r/pool"));
    assert!(!path_within("/r/pool-2/x", "/r/pool"));
    assert!(path_within("/r/pool", "/r/pool"));
    assert!(!path_within("/r", "/r/pool"));
}

#[test]
fn every_fault_of_a_name_is_told() {
    let cases: &[(&str, NameFault, &str)] = &[
        ("", NameFault::Empty, "Clone name cannot be empty"),
        (".", NameFault::Reserved, "Clone name cannot be '.' "),
        ("..", NameFault::Reserved, "Clone name cannot be '..' "),
        ("-x", NameFault::LeadingDash, "Clone name '-x' must not start with '-'"),
        (
            "a b",
            NameFault::InvalidCharacter(' '),
            "Clone name 'a b' contains invalid character ' '",
        ),
        (
            "a\tb/c",
            NameFault::InvalidCharacter('\t'),
            "Clone name 'a\tb/c' contains invalid character '\\t'",
        ),
        (
            "x\u{7f}",
            NameFault::InvalidCharacter('\u{7f}'),
            "Clone name 'x\u{7f}' contains invalid character '\\u{7f}'",
        ),
    ];
    for (name, fault, message) in cases {
        assert_eq!(name_fault(name), Some(*fault));
        let e = validate_name(name, "Clone").unwrap_err();
        assert_eq!(e.fault, *fault);
        assert_eq!(e.message, *message);
    }
    for c in "/\\ \t\n\r*?[]{}\u{0}\u{9f}".chars() {
        assert_eq!(name_fault(&format!("a{}", c)), Some(NameFault::InvalidCharacter(c)));
    }
}

#[test]
fn ordinary_names_are_accepted() {
    for name in ["a", "my-pool", "pool_1", "v1.2", "...", "é", "a-", "+x", "~", "$x", "a:b"] {
        assert!(validate_name(name, "Pool").is_ok(), "{}", name);
        assert_eq!(name_fault(name), None);
        assert_eq!(path_components(&join_path("/r", name)), vec!["/", "r", name]);
    }
}
