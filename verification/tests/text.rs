use agent_orchestrator::keys::KeySet;
use agent_orchestrator::paths::{join, stem_of, temp_path};
use agent_orchestrator::text::{
    ascii_lower, contains_str, decimal_i64, decimal_u64, list_contains, padded_two, parse_number,
    replace_char, replace_str, trim_end,
};

#[test]
fn numerals_are_written_in_decimal() {
    assert_eq!(decimal_u64(0), "0");
    assert_eq!(decimal_u64(1746475200), "1746475200");
    assert_eq!(decimal_u64(u64::MAX), "18446744073709551615");
    assert_eq!(decimal_i64(-1), "-1");
    assert_eq!(decimal_i64(i64::MIN), "-9223372036854775808");
    assert_eq!(decimal_i64(i64::MAX), "9223372036854775807");
    assert_eq!(padded_two(0), "00");
    assert_eq!(padded_two(9), "09");
    assert_eq!(padded_two(10), "10");
    assert_eq!(padded_two(123), "123");
}

#[test]
fn numerals_read_back() {
    for n in [0u64, 7, 10, 4999, u32::MAX as u64, u64::MAX] {
        assert_eq!(parse_number(&decimal_u64(n), u64::MAX), Some(n));
    }
    assert_eq!(parse_number("+42", u64::MAX), Some(42));
    assert_eq!(parse_number("007", u64::MAX), Some(7));
    assert_eq!(parse_number("", u64::MAX), None);
    assert_eq!(parse_number("+", u64::MAX), None);
    assert_eq!(parse_number("-1", u64::MAX), None);
    assert_eq!(parse_number("4 2", u64::MAX), None);
    assert_eq!(parse_number("4294967296", u32::MAX as u64), None);
    assert_eq!(parse_number("4294967295", u32::MAX as u64), Some(4294967295));
    assert_eq!(parse_number("18446744073709551616", u64::MAX), None);
}

#[test]
fn replacing_and_searching() {
    assert_eq!(replace_str("aaa", "aa", "b"), "ba");
    assert_eq!(replace_str("hello", "l", ""), "heo");
    assert_eq!(replace_char("a b c", ' ', '-'), "a-b-c");
    assert_eq!(trim_end("http://x///", '/'), "http://x");
    assert_eq!(trim_end("///", '/'), "");
    assert_eq!(ascii_lower("ÄBC-x"), "Äbc-x");
    assert!(contains_str("hello", "ell"));
    assert!(contains_str("hello", ""));
    assert!(!contains_str("hello", "elo"));
    let list = vec!["a".to_string(), "b".to_string()];
    assert!(list_contains(&list, "b"));
    assert!(!list_contains(&list, "c"));
}

#[test]
fn paths_are_joined_as_on_unix() {
    assert_eq!(join("/data", "owner"), "/data/owner");
    assert_eq!(join("/data/", "owner"), "/data/owner");
    assert_eq!(join("", "owner"), "owner");
    assert_eq!(join("/data", "/etc"), "/etc");
    assert_eq!(join("/data", ""), "/data/");
    for (base, path) in [("/data", "x"), ("/data/", "x"), ("", "x"), ("a", "/b"), ("a", "")] {
        let expected = std::path::Path::new(base).join(path);
        assert_eq!(join(base, path), expected.to_string_lossy());
    }
}

#[test]
fn stems_and_temporary_files() {
    for name in ["todo.md", "a.b.c", ".hidden", "plain", "x.", "..toml"] {
        let expected = std::path::Path::new(name).file_stem().unwrap().to_string_lossy();
        assert_eq!(stem_of(name), expected, "{}", name);
    }
    for path in ["/data/completed.json", "completed.json", "/a.b/failed"] {
        let expected = std::path::Path::new(path).with_extension("tmp");
        assert_eq!(temp_path(path), expected.to_string_lossy(), "{}", path);
    }
}

#[test]
fn key_sets() {
    let mut set = KeySet::from_list(vec!["a".to_string(), "a".to_string(), "b".to_string()]);
    assert!(set.contains("a"));
    assert!(!set.insert("b".to_string()));
    assert!(set.insert("c".to_string()));
    set.remove("a");
    assert!(!set.contains("a"));
    assert!(set.contains("b") && set.contains("c"));
    set.remove("b");
    set.remove("c");
    assert!(set.is_empty());
    assert!(KeySet::new().is_empty());
}
