use tentacle::cli::{
    is_own_pid_file, parse_args, parse_pid, pid_dir, pid_file_path, pid_text, reload_exit_code,
    reload_path, Command,
};
use tentacle::config::env::Environment;
use tentacle::names::NameSet;
use tentacle::path::{join, same_path};
use tentacle::text::{
    chars, parse_signed_32, parse_unsigned, push_decimal, same, split_on, trim,
};

fn args(list: &[&str]) -> Vec<String> {
    list.iter().map(|a| a.to_string()).collect()
}

#[test]
fn trim_removes_unicode_white_space() {
    for space in "\t\n\u{b}\u{c}\r \u{85}\u{a0}\u{1680}\u{2000}\u{2005}\u{200a}\u{2028}\u{2029}\u{202f}\u{205f}\u{3000}".chars() {
        let padded = format!("{space}a{space}b{space}");
        assert_eq!(trim(&padded), padded.trim());
        assert_eq!(trim(&padded), format!("a{space}b"));
    }
    for other in "\u{8}\u{e}\u{1f}\u{200b}\u{feff}\u{180e}x".chars() {
        let kept = format!("{other}a{other}");
        assert_eq!(trim(&kept), kept);
        assert_eq!(kept.trim(), kept);
    }
    assert_eq!(trim(""), "");
    assert_eq!(trim(" \u{3000} "), "");
    assert_eq!(trim(trim("  é ü ")), "é ü");
}

#[test]
fn split_keeps_empty_parts() {
    for s in ["", ",", "a", "a,b", ",a,,b,", "é,ü"] {
        let expected: Vec<String> = s.split(',').map(String::from).collect();
        assert_eq!(split_on(s, ','), expected);
        assert_eq!(split_on(s, ',').join(","), s);
    }
}

#[test]
fn characters_and_comparison() {
    assert_eq!(chars("aé"), vec!['a', 'é']);
    assert!(same("é", "é"));
    assert!(!same("a", "ab"));
}

#[test]
fn numbers_parse_like_the_standard_library() {
    for s in [
        "", "+", "-", "0", "-0", "+0", "007", "42", "+42", "-42", "2147483647", "2147483648",
        "-2147483648", "-2147483649", "4294967295", "4294967296", "18446744073709551615",
        "18446744073709551616", "99999999999999999999999999", "1 ", " 1", "1e3", "١", "--1", "+-1",
        "000000000000000000000000000001",
    ] {
        assert_eq!(parse_unsigned(s, u64::MAX), s.parse::<u64>().ok(), "{s:?}");
        assert_eq!(
            parse_unsigned(s, u32::MAX as u64),
            s.parse::<u32>().ok().map(u64::from),
            "{s:?}"
        );
        assert_eq!(parse_signed_32(s), s.parse::<i32>().ok(), "{s:?}");
    }
}

#[test]
fn decimal_digits() {
    for n in [0u32, 9, 10, 42, 100, 4_294_967_295] {
        let mut s = String::from("@");
        push_decimal(&mut s, n);
        assert_eq!(s, format!("@{n}"));
        assert_eq!(parse_unsigned(&s[1..], u64::MAX), Some(n as u64));
    }
}

#[test]
fn join_like_the_standard_library() {
    for base in ["", "/", "a", "a/", "/a/b", "/a//"] {
        for part in ["", "b", "b/c", "/b", "./b"] {
            let expected = std::path::Path::new(base).join(part);
            assert_eq!(join(base, part), expected.to_str().unwrap(), "{base:?} {part:?}");
        }
    }
}

#[test]
fn paths_compare_like_the_standard_library() {
    let paths = [
        "", "/", ".", "./", "a", "./a", "a/", "a//b", "a/b", "a/./b", "/a/b", "//a/b/", "/./a/b",
        "a/../b", "..", "a/.", "./.", "b/a",
    ];
    for a in paths {
        for b in paths {
            let expected = std::path::Path::new(a) == std::path::Path::new(b);
            assert_eq!(same_path(a, b), expected, "{a:?} {b:?}");
        }
    }
}

#[test]
fn names_form_a_set() {
    let mut set = NameSet::new();
    assert!(set.insert("a"));
    assert!(!set.insert("a"));
    assert!(set.insert("b"));
    assert!(set.contains("a"));
    assert!(set.remove("a"));
    assert!(!set.remove("a"));
    assert!(!set.contains("a"));
    assert!(set.contains("b"));
}

#[test]
fn command_line() {
    assert!(matches!(parse_args(&args(&[])), Command::Run));
    assert!(matches!(parse_args(&args(&["t"])), Command::Run));
    assert!(matches!(parse_args(&args(&["t", "-h", "x"])), Command::Help));
    assert!(matches!(parse_args(&args(&["t", "--help"])), Command::Help));
    assert!(matches!(parse_args(&args(&["t", "-V"])), Command::Version));
    assert!(matches!(parse_args(&args(&["t", "--version"])), Command::Version));
    assert!(matches!(parse_args(&args(&["t", "-r"])), Command::Reload(None)));
    assert!(matches!(
        parse_args(&args(&["t", "--reload", "-x"])),
        Command::Reload(None)
    ));
    match parse_args(&args(&["t", "-r", "/p.pid"])) {
        Command::Reload(Some(path)) => assert_eq!(path, "/p.pid"),
        other => panic!("{other:?}"),
    }
    match parse_args(&args(&["t", "-r", ""])) {
        Command::Reload(Some(path)) => assert_eq!(path, ""),
        other => panic!("{other:?}"),
    }
    match parse_args(&args(&["t", "run"])) {
        Command::Unknown(option) => assert_eq!(option, "run"),
        other => panic!("{other:?}"),
    }
}

#[test]
fn pid_file_locations() {
    let none = Environment { vars: Vec::new() };
    assert_eq!(pid_dir(&none), "/usr/local/tentacle");
    assert_eq!(pid_file_path(&none, "myapp"), "/usr/local/tentacle/myapp.pid");
    assert_eq!(reload_path(&none, None), None);
    assert_eq!(
        reload_path(&none, Some("/p".to_string())),
        Some("/p".to_string())
    );
    let set = Environment {
        vars: vec![
            ("NAUTROUDS_PID_DIR".to_string(), "/run".to_string()),
            ("SERVICE".to_string(), "s".to_string()),
        ],
    };
    assert_eq!(pid_file_path(&set, "myapp"), "/run/myapp.pid");
    assert_eq!(reload_path(&set, None), Some("/run/s.pid".to_string()));
}

#[test]
fn pid_file_contents() {
    assert_eq!(parse_pid(" 1234\n"), Some(1234));
    assert_eq!(parse_pid("-5"), Some(-5));
    assert_eq!(parse_pid("12a"), None);
    assert_eq!(parse_pid(""), None);
    assert!(is_own_pid_file(Some("77\n".to_string()), 77));
    assert!(!is_own_pid_file(Some("78".to_string()), 77));
    assert!(!is_own_pid_file(Some("-77".to_string()), 77));
    assert!(!is_own_pid_file(Some("x".to_string()), 77));
    assert!(!is_own_pid_file(None, 77));
    assert_eq!(pid_text(4_000_000_000), "4000000000");
    assert!(is_own_pid_file(Some(pid_text(123)), 123));
}

#[test]
fn reload_succeeds_only_if_delivered() {
    assert_eq!(reload_exit_code(Some(12), true), 0);
    assert_eq!(reload_exit_code(Some(12), false), 1);
    assert_eq!(reload_exit_code(None, false), 1);
    assert_eq!(reload_exit_code(None, true), 1);
}
