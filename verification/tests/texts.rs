use std::cmp::Ordering;

use syncz::hosts::{
    assign_positionals, choose_host, last_host, require_hosts, ssh_hosts, HostChoice,
};
use syncz::number::{format_size, parse_bytes, parse_unsigned, push_decimal};
use syncz::order::{compare, Place};
use syncz::shell::{remote_shell_path, shell_escape, shell_escape_double};
use syncz::text::{
    chars_of, find, is_whitespace, join, lines, same, split, split_filled, starts_with, string_of,
    trim, words, Separator,
};

/// All texts of at most `max` characters of the alphabet.
fn texts(alphabet: &[char], max: usize) -> Vec<String> {
    let mut all = vec![String::new()];
    let mut from = 0;
    for _ in 0..max {
        let to = all.len();
        for i in from..to {
            for c in alphabet {
                let mut longer = all[i].clone();
                longer.push(*c);
                all.push(longer);
            }
        }
        from = to;
    }
    all
}

fn strings(parts: Vec<&[char]>) -> Vec<String> {
    parts.into_iter().map(string_of).collect()
}

#[test]
fn whitespace_agrees_with_std() {
    for n in 0..=0x10ffff_u32 {
        if let Some(c) = char::from_u32(n) {
            assert_eq!(is_whitespace(c), c.is_whitespace(), "{:x}", n);
        }
    }
}

#[test]
fn trimming_and_splitting_agree_with_std() {
    for s in texts(&['a', ' ', '\n', '\r', '\u{2003}'], 5) {
        let c = chars_of(&s);
        assert_eq!(string_of(trim(&c)), s.trim());
        assert_eq!(strings(lines(&c)), s.lines().collect::<Vec<_>>(), "{:?}", s);
        assert_eq!(strings(words(&c)), s.split_whitespace().collect::<Vec<_>>());
        assert_eq!(
            strings(split(&c, Separator::Symbol('a'))),
            s.split('a').collect::<Vec<_>>()
        );
    }
}

#[test]
fn searching_agrees_with_std() {
    for s in texts(&['a', 'b'], 6) {
        let c = chars_of(&s);
        for pat in texts(&['a', 'b'], 3) {
            assert_eq!(find(&c, &pat), s.find(&pat));
            assert_eq!(starts_with(&c, &pat), s.starts_with(&pat));
            assert_eq!(same(&c, &chars_of(&pat)), s == pat);
        }
    }
}

#[test]
fn order_agrees_with_std() {
    let all = texts(&['a', 'Z', '\u{e9}', '\u{1f600}'], 3);
    for a in &all {
        for b in &all {
            let expected = match a.cmp(b) {
                Ordering::Less => Place::Before,
                Ordering::Equal => Place::Same,
                Ordering::Greater => Place::After,
            };
            assert_eq!(compare(&chars_of(a), &chars_of(b)), expected);
        }
    }
}

#[test]
fn joining_undoes_splitting() {
    for s in texts(&['a', '/'], 7) {
        let parts = strings(split(&chars_of(&s), Separator::Symbol('/')));
        assert_eq!(join(&parts, "/"), s);
    }
    assert_eq!(
        strings(split_filled(&chars_of("/a//b/"), Separator::Symbol('/'))),
        ["a", "b"]
    );
}

#[test]
fn numbers_agree_with_std() {
    for s in texts(&['0', '2', '9', '+', '-', 'x'], 5) {
        let c = chars_of(&s);
        assert_eq!(parse_unsigned(&c, 255), s.parse::<u8>().ok().map(u64::from), "{}", s);
        assert_eq!(parse_unsigned(&c, u64::MAX), s.parse::<u64>().ok());
    }
    let max = u64::MAX.to_string();
    assert_eq!(parse_bytes(&max), Some(u64::MAX));
    assert_eq!(parse_bytes("18446744073709551616"), None);
    assert_eq!(parse_bytes("1,234,567"), Some(1234567));
    assert_eq!(parse_bytes(",,"), None);
    assert_eq!(parse_bytes("+5"), Some(5));
    assert_eq!(parse_bytes("12 "), None);
}

fn float_size(bytes: u64) -> String {
    let (unit, name) = if bytes >= 1 << 30 {
        (1u64 << 30, "GB")
    } else if bytes >= 1 << 20 {
        (1u64 << 20, "MB")
    } else if bytes >= 1 << 10 {
        (1u64 << 10, "KB")
    } else {
        return format!("{} B", bytes);
    };
    format!("{:.2} {}", bytes as f64 / unit as f64, name)
}

#[test]
fn sizes_agree_with_floating_point() {
    for bytes in 0..70000 {
        assert_eq!(format_size(bytes), float_size(bytes));
    }
    let mut seed: u64 = 1;
    for i in 0..100000_u32 {
        seed = seed.wrapping_mul(6364136223846793005).wrapping_add(1442695040888963407);
        let bytes = seed >> (i % 64);
        assert_eq!(format_size(bytes), float_size(bytes), "{}", bytes);
    }
    for shift in 0..64 {
        for delta in 0..3000 {
            let bytes = (1u64 << shift).wrapping_add(delta).wrapping_sub(1500);
            assert_eq!(format_size(bytes), float_size(bytes), "{}", bytes);
        }
    }
}

#[test]
fn sizes_for_people() {
    assert_eq!(format_size(0), "0 B");
    assert_eq!(format_size(1023), "1023 B");
    assert_eq!(format_size(1024), "1.00 KB");
    assert_eq!(format_size(1152), "1.12 KB");
    assert_eq!(format_size(1408), "1.38 KB");
    assert_eq!(format_size(1536 * 1024), "1.50 MB");
    assert_eq!(format_size(5 << 30), "5.00 GB");
    assert_eq!(format_size(u64::MAX), "17179869184.00 GB");
}

#[test]
fn quoting() {
    assert_eq!(shell_escape("a b"), "'a b'");
    assert_eq!(shell_escape("it's"), "'it'\\''s'");
    assert_eq!(shell_escape(""), "''");
    assert_eq!(shell_escape_double("a\"$`\\b"), "a\\\"\\$\\`\\\\b");
    assert_eq!(remote_shell_path("~"), "\"$HOME\"");
    assert_eq!(remote_shell_path("~/"), "\"$HOME/\"");
    assert_eq!(remote_shell_path("~/a $b"), "\"$HOME/a \\$b\"");
    assert_eq!(remote_shell_path("/a'b"), "'/a'\\''b'");
    assert_eq!(remote_shell_path("~user/x"), "'~user/x'");
}

#[test]
fn hosts_of_a_configuration() {
    let config = "# Host no\n\
        Host web db *.example.com\n\
        \tHostName 10.0.0.1\n\
        HOST alpha web\r\n\
        host ba?r # x\n\
        Match host q\n\
        Host\n\
        Host=eq\n";
    assert_eq!(ssh_hosts(config), ["#", "alpha", "db", "web", "x"]);
    assert!(ssh_hosts("").is_empty());
    assert_eq!(ssh_hosts("Host b\nHost a\n"), ssh_hosts("Host a b a"));
}

#[test]
fn no_hosts_to_choose_from() {
    let error = require_hosts(vec![]).unwrap_err();
    assert_eq!(error.message(), "no hosts found in ~/.ssh/config and no host provided");
    assert_eq!(require_hosts(vec!["a".to_string()]).unwrap(), ["a"]);
}

#[test]
fn last_host_is_trimmed() {
    assert_eq!(last_host(" web\n").as_deref(), Some("web"));
    assert_eq!(last_host(" \n\t"), None);
    assert_eq!(last_host(""), None);
}

#[test]
fn host_choice() {
    let given = Some("g".to_string());
    let last = Some("l".to_string());
    match choose_host(given, last.clone()) {
        HostChoice::Use { host, save } => assert!(host == "g" && save),
        HostChoice::Ask => panic!("expected a host"),
    }
    match choose_host(None, last) {
        HostChoice::Use { host, save } => assert!(host == "l" && !save),
        HostChoice::Ask => panic!("expected a host"),
    }
    assert!(matches!(choose_host(None, None), HostChoice::Ask));
}

#[test]
fn lone_argument_may_be_the_host() {
    let some = |s: &str| Some(s.to_string());
    assert_eq!(assign_positionals(some("web"), None, false), (".".to_string(), some("web")));
    assert_eq!(assign_positionals(some("dir"), None, true), ("dir".to_string(), None));
    assert_eq!(assign_positionals(some("new"), some("h"), false), ("new".to_string(), some("h")));
    assert_eq!(assign_positionals(None, some("h"), false), (".".to_string(), some("h")));
    assert_eq!(assign_positionals(None, None, false), (".".to_string(), None));
}

#[test]
fn written_numbers_are_read_back() {
    for n in [0u64, 7, 10, 255, 1024, 999_999, u64::MAX] {
        let mut written = String::new();
        push_decimal(&mut written, n as u128);
        assert_eq!(written, n.to_string());
        let chars: Vec<char> = written.chars().collect();
        assert_eq!(parse_unsigned(&chars, u64::MAX), Some(n));
        if n > 0 {
            assert_eq!(parse_unsigned(&chars, n - 1), None);
        }
    }
}

#[test]
fn commas_do_not_count() {
    assert_eq!(parse_bytes("1,234,567"), Some(1234567));
    assert_eq!(parse_bytes(",1234567"), Some(1234567));
    assert_eq!(parse_bytes("1234567,,"), Some(1234567));
    assert_eq!(parse_bytes(","), None);
}

#[test]
fn order_of_configuration_lines_does_not_matter() {
    let a = "Host beta alpha\nUser me\nHost gamma *.org\n";
    let b = "Host gamma *.org\nhost beta alpha\nHost beta alpha\nUser me\nHost gamma *.org\n";
    assert_eq!(ssh_hosts(a), vec!["alpha", "beta", "gamma"]);
    assert_eq!(ssh_hosts(b), ssh_hosts(a));
}

#[test]
fn saved_host_is_read_back() {
    for host in ssh_hosts("Host one two\nHOST three\n") {
        assert_eq!(last_host(&host), Some(host.clone()));
    }
}
