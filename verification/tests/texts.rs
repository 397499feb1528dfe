use iptv_proxy::config::{bind_port, Settings};
use iptv_proxy::number::{parse_bounded, parse_count, parse_port, to_decimal};
use iptv_proxy::text;

#[test]
fn searching() {
    assert!(text::contains("abcabd", "abd"));
    assert!(!text::contains("abcab", "abd"));
    assert!(text::contains("", ""));
    assert!(text::starts_with("/iptv/x", "/iptv/"));
    assert!(!text::starts_with("/ipt", "/iptv/"));
    assert!(text::ends_with("a.jpeg", ".jpeg"));
    assert!(!text::ends_with("jpeg", ".jpeg"));
    assert!(text::same_text("é", "é"));
    assert!(!text::same_text("é", "e"));
    assert!(!text::same_text("ab", "a"));
}

#[test]
fn replacing_agrees_with_std() {
    for hay in ["", "aaa", "aaaa", "abab", "xaby", ".ts.ts", "..ts", "é.tsé"] {
        for needle in ["a", "aa", "ab", ".ts"] {
            for with in ["", "x", "aa", ".jpeg"] {
                assert_eq!(text::replace(hay, needle, with), hay.replace(needle, with));
            }
        }
    }
}

#[test]
fn splitting_agrees_with_std() {
    for s in ["", "a", "a&b", "&", "a&&b&", "é&ü"] {
        let expected: Vec<&str> = s.split('&').collect();
        assert_eq!(text::split(s, '&'), expected);
    }
}

#[test]
fn lines_agree_with_std() {
    for s in ["", "\n", "a", "a\n", "a\r\nb", "a\r", "\r\n", "a\r\r\n\nb\n\n", "\ra\n"] {
        let expected: Vec<&str> = s.lines().collect();
        assert_eq!(text::split_lines(s), expected, "{:?}", s);
    }
}

#[test]
fn white_space_agrees_with_std() {
    for code in 0u32..0x110000 {
        if let Some(c) = char::from_u32(code) {
            assert_eq!(text::white_space(c), c.is_whitespace(), "{:?}", c);
        }
    }
    assert!(text::blank(""));
    assert!(text::blank(" \t\u{3000}"));
    assert!(!text::blank(" x "));
}

#[test]
fn cutting_at_the_last_mark() {
    assert_eq!(text::up_to_last("a/b/c", '/'), "a/b/");
    assert_eq!(text::up_to_last("a/b/", '/'), "a/b/");
    assert_eq!(text::up_to_last("abc", '/'), "abc");
    assert_eq!(text::up_to_last("", '/'), "");
    assert_eq!(text::after("/iptv/x", 6), "x");
}

#[test]
fn finding_a_prefix() {
    let parts = vec!["a=url=".to_string(), "url=1".to_string(), "url=2".to_string()];
    assert_eq!(text::find_prefixed(&parts, "url="), Some("url=1".to_string()));
    assert_eq!(text::find_prefixed(&parts, "x"), None);
}

#[test]
fn decimals_agree_with_std() {
    for n in 0..=u16::MAX {
        assert_eq!(to_decimal(n), n.to_string());
        assert_eq!(parse_port(&n.to_string()), Some(n));
    }
}

#[test]
fn numerals_agree_with_std() {
    for s in [
        "", "+", "-", "-0", "+0", "0", "00", "+7", "++7", "65535", "65536", "065535", "99999999999",
        "18446744073709551615", "18446744073709551616", "1 ", " 1", "1a", "\u{661}",
    ] {
        assert_eq!(parse_port(s), s.parse::<u16>().ok(), "{:?}", s);
        assert_eq!(parse_count(s), s.parse::<usize>().ok(), "{:?}", s);
        assert_eq!(parse_bounded(s, u64::MAX), s.parse::<u64>().ok(), "{:?}", s);
    }
    assert_eq!(parse_bounded("5", 3), None);
    assert_eq!(parse_bounded("3", 3), Some(3));
}

#[test]
fn port_of_an_address() {
    assert_eq!(bind_port("0.0.0.0:9090"), 9090);
    assert_eq!(bind_port("0.0.0.0"), 8080);
    assert_eq!(bind_port("0.0.0.0:"), 8080);
    assert_eq!(bind_port("0.0.0.0:70000"), 8080);
    assert_eq!(bind_port("[::]:9090"), 8080);
    assert_eq!(bind_port("h:1:2"), 1);
    assert_eq!(bind_port(""), 8080);
}

#[test]
fn default_settings() {
    let s = Settings::new(None, None, None, 6);
    assert_eq!(s.local_ip, "192.168.1.3");
    assert_eq!(s.bind_addr, "0.0.0.0:8080");
    assert_eq!(s.workers, 6);
    assert_eq!(s.bind_port, 8080);
}

#[test]
fn given_settings() {
    let s = Settings::new(
        Some("10.1.1.1".to_string()),
        Some("127.0.0.1:81".to_string()),
        Some("3".to_string()),
        6,
    );
    assert_eq!(s.local_ip, "10.1.1.1");
    assert_eq!(s.bind_addr, "127.0.0.1:81");
    assert_eq!(s.workers, 3);
    assert_eq!(s.bind_port, 81);
    assert_eq!(Settings::new(None, None, Some("many".to_string()), 2).workers, 2);
}
