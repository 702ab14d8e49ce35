use lm_log::clock::{format_time, get_current_time, CivilTime};
use lm_log::color::{hex_to_ansi, AnsiCache};
use lm_log::format::{level_color, LogLevel};
use lm_log::net::{is_valid_ip, is_valid_ipv4, is_valid_ipv6, is_valid_url};

fn at(year: i32, month: u32, day: u32, hour: u32, minute: u32) -> CivilTime {
    CivilTime { year, month, day, hour, minute }
}

#[test]
fn hex_to_ansi_parses_channels() {
    assert_eq!(hex_to_ansi("#ff8000").unwrap(), "\x1b[38;2;255;128;0m");
    assert_eq!(hex_to_ansi("00FF0a").unwrap(), "\x1b[38;2;0;255;10m");
    assert_eq!(hex_to_ansi("##010203xyz").unwrap(), "\x1b[38;2;1;2;3m");
}

#[test]
fn hex_to_ansi_rejects_bad_colors() {
    assert!(hex_to_ansi("#12345").is_none());
    assert!(hex_to_ansi("#zz0000").is_none());
    assert!(hex_to_ansi("").is_none());
}

#[test]
fn color_cache_repeats_the_same_sequence() {
    let mut cache = AnsiCache::new();
    let first = cache.lookup("#336699").unwrap();
    let second = cache.lookup("#336699").unwrap();
    let third = cache.lookup("336699").unwrap();
    assert_eq!(first, "\x1b[38;2;51;102;153m");
    assert_eq!(first, second);
    assert_eq!(first, third);
    assert!(cache.lookup("#nothex").is_none());
}

#[test]
fn time_format_pads_day_hour_minute() {
    assert_eq!(format_time(&at(2025, 7, 29, 16, 30)), "2025年7月29日 16:30");
    assert_eq!(format_time(&at(2025, 12, 5, 9, 3)), "2025年12月05日 09:03");
}

#[test]
fn time_format_years() {
    assert_eq!(format_time(&at(99, 1, 1, 0, 0)), "0099年1月01日 00:00");
    assert_eq!(format_time(&at(-5, 1, 1, 0, 0)), "-0005年1月01日 00:00");
    assert_eq!(format_time(&at(10000, 1, 1, 0, 0)), "+10000年1月01日 00:00");
}

#[test]
fn current_time_in_known_and_unknown_zone() {
    for zone in ["Asia/Shanghai", "Not/AZone"] {
        let t = get_current_time(zone);
        assert!(t.contains('年') && t.contains('月') && t.contains('日'));
        assert!(!t.contains('|'));
        assert_eq!(t.chars().filter(|c| *c == ':').count(), 1);
    }
}

#[test]
fn ipv4_addresses() {
    assert!(is_valid_ipv4("192.168.0.1"));
    assert!(is_valid_ipv4("0.0.0.0"));
    assert!(is_valid_ipv4("255.255.255.255"));
    assert!(!is_valid_ipv4("256.1.1.1"));
    assert!(!is_valid_ipv4("01.2.3.4"));
    assert!(!is_valid_ipv4("1.2.3"));
    assert!(!is_valid_ipv4("1.2.3.4."));
    assert!(!is_valid_ipv4("1.2.3.4.5"));
    assert!(!is_valid_ipv4("1..3.4"));
    assert!(!is_valid_ipv4("a.b.c.d"));
    assert!(!is_valid_ipv4(""));
}

#[test]
fn urls() {
    assert!(is_valid_url("https://example.com/path?q=1"));
    assert!(!is_valid_url("not a url"));
}

#[test]
fn ipv6_addresses() {
    for ok in [
        "::",
        "::1",
        "1:2:3:4:5:6:7:8",
        "fe80::1:2",
        "2001:DB8::",
        "1:2:3:4:5:6:7::",
        "::1:2:3:4:5:6:7",
        "::ffff:192.0.2.1",
        "1:2:3:4:5:6:1.2.3.4",
        "0000:0000:0000:0000:0000:0000:0000:0001",
    ] {
        assert!(is_valid_ipv6(ok), "{}", ok);
    }
    for bad in [
        "",
        ":",
        ":::",
        "1:2:3:4:5:6:7",
        "1:2:3:4:5:6:7:8:9",
        "1:2:3:4:5:6:7:8::",
        "1::2::3",
        "12345::",
        "1::2:3:4:5:6:7:8",
        "1.2.3.4::",
        "::1.2.3.4:5",
        "1:2:3:4:5:6:7:1.2.3.4",
        ":1::2",
        "g::1",
    ] {
        assert!(!is_valid_ipv6(bad), "{}", bad);
    }
}

#[test]
fn ip_either_family() {
    assert!(is_valid_ip("10.0.0.1"));
    assert!(is_valid_ip("::1"));
    assert!(!is_valid_ip("10.0.0"));
    assert!(!is_valid_ip("localhost"));
}

#[test]
fn level_colors_parse() {
    assert_eq!(level_color(LogLevel::Error), "#f44336");
    assert_eq!(hex_to_ansi(level_color(LogLevel::Error)).unwrap(), "\x1b[38;2;244;67;54m");
    for level in [LogLevel::Debug, LogLevel::Info, LogLevel::Warning] {
        assert!(hex_to_ansi(level_color(level)).is_some());
    }
}
