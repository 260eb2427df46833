use karvon::bytes::{format_bytes, mb_to_bytes};
use karvon::clock::{
    log_history_since, log_history_start, millis_between, utc_now, Timestamp, FIRST_SECOND,
    LAST_SECOND,
};
use karvon::percent::{reads_as_number, share_text};
use karvon::text::{
    decimal_text, is_whitespace, parse_u16, parse_u32, parse_u64, replace_char, split_char,
    split_lines, split_once, split_whitespace, strip_prefix, tail_after, to_lower, to_upper, trim,
    trim_end_char,
};
use karvon::text_map::TextMap;
use karvon::text_set::TextSet;

const TEXTS: [&str; 12] = [
    "", " ", "a", " a b ", "a\tb\nc\r\n", "\r\n\r\n", "ÄÖ ß\u{a0}x\u{2003}", "a,b,,c", "a:b:c", "x;;",
    "line\n", "\u{3000}trim\u{85}",
];

#[test]
fn whitespace_is_the_standard_librarys() {
    for code in 0..=0x10ffff_u32 {
        if let Some(c) = char::from_u32(code) {
            assert_eq!(is_whitespace(c), c.is_whitespace(), "{code:x}");
        }
    }
}

#[test]
fn text_operations_agree_with_the_standard_library() {
    for text in TEXTS {
        assert_eq!(trim(text), text.trim());
        assert_eq!(split_whitespace(text), text.split_whitespace().collect::<Vec<_>>());
        assert_eq!(split_lines(text), text.lines().collect::<Vec<_>>());
        assert_eq!(split_char(text, ','), text.split(',').collect::<Vec<_>>());
        assert_eq!(tail_after(text, ':'), text.rsplit(':').next().unwrap_or(""));
        assert_eq!(to_upper(text), text.to_ascii_uppercase());
        assert_eq!(to_lower(text), text.to_ascii_lowercase());
        assert_eq!(trim_end_char(text, ';'), text.trim_end_matches(';'));
        assert_eq!(replace_char(text, 'a', "<>"), text.replace('a', "<>"));
        assert_eq!(
            split_once(text, ':'),
            text.split_once(':').map(|(a, b)| (a.to_string(), b.to_string()))
        );
        assert_eq!(strip_prefix(text, "a").as_deref(), text.strip_prefix("a"));
    }
}

#[test]
fn numbers_agree_with_the_standard_library() {
    for text in [
        "", "0", "7", "+7", "-7", "007", "65535", "65536", "4294967295", "4294967296",
        "18446744073709551615", "18446744073709551616", "99999999999999999999999", "1 ", " 1", "1a",
        "+", "++1", "٣",
    ] {
        assert_eq!(parse_u16(text), text.parse::<u16>().ok(), "{text:?}");
        assert_eq!(parse_u32(text), text.parse::<u32>().ok(), "{text:?}");
        assert_eq!(parse_u64(text), text.parse::<u64>().ok(), "{text:?}");
    }
    for n in [0, 9, 10, 101, u64::MAX] {
        assert_eq!(decimal_text(n), n.to_string());
    }
}

fn formatted_with_floats(bytes: u64) -> String {
    let mb = bytes as f64 / 1024.0 / 1024.0;
    if mb < 1024.0 {
        format!("{mb:.1} MB")
    } else {
        format!("{:.2} GB", mb / 1024.0)
    }
}

#[test]
fn memory_is_shown_as_with_floats() {
    let mut samples = vec![0, 1, 52_428, 52_429, 104_857, 104_858, 1 << 20, (1 << 30) - 1, 1 << 30];
    for shift in 0..64 {
        for offset in [0_u64, 1, 2, 3, 12_345] {
            samples.push((1_u64 << shift).wrapping_add(offset));
            samples.push((1_u64 << shift).wrapping_sub(offset));
        }
    }
    let mut seed = 0x2545_f491_4f6c_dd1d_u64;
    for _ in 0..20_000 {
        seed ^= seed << 13;
        seed ^= seed >> 7;
        seed ^= seed << 17;
        samples.push(seed);
        samples.push(seed >> 24);
        samples.push(seed >> 34);
        samples.push((seed >> 44) << 16);
        samples.push((seed >> 40) << 20);
    }
    for bytes in samples {
        assert_eq!(format_bytes(bytes), formatted_with_floats(bytes), "{bytes}");
    }
}

#[test]
fn memory_examples() {
    assert_eq!(format_bytes(0), "0.0 MB");
    assert_eq!(format_bytes(1_572_864), "1.5 MB");
    assert_eq!(format_bytes(262_144), "0.2 MB");
    assert_eq!(format_bytes(786_432), "0.8 MB");
    assert_eq!(format_bytes(1_073_741_823), "1024.0 MB");
    assert_eq!(format_bytes(1_073_741_824), "1.00 GB");
    assert_eq!(format_bytes(u64::MAX), "17179869184.00 GB");
}

#[test]
fn mebibytes_saturate() {
    assert_eq!(mb_to_bytes(0), 0);
    assert_eq!(mb_to_bytes(512), 536_870_912);
    assert_eq!(mb_to_bytes(17_592_186_044_415), 18_446_744_073_708_503_040);
    assert_eq!(mb_to_bytes(17_592_186_044_416), u64::MAX);
    assert_eq!(mb_to_bytes(u64::MAX), u64::MAX);
}

fn at(seconds: i64, nanos: u32) -> Timestamp {
    Timestamp::new(seconds, nanos).unwrap()
}

#[test]
fn timestamps_have_a_range() {
    assert!(Timestamp::new(FIRST_SECOND, 0).is_some());
    assert!(Timestamp::new(FIRST_SECOND - 1, 999_999_999).is_none());
    assert!(Timestamp::new(LAST_SECOND, 999_999_999).is_some());
    assert!(Timestamp::new(LAST_SECOND + 1, 0).is_none());
    assert!(Timestamp::new(0, 1_000_000_000).is_none());
    assert_eq!(
        FIRST_SECOND,
        chrono::DateTime::<chrono::Utc>::MIN_UTC.timestamp()
    );
    assert_eq!(LAST_SECOND, chrono::DateTime::<chrono::Utc>::MAX_UTC.timestamp());
    let t = at(-5, 7);
    assert_eq!((t.seconds(), t.subsec_nanos()), (-5, 7));
}

#[test]
fn distances_are_rounded_toward_zero() {
    assert_eq!(millis_between(at(10, 0), at(7, 500_000)), 2999);
    assert_eq!(millis_between(at(7, 500_000), at(10, 0)), -2999);
    assert_eq!(millis_between(at(-1, 999_999_999), at(0, 0)), 0);
    assert_eq!(millis_between(at(200, 0), at(8, 0)), 192_000);
    assert_eq!(
        millis_between(at(LAST_SECOND, 999_999_999), at(FIRST_SECOND, 0)),
        16_544_868_105_599_999
    );
}

#[test]
fn the_clock_runs_forward_and_history_starts_earlier() {
    let before = utc_now();
    let since = log_history_since();
    let after = utc_now();
    assert!(before.not_after(&after));
    assert!(!after.not_after(&at(1_600_000_000, 0)));
    let low = millis_between(since, before);
    let high = millis_between(since, after);
    assert!(high <= -300_000 && -300_000 <= low + 1, "{low} {high}");
    assert_eq!(log_history_start(at(1000, 5)), at(700, 5));
    assert_eq!(log_history_start(at(0, 0)), at(-300, 0));
    assert_eq!(log_history_start(at(FIRST_SECOND + 300, 9)), at(FIRST_SECOND, 9));
}

#[test]
fn maps_keep_one_value_per_key() {
    let mut map: TextMap<u32> = TextMap::new();
    map.insert("a".to_string(), 1);
    map.insert("b".to_string(), 2);
    map.insert("a".to_string(), 3);
    assert_eq!(map.len(), 2);
    assert_eq!(map.get("a"), Some(&3));
    assert_eq!(map.remove("a"), Some(3));
    assert_eq!(map.remove("a"), None);
    assert!(!map.contains_key("a") && map.contains_key("b"));
    assert_eq!((map.key_at(0).as_str(), *map.value_at(0)), ("b", 2));
}

#[test]
fn sets_forget_by_prefix() {
    let mut set = TextSet::new();
    for item in ["a:1", "a:2", "ab:1", "a:1"] {
        set.insert(item.to_string());
    }
    set.remove_prefixed("a:");
    assert!(!set.contains("a:1") && !set.contains("a:2") && set.contains("ab:1"));
    set.remove("ab:1");
    assert!(!set.contains("ab:1"));
}

#[test]
fn numbers_with_points_agree_with_the_standard_library() {
    let pieces = ["", "0", "12", ".", "+", "-", "e", "E", "inf", "NaN", "infinity", " ", "x", "٣"];
    let check = |text: &str| {
        assert_eq!(reads_as_number(text), text.parse::<f32>().is_ok(), "{text:?}");
        assert_eq!(reads_as_number(text), text.parse::<f64>().is_ok(), "{text:?}");
        let share = share_text(text).parse::<f32>().unwrap();
        let expected = text.parse::<f32>().unwrap_or(0.0);
        assert!(share == expected || (share.is_nan() && expected.is_nan()), "{text:?}");
    };
    for a in pieces {
        for b in pieces {
            for c in pieces {
                for d in pieces {
                    check(&format!("{a}{b}{c}{d}"));
                    check(&format!("{a}{b}.{c}e{d}"));
                }
            }
        }
    }
    for text in ["1.5", "0.0", "-.5e-3", "1.e5", "1e", "1e+", "..1", "1.2.3", "1e5e5", "INFINITY"] {
        check(text);
    }
}
