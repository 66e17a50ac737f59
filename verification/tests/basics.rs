use jobfather::db::job_output::{file_text, is_valid_file};
use jobfather::decimal;
use jobfather::json::Json;
use jobfather::order;
use jobfather::sorted_map::SortedMap;
use jobfather::text;
use jobfather::time::{self, Timestamp};

fn at(secs: i64) -> Timestamp {
    Timestamp::new(secs, 0).unwrap()
}

#[test]
fn decimals_round_trip() {
    for n in [0, 1, -1, 42, i64::MAX, i64::MIN] {
        let s = decimal::of_i64(n);
        assert_eq!(s, n.to_string());
        assert_eq!(decimal::parse_i64(&s), Some(n));
    }
    assert_eq!(decimal::of_u64(u64::MAX), u64::MAX.to_string());
}

#[test]
fn decimals_read_like_std() {
    for s in ["", "+", "-", "+7", "-7", "007", "4294967295", "4294967296", "1x", " 1", "-0"] {
        assert_eq!(decimal::parse_u32(s), s.parse::<u32>().ok(), "{}", s);
        assert_eq!(decimal::parse_i64(s), s.parse::<i64>().ok(), "{}", s);
        assert_eq!(decimal::parse_usize(s), s.parse::<usize>().ok(), "{}", s);
    }
    for s in ["9223372036854775807", "9223372036854775808", "-9223372036854775808", "-9223372036854775809"] {
        assert_eq!(decimal::parse_i64(s), s.parse::<i64>().ok(), "{}", s);
    }
}

#[test]
fn texts_like_std() {
    assert_eq!(text::trim(" \t daily\n\u{2003}"), "daily");
    assert_eq!(text::trim_end_matches("http://x//", '/'), "http://x");
    assert!(text::starts_with("env_name_1", "env_name_"));
    assert!(!text::starts_with("env", "env_name_"));
    assert!(text::ends_with("a.json", ".json"));
    assert!(!text::ends_with("json", ".json"));
    assert_eq!(text::without_prefix("./a/b", "./"), "a/b");
    for s in ["", "a", "a\n", "a\n\nb", "a\r\nb\r\n", "\n", "a\rb"] {
        let expected: Vec<String> = s.lines().map(|l| l.to_string()).collect();
        assert_eq!(text::lines(s), expected, "{:?}", s);
    }
    assert_eq!(text::join(&vec!["a".to_string(), "b".to_string()], ", "), "a, b");
}

#[test]
fn texts_are_ordered_like_std() {
    for (a, b) in [("", "a"), ("a", "a"), ("a-20260102", "a-20260103"), ("b", "a"), ("\u{e000}", "\u{10000}")] {
        assert_eq!(order::le(a, b), a <= b, "{} {}", a, b);
    }
}

#[test]
fn sorted_maps_keep_one_value_per_key() {
    let m = SortedMap::new();
    let m = m.insert("b".to_string(), 1i64);
    let m = m.insert("a".to_string(), 2i64);
    let m = m.insert("b".to_string(), 3i64);
    assert_eq!(m.len(), 2);
    assert_eq!((m.key(0).as_str(), *m.value(0)), ("a", 2));
    assert_eq!((m.key(1).as_str(), *m.value(1)), ("b", 3));
    assert_eq!(m.get("b"), Some(&3));
    assert!(!m.contains_key("c"));
}

#[test]
fn json_objects() {
    let j = Json::object().set("a", Json::text("x")).set("b", Json::array(vec![Json::Null]));
    assert!(j.has("a"));
    assert!(!j.has("c"));
    assert_eq!(j.get_text("a"), Some(&"x".to_string()));
    assert_eq!(j.get_array("b").unwrap().len(), 1);
    assert!(j.get_text("b").is_none());
    assert_eq!(Json::Number("-12".to_string()).as_i64(), Some(-12));
    assert_eq!(Json::Number("1.5".to_string()).as_i64(), None);
    let j = j.set("a", Json::text("y"));
    assert_eq!(j.get_text("a"), Some(&"y".to_string()));
}

#[test]
fn moments_are_written() {
    // 2026-03-07 02:02:00 UTC
    let t = at(1_772_848_920);
    assert_eq!(time::to_rfc3339(&t), "2026-03-07T02:02:00+00:00");
    assert_eq!(time::to_date_time(&t), "2026-03-07 02:02:00");
    assert_eq!(time::to_name_suffix(&t), "20260307-020200");
    let half = Timestamp::new(1_772_848_920, 500_000_000).unwrap();
    assert_eq!(time::to_rfc3339(&half), "2026-03-07T02:02:00.500+00:00");
}

#[test]
fn moments_are_read() {
    assert_eq!(time::parse_utc("2026-03-07T02:02:00+00:00"), Some(at(1_772_848_920)));
    assert_eq!(time::parse_utc("2026-03-06T21:02:00-05:00"), Some(at(1_772_848_920)));
    assert_eq!(time::parse_utc("yesterday"), None);
}

#[test]
fn moments_have_a_range() {
    assert!(Timestamp::new(time::MAX_SECS, 999_999_999).is_some());
    assert!(Timestamp::new(time::MAX_SECS + 1, 0).is_none());
    assert!(Timestamp::new(time::MIN_SECS, 0).is_some());
    assert!(Timestamp::new(time::MIN_SECS - 1, 0).is_none());
    assert!(Timestamp::new(0, 1_000_000_000).is_none());
    let first = time::to_rfc3339(&at(time::MIN_SECS));
    let last = time::to_rfc3339(&at(time::MAX_SECS));
    assert!(!first.is_empty() && !last.is_empty());
}

#[test]
fn seconds_between_moments_are_cut_toward_zero() {
    let a = Timestamp::new(10, 900_000_000).unwrap();
    let b = Timestamp::new(12, 100_000_000).unwrap();
    assert_eq!(b.seconds_since(&a), 1);
    assert_eq!(a.seconds_since(&b), -1);
    // A leap second comes after the second whose number it shares and before the next.
    let leap = time::parse_utc("2016-12-31T23:59:60.5Z").unwrap();
    assert_eq!((leap.seconds(), leap.subsec_nanos()), (1_483_228_799, 1_500_000_000));
    let next = at(1_483_228_800);
    assert!(at(1_483_228_799).le(&leap) && !leap.le(&at(1_483_228_799)));
    assert!(leap.le(&next) && !next.le(&leap));
    assert_eq!(leap.nanos_since(&at(1_483_228_799)), 1_500_000_000);
    assert_eq!(time::to_rfc3339(&leap), "2016-12-31T23:59:60.500+00:00");
    let noon_leap = time::parse_utc("2016-06-30T12:00:60Z").unwrap();
    assert_eq!(at(noon_leap.seconds() + 10).seconds_since(&noon_leap), 10);
    assert_eq!(noon_leap.seconds_since(&at(noon_leap.seconds() + 10)), -10);
    assert!(Timestamp::new(58, 1_000_000_000).is_none());
    assert!(Timestamp::new(59, 2_000_000_000).is_none());
    assert!(a.le(&b) && !b.le(&a));
    assert_eq!(time::later(Some(a), Some(b)), Some(b));
    assert_eq!(time::later(None, Some(a)), Some(a));
    assert_eq!(time::later(None, None), None);
}

#[test]
fn output_files() {
    for name in ["result.json", "report.md", "test-results.xml", "archive.tar.gz", "test-snapshots.tar.gz"] {
        assert!(is_valid_file(name));
    }
    assert!(!is_valid_file("_snapshot_status"));
    assert!(!is_valid_file(""));
    assert_eq!(file_text(Some(b"gr\xc3\xbcn".to_vec())), Some("gr\u{fc}n".to_string()));
    assert_eq!(file_text(Some(vec![0xff])), None);
    assert_eq!(file_text(None), None);
}
