use std::path::PathBuf;

use chrono::{TimeZone, Timelike, Utc};
use vigil::dict::{Dict, Pool};
use vigil::json::{
    explain, field_absent, field_items, field_optional_bool, field_optional_number,
    field_optional_string, field_string, field_string_or_empty, read_array, read_fields,
    read_object, read_string, ReadError,
};
use vigil::number::Decimal;
use vigil::order::sort;
use vigil::store::FileStore;
use vigil::text::{
    byte_len, contains, decimal_text, is_blank, join_texts, padded_hex_text, parse_u64,
    signed_decimal_text, split_once, starts_with,
};
use vigil::time::{Timestamp, FIRST_SECOND, LAST_SECOND};

fn strings(items: &[&str]) -> Vec<String> {
    items.iter().map(|s| s.to_string()).collect()
}

#[test]
fn instants_are_those_of_the_calendar() {
    for (seconds, nanos) in [
        (0, 0),
        (-1, 999_999_999),
        (1_771_581_600, 5),
        (59, 1_500_000_000),
        (58, 1_500_000_000),
        (0, 2_000_000_000),
        (FIRST_SECOND, 0),
        (FIRST_SECOND - 1, 0),
        (LAST_SECOND, 0),
        (LAST_SECOND + 1, 0),
        (i64::MAX, 0),
        (i64::MIN, 0),
    ] {
        let theirs = Utc.timestamp_opt(seconds, nanos).single();
        let ours = Timestamp::from_unix(seconds, nanos);
        assert_eq!(ours.is_some(), theirs.is_some(), "{seconds} {nanos}");
        if let (Some(ours), Some(theirs)) = (ours, theirs) {
            assert_eq!(ours.to_unix(), (seconds, nanos));
            assert_eq!(ours.hour(), theirs.hour() as usize);
            assert_eq!(ours.unix_nanos(), theirs.timestamp_nanos_opt());
            let day = ((seconds % 86_400) + 86_400) % 86_400;
            assert_eq!(ours.hour() as i64, day / 3_600);
        }
    }
}

#[test]
fn instants_are_read_from_texts() {
    let t = Timestamp::parse("2026-02-20T10:00:00.250Z").unwrap();
    assert_eq!(t.to_unix(), (1_771_581_600, 250_000_000));
    let offset = Timestamp::parse("2026-02-20T12:00:00+02:00").unwrap();
    assert_eq!(offset.to_unix(), (1_771_581_600, 0));
    assert!(Timestamp::parse("yesterday").is_none());
    assert!(Timestamp::parse("").is_none());
    assert!(Timestamp::now().to_unix().0 > 1_700_000_000);
}

#[test]
fn time_passes_in_whole_milliseconds() {
    let at = |s: i64, n: u32| Timestamp::from_unix(s, n).unwrap();
    assert_eq!(at(10, 0).millis_since(&at(9, 0)), 1000);
    assert_eq!(at(10, 1_999_999).millis_since(&at(10, 0)), 1);
    assert_eq!(at(10, 0).millis_since(&at(10, 1_999_999)), -1);
    assert_eq!(at(10, 0).millis_since(&at(10, 999_999)), 0);
    // A leap second counts.
    assert_eq!(at(60, 0).millis_since(&at(59, 1_000_000_000)), 1000);
    assert_eq!(at(59, 1_000_000_000).millis_since(&at(59, 0)), 1000);
    for (a, b) in [
        ((60, 0), (59, 1_200_000_000)),
        ((59, 1_200_000_000), (70, 5)),
        ((119, 1_700_000_000), (59, 1_200_000_000)),
        ((86_399, 1_700_000_000), (86_400, 0)),
        ((LAST_SECOND, 0), (FIRST_SECOND, 0)),
    ] {
        let theirs = Utc
            .timestamp_opt(a.0, a.1)
            .unwrap()
            .signed_duration_since(Utc.timestamp_opt(b.0, b.1).unwrap())
            .num_milliseconds();
        assert_eq!(at(a.0, a.1).millis_since(&at(b.0, b.1)), theirs);
    }
    assert!(at(1, 5).at_most(&at(1, 5)));
    assert!(at(1, 5).at_most(&at(2, 0)));
    assert!(!at(1, 5).at_most(&at(1, 4)));
}

#[test]
fn numerals() {
    assert_eq!(decimal_text(0), "0");
    assert_eq!(decimal_text(u64::MAX), u64::MAX.to_string());
    assert_eq!(signed_decimal_text(i64::MIN), i64::MIN.to_string());
    assert_eq!(signed_decimal_text(42), "42");
    assert_eq!(padded_hex_text(255, 4), "00ff");
    assert_eq!(padded_hex_text(u128::MAX, 32), "f".repeat(32));
    assert_eq!(padded_hex_text(0x12345, 2), "12345");
    assert_eq!(parse_u64("0012"), Some(12));
    assert_eq!(parse_u64("+3"), Some(3));
    for text in ["", "+", "-1", " 1", "1 ", "1_0", "\u{663}", "18446744073709551616"] {
        assert_eq!(parse_u64(text), None, "{text}");
        assert!(text.parse::<u64>().is_err());
    }
    assert_eq!(parse_u64("18446744073709551615"), Some(u64::MAX));
    for h in 0..=100 {
        assert_eq!(Decimal::from_hundredths(h).text, format!("{}", h as f64 / 100.0));
    }
    assert_eq!(Decimal::from_hundredths(101).text, "1");
}

#[test]
fn texts() {
    assert!(starts_with("/usr", "/"));
    assert!(!starts_with("", "/"));
    assert!(starts_with("x", ""));
    assert!(contains("my toolbox", "tool"));
    assert!(!contains("too l", "tool"));
    assert!(contains("", ""));
    assert_eq!(split_once("a->b->c", "->"), Some(("a".to_string(), "b->c".to_string())));
    assert_eq!(split_once("ab", "->"), None);
    assert_eq!(byte_len("h\u{e9}"), 3);
    assert_eq!(join_texts(&strings(&["a", "b", "c"]), ", "), "a, b, c");
    assert_eq!(join_texts(&vec![], ", "), "");
    for text in ["", " ", "\t\r\n", "\u{a0}\u{2003}\u{3000}", " x ", "\u{200b}", "\u{1680}"] {
        assert_eq!(is_blank(text), text.trim().is_empty());
    }
    for code in 0..0x3100 {
        if let Some(c) = char::from_u32(code) {
            assert_eq!(is_blank(&c.to_string()), c.is_whitespace(), "{code:x}");
        }
    }
}

#[test]
fn sorting_is_stable_and_by_character() {
    assert_eq!(
        sort(strings(&["b", "a", "", "ab", "B", "\u{e9}", "a"])),
        strings(&["", "B", "a", "a", "ab", "b", "\u{e9}"])
    );
    let mut theirs = strings(&["z", "\u{10000}", "\u{ffff}", "za", "A"]);
    let ours = sort(theirs.clone());
    theirs.sort();
    assert_eq!(ours, theirs);
}

#[test]
fn tables_keep_the_order_of_their_keys() {
    let mut d: Dict<String, u64> = Dict::new();
    d.set("b".to_string(), 1);
    d.set("a".to_string(), 2);
    d.set("b".to_string(), 3);
    assert_eq!(d.len(), 2);
    assert_eq!(d.key_at(0), "b");
    assert_eq!(*d.value_at(0), 3);
    assert_eq!(d.get(&"a".to_string()), Some(&2));
    assert!(d.get(&"c".to_string()).is_none());
    assert!(!d.contains_key(&"c".to_string()));
    let mut p: Pool<String> = Pool::new();
    p.insert("x".to_string());
    p.insert("y".to_string());
    p.insert("x".to_string());
    assert_eq!(p.len(), 2);
    assert_eq!(p.item_at(1), "y");
    assert!(p.copy().contains(&"x".to_string()));
}

#[test]
fn json_fields() {
    let text = r#"{"s":"\u0041","n":7,"o":{"x":"y"}}"#;
    assert_eq!(read_string(text, "/s").as_deref(), Some("A"));
    assert_eq!(read_string(text, "/n"), None);
    assert_eq!(read_string(text, "/o/x").as_deref(), Some("y"));
    assert_eq!(field_string(Some(" \"a\\n\" ")).as_deref(), Some("a\n"));
    assert_eq!(field_string(Some("7")), None);
    assert_eq!(field_string(None), None);
    assert!(field_absent(None) && field_absent(Some(" null")) && !field_absent(Some("0")));
    assert_eq!(field_optional_string(Some("null")), Some(None));
    assert_eq!(field_optional_string(None), Some(None));
    assert_eq!(field_optional_string(Some("7")), None);
    assert_eq!(field_optional_string(Some("\"x\"")), Some(Some("x".to_string())));
    assert_eq!(field_string_or_empty(None).as_deref(), Some(""));
    assert_eq!(field_string_or_empty(Some("null")), None);
    assert_eq!(field_optional_number(Some("7")), Some(Some(7)));
    assert_eq!(field_optional_number(Some("-7")), None);
    assert_eq!(field_optional_number(Some("1.5")), None);
    assert_eq!(field_optional_bool(Some("true")), Some(Some(true)));
    assert_eq!(field_optional_bool(Some("\"true\"")), None);
    assert_eq!(field_items(Some("[1, {\"k\": 2}]")), Some(vec!["1", " {\"k\": 2}"]));
    assert_eq!(field_items(None), Some(vec![]));
    assert_eq!(field_items(Some("{}")), None);
    assert_eq!(explain("{"), ReadError::NotJson);
    assert_eq!(explain("{} x"), ReadError::NotJson);
    assert_eq!(explain(" {} "), ReadError::Unexpected);
}

#[test]
fn json_objects_and_arrays() {
    let members = |items: &[(&str, &'static str)]| {
        Some(items.iter().map(|(k, v)| (k.to_string(), *v)).collect::<Vec<_>>())
    };
    assert_eq!(read_object("{}"), members(&[]));
    assert_eq!(read_object(" \n\t\r{ } "), members(&[]));
    assert_eq!(
        read_object("{\"a\":1,\"\\u0062\" : [2 ] , \"a\": null\n}"),
        members(&[("a", "1"), ("b", " [2 ]"), ("a", " null")])
    );
    assert_eq!(read_array("[]"), Some(vec![]));
    assert_eq!(read_array("[\"]\",{\"k\":[]} , -1e3]"), Some(vec!["\"]\"", "{\"k\":[]}", " -1e3"]));
    for text in [
        "", "{", "{\"a\"}", "{\"a\":}", "{\"a\":1,}", "{,}", "{\"a\":1 \"b\":2}", "{a:1}", "{1:1}",
        "{\"a\":1}}", "{\"a\":1} x", "[]", "null", "{\"\\ud800\":1}", "{\"a\":\"\u{1}\"}",
    ] {
        assert!(read_object(text).is_none(), "{text}");
    }
    for text in ["", "[", "[1,]", "[,]", "[1 2]", "[1]]", "[1] x", "{}", "null", "[01]", "[nul]"] {
        assert!(read_array(text).is_none(), "{text}");
    }
}

#[test]
fn json_records() {
    let names = vec!["a", "b"];
    assert_eq!(
        read_fields("{\"b\":1,\"x\":2,\"x\":3}", &names, 1),
        Some(vec![None, Some("1")])
    );
    assert_eq!(read_fields("{}", &names, 1), Some(vec![None, None]));
    assert_eq!(read_fields("{\"a\":1,\"b\":2,\"a\":1}", &names, 1), None);
    assert_eq!(read_fields("[1]", &names, 1), Some(vec![Some("1"), None]));
    assert_eq!(read_fields("[1,2]", &names, 1), Some(vec![Some("1"), Some("2")]));
    assert_eq!(read_fields("[]", &names, 1), None);
    assert_eq!(read_fields("[]", &names, 0), Some(vec![None, None]));
    assert_eq!(read_fields("[1,2,3]", &names, 0), None);
    assert_eq!(read_fields("7", &names, 0), None);
}

#[test]
fn stores_have_a_layout() {
    let store = FileStore::new(PathBuf::from("/tmp/vigil"));
    assert_eq!(store.root, PathBuf::from("/tmp/vigil"));
    assert_eq!(store.agent_dir("a"), strings(&["a"]));
    assert_eq!(store.baseline_path("a"), strings(&["a", "baseline.json"]));
    assert_eq!(store.events_path("a"), strings(&["a", "events.jsonl"]));
    assert_eq!(store.list_agents(strings(&["beta", "alpha"])), strings(&["alpha", "beta"]));
}
