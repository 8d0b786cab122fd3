use mimas::natives::{
    abs, caller_line, caller_loc, capitalize, clamp, contains, ends_with, is_empty, len, max,
    min, ord, parse_int, random, repeat, starts_with, to_int, to_lower, to_snake, to_str,
    to_upper, trim_text, RtErr,
};
use mimas::patterns::{find, find_all};

fn message(e: RtErr) -> String {
    match e {
        RtErr::InvalidArgument(m) => m,
    }
}

#[test]
fn int_methods() {
    assert_eq!(abs(-7), 7);
    assert_eq!(abs(7), 7);
    assert_eq!(abs(i64::MAX), i64::MAX);
    assert_eq!(min(3, -2), -2);
    assert_eq!(max(3, -2), 3);
    assert_eq!(clamp(15, 0, 10).unwrap(), 10);
    assert_eq!(clamp(-5, 0, 10).unwrap(), 0);
    assert_eq!(clamp(4, 0, 10).unwrap(), 4);
    assert_eq!(clamp(4, 4, 4).unwrap(), 4);
    assert_eq!(message(clamp(4, 10, 0).unwrap_err()), "clamp requires lo <= hi");
}

#[test]
fn ints_print_and_read_back() {
    for n in [0i64, 7, -7, 10, 1234567890, i64::MAX, i64::MIN] {
        assert_eq!(to_str(n), n.to_string());
        assert_eq!(parse_int(&to_str(n)), Some(n));
    }
    assert_eq!(to_int("  42 "), Some(42));
    assert_eq!(to_int("+5"), Some(5));
    assert_eq!(to_int("-0"), Some(0));
    assert_eq!(to_int("4 2"), None);
    assert_eq!(to_int(""), None);
    assert_eq!(to_int("-"), None);
    assert_eq!(to_int("12a"), None);
    assert_eq!(to_int("9223372036854775807"), Some(i64::MAX));
    assert_eq!(to_int("9223372036854775808"), None);
    assert_eq!(to_int("-9223372036854775808"), Some(i64::MIN));
    assert_eq!(to_int("-9223372036854775809"), None);
    assert_eq!(to_int("000000000000000000000000000012"), Some(12));
    assert_eq!(to_int("99999999999999999999999999x"), None);
}

#[test]
fn str_queries() {
    assert_eq!(len("héllo"), 5);
    assert_eq!(len(""), 0);
    assert!(is_empty(""));
    assert!(!is_empty(" "));
    assert!(contains("fare_amount", "re_a"));
    assert!(contains("abc", ""));
    assert!(!contains("abc", "abcd"));
    assert!(!contains("abc", "ca"));
    assert!(starts_with("kWh", "kW"));
    assert!(!starts_with("kW", "kWh"));
    assert!(ends_with("kWh", "Wh"));
    assert!(!ends_with("kWh", "kW"));
    assert_eq!(ord("A"), Some(65));
    assert_eq!(ord("é!"), Some(233));
    assert_eq!(ord(""), None);
}

#[test]
fn capitalize_upper_cases_the_first_character_only() {
    assert_eq!(capitalize("hello world"), "Hello world");
    assert_eq!(capitalize("éa"), "Éa");
    assert_eq!(capitalize("ßa"), "SSa");
    assert_eq!(capitalize("ABC"), "ABC");
    assert_eq!(capitalize(""), "");
}

#[test]
fn repeat_counts_and_limits() {
    assert_eq!(repeat("ab", 3).unwrap(), "ababab");
    assert_eq!(repeat("ab", 0).unwrap(), "");
    assert_eq!(repeat("", 1_000_000).unwrap(), "");
    assert_eq!(message(repeat("ab", -1).unwrap_err()), "repeat count cannot be negative");
    assert_eq!(message(repeat("ab", i64::MAX).unwrap_err()), "repeat result would be too large");
}

#[test]
fn call_sites_map_back_to_lines() {
    let text = "let a = 1;\nlet b = emit();\n\nlet c = 3;\n";
    assert_eq!(caller_line(text, 0), 1);
    assert_eq!(caller_line(text, 11), 2);
    assert_eq!(caller_line(text, 28), 4);
    assert_eq!(caller_line(text, 10_000), 5);
    // chunk 0 starts at byte 100 of the program; its source positions by offset
    let offsets = vec![100usize, 400];
    let locs = vec![vec![(0usize, (7usize, 0usize)), (5, (7, 11)), (9, (7, 28))], vec![(0, (8, 3))]];
    let stack = vec![(0usize, 108usize), (1, 402)];
    assert_eq!(caller_loc(&stack, &offsets, &locs, 0), Some((8, 3)));
    assert_eq!(caller_loc(&stack, &offsets, &locs, 1), Some((7, 11)));
    assert_eq!(caller_loc(&stack, &offsets, &locs, 2), None);
    assert_eq!(caller_loc(&stack, &offsets, &locs, -1), None);
    // an instruction at the very start of its chunk has nothing before it
    let first = vec![(0usize, 100usize)];
    assert_eq!(caller_loc(&first, &offsets, &locs, 0), None);
    let missing_chunk = vec![(5usize, 100usize)];
    assert_eq!(caller_loc(&missing_chunk, &offsets, &locs, 0), None);
}

#[test]
fn parse_int_agrees_with_std() {
    let cases = [
        "", "+", "-", "0", "-0", "+0", "007", "12", "-12", "+12", " 1", "1 ", "1_000", "1e3",
        "0x10", "9223372036854775806", "9223372036854775807", "9223372036854775808",
        "-9223372036854775807", "-9223372036854775808", "-9223372036854775809",
        "99999999999999999999", "--1", "+-1", "١٢", "12a", "a12",
    ];
    for c in cases {
        assert_eq!(parse_int(c), c.parse::<i64>().ok(), "{c:?}");
    }
    for c in ["  42\n", "\t-7 ", "x"] {
        assert_eq!(to_int(c), c.trim().parse::<i64>().ok(), "{c:?}");
    }
}

#[test]
fn caller_line_of_a_script_call_site() {
    let src = "use std::debug;
fn emit() -> int {
    debug::caller_line(1)!
}
fn run() -> int {
    emit()
}
let VIA_EMIT = run();
let DIRECT = debug::caller_line(0)!;
";
    let via_emit = src.find("    emit()").unwrap() + 4;
    let direct = src.find("debug::caller_line(0)").unwrap();
    assert_eq!(caller_line(src, via_emit), 6);
    assert_eq!(caller_line(src, direct), 9);
}

#[test]
fn trim_drops_unicode_whitespace_at_both_ends() {
    assert_eq!(trim_text("\u{3000} a b\t\n"), "a b");
    assert_eq!(trim_text("\u{a0}x\u{2003}"), "x");
    assert_eq!(trim_text(" \t "), "");
    assert_eq!(trim_text("inner  space"), "inner  space");
    assert_eq!(to_int("\u{2009}7\u{2009}"), Some(7));
}

#[test]
fn case_conversions_follow_std_and_heck() {
    assert_eq!(to_upper("straße"), "STRASSE");
    assert_eq!(to_lower("ÀBC"), "àbc");
    assert_eq!(to_lower("ὈΔΥΣΣΕΎΣ"), "ὀδυσσεύς");
    assert_eq!(
        to_snake("We carry a new world here, in our hearts."),
        "we_carry_a_new_world_here_in_our_hearts"
    );
    assert_eq!(to_snake("XMLHttpRequest"), "xml_http_request");
}

#[test]
fn random_stays_below_its_bound() {
    for _ in 0..200 {
        let v = random(3).unwrap();
        assert!((0..3).contains(&v), "{v}");
    }
    assert_eq!(random(1).unwrap(), 0);
    assert!(matches!(random(0), Err(RtErr::InvalidArgument(m)) if m == "random requires len > 0"));
    assert!(random(-5).is_err());
}

#[test]
fn find_reads_capture_groups() {
    assert_eq!(
        find("AZ", r"(\w)(\d)?(\w)"),
        Ok(Some(vec!["AZ".to_string(), "A".to_string(), "Z".to_string()]))
    );
    assert_eq!(find("abc", r"\d+"), Ok(None));
    let bad = find("abc", "(").unwrap_err();
    assert_eq!(bad, regex::Regex::new("(").unwrap_err().to_string());
    assert_eq!(
        find_all("a1 b22 c", r"([a-z])(\d+)"),
        Ok(Some(vec![
            vec!["a1".to_string(), "a".to_string(), "1".to_string()],
            vec!["b22".to_string(), "b".to_string(), "22".to_string()],
        ]))
    );
    assert_eq!(find_all("xyz", r"\d"), Ok(Some(vec![])));
    assert!(find_all("xyz", "[").is_err());
}
