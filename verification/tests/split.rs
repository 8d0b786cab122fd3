use mimas::split::{lines, replace, split};

fn std_split(s: &str, d: &str) -> Vec<String> {
    s.split(d).map(String::from).collect()
}

fn std_lines(s: &str) -> Vec<String> {
    s.lines().map(String::from).collect()
}

const SAMPLES: [&str; 9] = [
    "",
    "a,b,,c",
    ",lead",
    "trail,",
    "no delimiter",
    "héllo, wörld, ünïcode",
    "aaaa",
    "line one\nline two\r\nline three\n",
    "x\r\n\r\ny\r",
];

#[test]
fn split_agrees_with_std() {
    for s in SAMPLES {
        for d in [",", ", ", "aa", "\n", "ö", "", "missing"] {
            assert_eq!(split(s, d), std_split(s, d), "{s:?} split by {d:?}");
        }
    }
    assert_eq!(split("a,b", ","), vec!["a", "b"]);
    assert_eq!(split("ab", ""), vec!["", "a", "b", ""]);
    assert_eq!(split("aaa", "aa"), vec!["", "a"]);
}

#[test]
fn lines_agree_with_std() {
    for s in SAMPLES {
        assert_eq!(lines(s), std_lines(s), "lines of {s:?}");
    }
    assert_eq!(lines("a\r\nb\n"), vec!["a", "b"]);
    assert_eq!(lines(""), Vec::<String>::new());
    assert_eq!(lines("\n"), vec![""]);
    assert_eq!(lines("a\r"), vec!["a\r"]);
}

#[test]
fn replace_agrees_with_std() {
    for s in SAMPLES {
        for (needle, new) in [(",", ";"), ("a", "bb"), ("", "-"), ("ü", "u"), ("\r\n", "\n")] {
            assert_eq!(replace(s, needle, new), s.replace(needle, new), "{s:?}: {needle:?} -> {new:?}");
        }
    }
    assert_eq!(replace("aaa", "aa", "b"), "ba");
    assert_eq!(replace("ab", "", "X"), "XaXbX");
}

#[test]
fn joining_the_pieces_gives_the_text_back() {
    for s in SAMPLES {
        for d in [",", "aa", "\n", ""] {
            assert_eq!(split(s, d).join(d), s, "{s:?} by {d:?}");
            assert_eq!(replace(s, d, d), s, "{s:?} by {d:?}");
        }
    }
}
