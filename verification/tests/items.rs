use mimas::digest::{hash_item, hex_digest};
use mimas::items::{
    apply_item, apply_item_span, at_byte, at_line, caller_count, callers, callers_counts_overlay,
    callers_overlay, callers_page_overlay, extract, fn_count, fn_counts_overlay, hashes_overlay,
    named, names,
    rename_fn, try_extract, unique_copy_name, unique_name, Item,
};
use mimas::refs::{Argument, Expr, Literal};

const SRC: &str = r#"fn square(n: int) -> int {
    n * n
}

fn twice(n: int) -> int {
    square(n) + square(n)
}

// example: square(4) is 16
"#;

#[test]
fn extracts_two_functions() {
    let items = extract(SRC, None);
    assert_eq!(names(&items), vec!["square", "twice"]);
    assert_eq!(fn_count(SRC, None), 2);
    assert_eq!(fn_counts_overlay(SRC, None), "fns       2");
    assert!(hashes_overlay(SRC, None, &[None, None]).contains("square  "));
    assert!(items[0].hash_line(None).starts_with("square  "));
    assert!(items[0].source.contains("n * n"));
    assert!(items[1].source.contains("square(n)"));
    assert_eq!(items[0].line(SRC), 1);
    assert!(items[0].overlay_line(SRC).contains("L1"));
    assert_eq!(items[1].line(SRC), 5);
    assert_eq!(items[0].line_span(SRC), (1, 3));
    assert_eq!(items[0].n_lines(), 3);
    assert!(
        items[0].counts_overlay(SRC).contains("lines     3"),
        "{}",
        items[0].counts_overlay(SRC)
    );
    assert!(items[0].contains_line(SRC, 2));
    assert!(!items[0].contains_line(SRC, 5));
    assert_eq!(items[1].line_span(SRC), (5, 7));
}

#[test]
fn nested_braces_and_strings() {
    let src = r#"fn talk() {
    let s = "fn decoy() { }";
    if true {
        print(s);
    }
}
"#;
    let items = extract(src, None);
    assert_eq!(items.len(), 1);
    assert_eq!(items[0].name, "talk");
    assert!(items[0].source.contains("decoy"));
}

/// No item's parse is known: every reference check falls back to the text search.
fn unparsed(n: usize) -> Vec<Option<Expr>> {
    (0..n).map(|_| None).collect()
}

fn id(s: &str) -> Expr {
    Expr::Ident(s.to_string())
}

fn text(s: &str) -> Expr {
    Expr::Literal(Literal::Str(s.to_string()))
}

fn arg(value: Expr) -> Argument {
    Argument { name: None, value }
}

/// `a * b`, `a + b` and the other arithmetic operators.
fn op(a: Expr, b: Expr) -> Expr {
    Expr::Evaluation(Box::new(a), Box::new(b))
}

/// `f(args...)`.
fn call(f: &str, args: Vec<Expr>) -> Expr {
    Expr::Call(Box::new(id(f)), args.into_iter().map(arg).collect())
}

/// The parsed bodies of `SRC`'s two functions: `n * n` and `square(n) + square(n)`.
fn src_bodies() -> Vec<Option<Expr>> {
    vec![
        Some(op(id("n"), id("n"))),
        Some(op(call("square", vec![id("n")]), call("square", vec![id("n")]))),
    ]
}

#[test]
fn twice_calls_square() {
    let items = extract(SRC, None);
    let refs = src_bodies();
    assert_eq!(callers(&items, "square", &refs), vec!["twice"]);
    assert_eq!(caller_count(&items, "square", &refs), 1);
    assert!(
        callers_counts_overlay(SRC, "square", None, &refs).contains("callers   1"),
        "{}",
        callers_counts_overlay(SRC, "square", None, &refs)
    );
    assert_eq!(caller_count(&items, "twice", &refs), 0);
    assert!(named(&items, "twice").unwrap().mentions("square", refs[1].as_ref()));
    assert!(!named(&items, "square").unwrap().mentions("twice", refs[0].as_ref()));
    assert!(named(&items, "twice").unwrap().mentions("square", None));
    assert!(!named(&items, "square").unwrap().mentions("twice", None));
    assert!(callers(&items, "twice", &refs).is_empty());
    let overlay = callers_overlay(SRC, "square", None, &refs);
    assert!(overlay.contains("twice"), "{overlay}");
    assert!(overlay.contains("L5"), "{overlay}");
    assert!(callers_overlay(SRC, "twice", None, &refs).contains("no callers"));
    let page = callers_page_overlay(SRC, None, &refs);
    assert!(page.contains("square  <-  twice"), "{page}");
    assert!(page.contains("twice  no callers"), "{page}");
}

#[test]
fn callers_use_the_ast_not_substrings() {
    // `square(` in a string or comment must not count as a call; a bare
    // reference (stored/passed value) does.
    let src = r#"fn square(n: int) -> int { n * n }
fn mentions_it() -> string { "call square(n) now" }
// fn in_comment() { square(2) }
fn holds_it() -> _ { square }
fn calls_it() -> int { square(3) }
"#;
    let items = extract(src, None);
    assert_eq!(names(&items), vec!["square", "mentions_it", "holds_it", "calls_it"]);
    // each item's parsed body
    let refs = vec![
        Some(op(id("n"), id("n"))),
        Some(text("call square(n) now")),
        Some(id("square")),
        Some(call("square", vec![Expr::Literal(Literal::Int(3))])),
    ];
    let found = callers(&items, "square", &refs);
    assert!(found.contains(&"calls_it"), "{found:?}");
    assert!(found.contains(&"holds_it"), "{found:?}");
    assert!(!found.contains(&"mentions_it"), "{found:?}");
    // the text search alone is fooled both ways
    let by_text = callers(&items, "square", &unparsed(items.len()));
    assert_eq!(by_text, vec!["mentions_it", "calls_it"]);
}

#[test]
fn hash_changes_when_body_changes() {
    let a = extract("fn x() { 1 }\n", None)[0].source.clone();
    let b = extract("fn x() { 2 }\n", None)[0].source.clone();
    assert_ne!(hash_item(None, &a), hash_item(None, &b));
    assert_eq!(hash_item(None, &a), hash_item(None, &a));
    assert_eq!(extract("fn x() { 1 }\n", None)[0].hash(None), hash_item(None, &a));
}

#[test]
fn named_and_at_byte_find_the_item() {
    let items = extract(SRC, None);
    assert_eq!(
        named(&items, "twice").map(|i| i.name.as_str()),
        Some("twice")
    );
    assert!(named(&items, "nope").is_none());
    let twice = named(&items, "twice").unwrap();
    assert!(twice.byte_len() > 0);
    assert_eq!(twice.byte_len(), twice.end - twice.start);
    let (lo, hi) = twice.char_span(SRC);
    assert!(hi > lo);
    assert!(SRC
        .chars()
        .skip(lo)
        .take(hi - lo)
        .collect::<String>()
        .contains("fn twice"));
    assert_eq!(
        at_byte(&items, twice.start).map(|i| i.name.as_str()),
        Some("twice")
    );
    assert!(at_byte(&items, twice.end).is_none());
}

#[test]
fn at_line_and_unique_name() {
    let items = extract(SRC, None);
    assert_eq!(
        at_line(&items, SRC, 2).map(|i| i.name.as_str()),
        Some("square")
    );
    assert_eq!(
        at_line(&items, SRC, 6).map(|i| i.name.as_str()),
        Some("twice")
    );
    assert!(at_line(&items, SRC, 9).is_none());
    assert_eq!(unique_name(&items, "cube"), "cube");
    assert_eq!(unique_name(&items, "square"), "square_2");
    assert_eq!(unique_copy_name(&items, "square"), "square_copy");
    assert_eq!(unique_copy_name(&items, "twice"), "twice_copy");
    assert!(rename_fn(&items[0].source, "square", "cube").starts_with("fn cube"));
    let replaced = apply_item(
        SRC,
        &Item::named("square", "fn square(n: int) -> int { n }\n"),
        None,
    );
    assert!(
        replaced.contains("fn square(n: int) -> int { n }"),
        "{replaced}"
    );
    assert!(replaced.contains("fn twice"), "{replaced}");
    let added = apply_item(
        SRC,
        &Item::named("cube", "fn cube(n: int) -> int { n * n * n }\n"),
        None,
    );
    assert!(added.contains("fn cube"), "{added}");
    let (lo, del, ins) = apply_item_span(
        SRC,
        &Item::named("square", "fn square(n: int) -> int { n }\n"),
        None,
    );
    assert_eq!(lo, 0);
    assert!(del > 0);
    assert!(ins.contains("fn square(n: int) -> int { n }"));
}

#[test]
fn where_block_is_not_extracted_as_code() {
    let src = "fn square(n: int) -> int { n * n }\nwhere:\n    square(0) is 0\n    square(2) is 4\n\n// fn decoy() { 1 }\n";
    let items = extract(src, None);
    assert_eq!(names(&items), vec!["square"]);
}

#[test]
fn items_keep_their_exact_spans() {
    let src = "fn a() { 1 }\n\nfn b() {\n  { 2 }\n}\n";
    let items = extract(src, None);
    assert_eq!(items.len(), 2);
    assert_eq!((items[0].start, items[0].end), (0, 12));
    assert_eq!(items[0].source, "fn a() { 1 }");
    assert_eq!((items[1].start, items[1].end), (14, 32));
    assert_eq!(items[1].source, "fn b() {\n  { 2 }\n}");
    assert!(items[0].end <= items[1].start);
}

#[test]
fn comments_and_char_literals_hide_braces() {
    let src = "fn a() { let c = '}'; /* } */ // }\n 3 }\nfn b() { 4 }\n";
    let items = extract(src, None);
    assert_eq!(names(&items), vec!["a", "b"]);
    assert!(items[0].source.ends_with("3 }"));
}

#[test]
fn nested_fns_are_not_top_level() {
    let src = "fn outer() { fn inner() { 1 } inner() }\n";
    assert_eq!(names(&extract(src, None)), vec!["outer"]);
}

#[test]
fn fn_needs_whitespace_before_and_after() {
    assert!(extract("xfn a() { 1 }\n", None).is_empty());
    assert!(extract("fn(a) { 1 }\n", None).is_empty());
    assert_eq!(names(&extract("fn_helper() { 1 }\n", None)), vec!["_helper"]);
}

#[test]
fn unclosed_body_gives_no_item() {
    assert!(extract("fn a() { 1 \n", None).is_empty());
    assert!(extract("fn a()\n", None).is_empty());
}

#[test]
fn non_ascii_inside_literals_is_fine() {
    let items = extract("fn greet() { \"héllo\" }\n", None);
    assert_eq!(names(&items), vec!["greet"]);
    assert_eq!(items[0].char_span("fn greet() { \"héllo\" }\n"), (0, 22));
}

#[test]
fn rename_rewrites_only_the_first_header() {
    assert_eq!(rename_fn("fn f() { fn f() }", "f", "g"), "fn g() { fn f() }");
    assert_eq!(rename_fn("let x = 1;", "f", "g"), "let x = 1;");
    assert_eq!(
        rename_fn("fn _ ( n : int ) -> int { n * n }", "_", "square"),
        "fn square ( n : int ) -> int { n * n }"
    );
}

#[test]
fn appending_adds_a_blank_line() {
    let out = apply_item("fn a() { 1 }", &Item::named("b", "fn b() { 2 }"), None);
    assert_eq!(out, "fn a() { 1 }\n\nfn b() { 2 }\n");
    let out = apply_item("", &Item::named("b", "fn b() { 2 }\n"), None);
    assert_eq!(out, "fn b() { 2 }\n");
    let (lo, del, _) = apply_item_span("fn a() { 1 }\n", &Item::named("b", "x"), None);
    assert_eq!((lo, del), (13, 0));
}

#[test]
fn replacing_keeps_the_rest_of_the_page() {
    let src = "fn a() { 1 }\nfn b() { 2 }\n";
    let out = apply_item(src, &Item::named("a", "fn a() { 10 }"), None);
    assert_eq!(out, "fn a() { 10 }\nfn b() { 2 }\n");
}

#[test]
fn caller_lists_and_page_report() {
    let src = "fn a() { b() + c() }\nfn b() { c() }\nfn c() { 1 }\n";
    let items = extract(src, None);
    let refs = unparsed(3);
    assert_eq!(callers(&items, "c", &refs), vec!["a", "b"]);
    assert_eq!(
        callers_page_overlay(src, None, &refs),
        "a  no callers\nb  <-  a\nc  <-  a, b"
    );
    assert_eq!(
        callers_overlay(src, "b", None, &refs),
        "b  <-  1 caller(s)\n  a  L1  [0..20]"
    );
    assert_eq!(callers_page_overlay("let x = 1;", None, &[]), "no fn items");
    assert_eq!(callers_counts_overlay(src, "c", None, &refs), "callee    c\ncallers   2");
    // a parsed item is a caller exactly when its body refers to the callee
    let parsed = vec![
        Some(op(call("b", vec![]), text("c()"))),
        None,
        Some(Expr::Literal(Literal::Int(1))),
    ];
    assert_eq!(callers(&items, "c", &parsed), vec!["b"]);
    assert_eq!(caller_count(&items, "b", &parsed), 1);
}

#[test]
fn unique_name_counts_up() {
    let items = extract("fn f() { 1 }\nfn f_2() { 2 }\n", None);
    assert_eq!(unique_name(&items, "f"), "f_3");
    assert_eq!(unique_name(&items, "g"), "g");
}

#[test]
fn item_geometry() {
    let src = "\n\nfn a() {\n  1\n}\n";
    let items = extract(src, None);
    let a = &items[0];
    assert_eq!(a.line(src), 3);
    assert_eq!(a.n_lines(), 3);
    assert_eq!(a.line_span(src), (3, 5));
    assert_eq!(a.overlay_line(src), "a  L3  [2..16]");
    assert_eq!(
        a.counts_overlay(src),
        "name      a\nlines     3\nbytes     14\nspan      L3-L5"
    );
    assert!(a.contains_byte(2));
    assert!(a.contains_byte(15));
    assert!(!a.contains_byte(16));
    let blank = Item::named("x", "");
    assert_eq!(blank.n_lines(), 1);
    assert_eq!(blank.byte_len(), 0);
}

#[test]
fn hex_and_blake3() {
    assert_eq!(hex_digest(&[0, 15, 16, 255]), "000f10ff");
    assert_eq!(
        hash_item(None, "abc"),
        "6437b3ac38465133ffb63b75273a8db548c558465d79db03fd359c6cd5bd9d85"
    );
    assert_eq!(hash_item(Some("abc"), "ignored"), hash_item(None, "abc"));
    let it = Item::named("f", "fn f() { 1 }");
    assert_eq!(it.canonical_source(None), "fn f() { 1 }");
    assert_eq!(it.canonical_source(Some("fn _ ( ) { 1 }")), "fn _ ( ) { 1 }");
    assert_eq!(it.hash_line(None), format!("f  {}", hash_item(None, "fn f() { 1 }")));
}

#[test]
fn items_compare_by_value() {
    let items = extract("fn a() { 1 }\n", None);
    let expected = Item {
        name: "a".to_string(),
        start: 0,
        end: 12,
        source: "fn a() { 1 }".to_string(),
    };
    assert_eq!(items[0], expected);
    assert_ne!(items[0], Item::named("a", "fn a() { 1 }"));
}

#[test]
fn hashes_overlay_lists_each_function_with_its_hash() {
    let src = "fn a() { 1 }\n\nfn b() { 2 }\n";
    let canon = vec![Some("fn _ ( ) { 1 }".to_string()), None];
    let report = hashes_overlay(src, None, &canon);
    assert_eq!(
        report,
        format!(
            "a  {}\nb  {}",
            hash_item(Some("fn _ ( ) { 1 }"), "fn a() { 1 }"),
            hash_item(None, "fn b() { 2 }")
        )
    );
    assert_eq!(hashes_overlay("let x = 1;\n", None, &[]), "no fn items");
}

#[test]
fn parser_extraction_covers_attrs_and_pub() {
    // The brace matcher missed `#[test]`/`pub` prefixes; the parser's
    // item span covers them.
    let src = "#[test]\nfn checked() { 1 }\npub fn open() { 2 }\n";
    // the functions the parser finds: names and item spans, attributes and `pub` included
    let parsed = vec![("checked".to_string(), 0, 26), ("open".to_string(), 27, 46)];
    let items = extract(src, Some(&parsed));
    assert_eq!(names(&items), vec!["checked", "open"]);
    assert!(items[0].source.starts_with("#[test]"), "{}", items[0].source);
    assert!(items[1].source.starts_with("pub fn"), "{}", items[1].source);
    // the brace matcher alone starts each item at its `fn`
    let by_braces = extract(src, None);
    assert_eq!(names(&by_braces), vec!["checked", "open"]);
    assert!(by_braces[0].source.starts_with("fn checked"));
    assert_eq!(fn_count(src, Some(&parsed)), 2);
}

#[test]
fn parsed_spans_are_clamped_and_checked() {
    let src = "fn é() { 1 }\n";
    // an empty span, a span cut inside `é`, and one running past the end
    let parsed = vec![
        ("a".to_string(), 5, 5),
        ("b".to_string(), 4, 8),
        ("c".to_string(), 0, 999),
    ];
    let items = extract(src, Some(&parsed));
    assert_eq!(names(&items), vec!["c"]);
    assert_eq!(items[0].start, 0);
    assert_eq!(items[0].end, src.len());
    assert_eq!(items[0].source, src);
    let replaced = apply_item(src, &Item::named("c", "fn c() { 2 }"), Some(&parsed));
    assert_eq!(replaced, "fn c() { 2 }");
}

#[test]
fn mid_edit_pages_fall_back_to_the_brace_matcher() {
    // an unclosed body with a two-byte character: nothing closes, nothing is found
    assert!(extract("fn f() { é", None).is_empty());
    // what closed before the edit point is kept
    let items = extract("fn a() { \"é\" }\nfn f() { é", None);
    assert_eq!(names(&items), vec!["a"]);
    assert_eq!(items[0].source, "fn a() { \"é\" }");
    let items = extract("fn ü() { 1 }\nfn g() { é }\n", None);
    assert_eq!(names(&items), vec!["g"]);
    assert!(try_extract("fn f() { é", None).unwrap().is_empty());
    // a `where` block followed by an empty CRLF line: the walk over it cannot advance
    assert!(try_extract("where:\n\r\nfn f() { 1 }\n", None).is_none());
    assert_eq!(try_extract("where:\n  1\nfn f() { 1 }\n", None).map(|v| v.len()), Some(1));
}
