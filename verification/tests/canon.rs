use mimas::canon::{canonical, TokClass};
use mimas::digest::hash_item;
use mimas::items::{extract, rename_fn};

/// A small tokenizer for the slices these tests hash: identifiers and keywords, int and
/// float literals (a float's text is what `f64` displays), strings, `//` comments and
/// punctuation. Returns the tokens and whether every string was closed.
fn lex(src: &str) -> (Vec<(TokClass, String)>, bool) {
    let cs: Vec<char> = src.chars().collect();
    let mut toks = Vec::new();
    let mut i = 0;
    while i < cs.len() {
        let c = cs[i];
        if c.is_whitespace() {
            i += 1;
        } else if c == '/' && i + 1 < cs.len() && cs[i + 1] == '/' {
            let start = i;
            while i < cs.len() && cs[i] != '\n' {
                i += 1;
            }
            toks.push((TokClass::Comment, cs[start..i].iter().collect()));
        } else if c.is_alphabetic() || c == '_' {
            let start = i;
            while i < cs.len() && (cs[i].is_alphanumeric() || cs[i] == '_') {
                i += 1;
            }
            let word: String = cs[start..i].iter().collect();
            let class = match word.as_str() {
                "fn" => TokClass::Fn,
                "pub" | "if" | "else" | "int" => TokClass::Other,
                _ => TokClass::Ident,
            };
            toks.push((class, word));
        } else if c.is_ascii_digit() {
            let start = i;
            while i < cs.len() && cs[i].is_ascii_digit() {
                i += 1;
            }
            if i + 1 < cs.len() && cs[i] == '.' && cs[i + 1].is_ascii_digit() {
                i += 1;
                while i < cs.len() && cs[i].is_ascii_digit() {
                    i += 1;
                }
                let text: String = cs[start..i].iter().collect();
                let v: f64 = text.parse().unwrap();
                toks.push((TokClass::Float, v.to_string()));
            } else {
                toks.push((TokClass::Other, cs[start..i].iter().collect()));
            }
        } else if c == '"' {
            let start = i;
            i += 1;
            while i < cs.len() && cs[i] != '"' {
                i += 1;
            }
            if i == cs.len() {
                toks.push((TokClass::Other, cs[start..i].iter().collect()));
                return (toks, false);
            }
            i += 1;
            toks.push((TokClass::Other, cs[start..i].iter().collect()));
        } else if i + 1 < cs.len() && ((c == '-' && cs[i + 1] == '>') || (c == '<' && cs[i + 1] == '=')) {
            toks.push((TokClass::Other, cs[i..i + 2].iter().collect()));
            i += 2;
        } else {
            toks.push((TokClass::Other, c.to_string()));
            i += 1;
        }
    }
    (toks, true)
}

fn canon(src: &str) -> Option<String> {
    let (toks, ok) = lex(src);
    canonical(&toks, ok)
}

/// The content hash of a slice: over its canonical form when it has one.
fn hash(src: &str) -> String {
    hash_item(canon(src).as_deref(), src)
}

#[test]
fn dbg_canon_probe() {
    let a = "fn square(n: int) -> int {\n    n * n // comment\n}\n";
    let b = "fn square(n:int)->int{n*n}\n";
    let c = "fn square(n: int) -> int { n * n * 1 }\n";
    println!("A: {:?}", canon(a));
    println!("B: {:?}", canon(b));
    println!("C: {:?}", canon(c));
    println!("I: {:?}", canon("fn f() { 1 }\n"));
    println!("F: {:?}", canon("fn f() { 1.0 }\n"));
    println!("K: {:?}", canon("fn x() { \"unterminated"));
}

#[test]
fn canonical_hash_ignores_formatting_and_comments() {
    let a = "fn square(n: int) -> int {\n    n * n // comment\n}\n";
    let b = "fn square(n:int)->int{n*n}\n";
    assert_eq!(hash(a), hash(b));
    let c = "fn square(n: int) -> int { n * n * 1 }\n";
    assert_ne!(hash(a), hash(c));
    // Unlexable source falls back to hashing raw bytes.
    let broken = "fn x() { \"unterminated";
    assert!(canon(broken).is_none());
    assert_eq!(hash(broken), hash_item(None, broken));
    // `1` and `1.0` are different types: the canonical form keeps the float's point.
    assert_ne!(hash("fn f() { 1 }\n"), hash("fn f() { 1.0 }\n"));
    // … while `1.0` and `1.00` are the same float.
    assert_eq!(hash("fn f() { 1.0 }\n"), hash("fn f() { 1.00 }\n"));
}

#[test]
fn canonical_text_of_a_function() {
    assert_eq!(canon("fn square(n: int) -> int { n * n }\n").unwrap(), "fn _ ( n : int ) -> int { n * n }");
    assert_eq!(canon("fn f() { 1.0 }\n").unwrap(), "fn _ ( ) { 1.0 }");
    assert_eq!(canon("fn f() { 2.5 }\n").unwrap(), "fn _ ( ) { 2.5 }");
    // only the first name after the first `fn` erases
    assert_eq!(canon("fn f() { fn g() { 1 } }").unwrap(), "fn _ ( ) { fn g ( ) { 1 } }");
    // a comment between `fn` and the name does not stop the erasure
    let toks = vec![
        (TokClass::Fn, "fn".to_string()),
        (TokClass::Comment, "// c".to_string()),
        (TokClass::Ident, "f".to_string()),
    ];
    assert_eq!(canonical(&toks, true).unwrap(), "fn _");
    let invalid = vec![(TokClass::Invalid, "?".to_string())];
    assert!(canonical(&invalid, true).is_none());
    assert!(canonical(&[], false).is_none());
    assert_eq!(canonical(&[], true).unwrap(), "");
}

#[test]
fn rename_is_free_for_the_items_own_name() {
    let a = extract("fn square(n: int) -> int { n * n }\n", None);
    let b = extract("fn sq(n: int) -> int { n * n }\n", None);
    let ca = canon(&a[0].source);
    let cb = canon(&b[0].source);
    assert_eq!(a[0].hash(ca.as_deref()), b[0].hash(cb.as_deref()));
    let stored = a[0].canonical_source(ca.as_deref());
    assert!(stored.starts_with("fn _"), "{stored}");
    assert_eq!(rename_fn(&stored, "_", "square"), "fn square ( n : int ) -> int { n * n }");
    // `pub`/attribute prefixes don't change the property either.
    assert_eq!(hash("pub fn square(n: int) -> int { n * n }\n"), hash("pub fn sq(n: int) -> int { n * n }\n"));
    let e = canon("#[test]\nfn square() { 1 }\n").unwrap();
    assert!(e.contains("fn _"), "{e}");
}

#[test]
fn recursive_self_reference_still_hashes_on_the_name() {
    let f = "fn f(n: int) -> int { if n <= 0 { 0 } else { f(n - 1) } }\n";
    let g = "fn g(n: int) -> int { if n <= 0 { 0 } else { g(n - 1) } }\n";
    assert_ne!(hash(f), hash(g));
    let a = "fn a(n: int) -> int { helper(n) }\n";
    let b = "fn b(n: int) -> int { helper(n) }\n";
    assert_eq!(hash(a), hash(b));
}
