//! Byte-level text helpers shared by the scanners: ASCII classes, decimal
//! rendering, and byte-sequence comparison.

use vstd::prelude::*;
use vstd::string::StringSliceAdditionalSpecFns;
use vstd::utf8::{
    decode_utf8, encode_utf8, is_char_boundary, is_continuation_byte, length_of_first_scalar,
    pop_first_scalar, valid_first_scalar, valid_utf8,
};

verus! {

/// `b` is an ASCII letter.
pub open spec fn is_alpha(b: u8) -> bool {
    (65 <= b <= 90) || (97 <= b <= 122)
}

/// `b` is an ASCII digit.
pub open spec fn is_digit(b: u8) -> bool {
    48 <= b <= 57
}

/// `b` may continue an identifier: an ASCII letter, digit or `_`.
pub open spec fn is_ident_byte(b: u8) -> bool {
    is_alpha(b) || is_digit(b) || b == 95
}

pub fn alpha(b: u8) -> (r: bool)
    ensures
        r == is_alpha(b),
{
    (65 <= b && b <= 90) || (97 <= b && b <= 122)
}

pub fn digit(b: u8) -> (r: bool)
    ensures
        r == is_digit(b),
{
    48 <= b && b <= 57
}

pub fn ident_byte(b: u8) -> (r: bool)
    ensures
        r == is_ident_byte(b),
{
    alpha(b) || digit(b) || b == 95
}

/// The number of leading bytes of `s` that satisfy `is_ident_byte`.
pub open spec fn ident_len(s: Seq<u8>) -> nat
    decreases s.len(),
{
    if s.len() == 0 || !is_ident_byte(s[0]) {
        0
    } else {
        1 + ident_len(s.drop_first())
    }
}

/// The number of leading ASCII digits of `s`.
pub open spec fn digits_len(s: Seq<u8>) -> nat
    decreases s.len(),
{
    if s.len() == 0 || !is_digit(s[0]) {
        0
    } else {
        1 + digits_len(s.drop_first())
    }
}

pub proof fn lemma_ident_len(s: Seq<u8>)
    ensures
        ident_len(s) <= s.len(),
        forall|i: int| 0 <= i < ident_len(s) ==> is_ident_byte(#[trigger] s[i]),
        ident_len(s) < s.len() ==> !is_ident_byte(s[ident_len(s) as int]),
    decreases s.len(),
{
    if s.len() > 0 && is_ident_byte(s[0]) {
        lemma_ident_len(s.drop_first());
        assert forall|i: int| 0 <= i < ident_len(s) implies is_ident_byte(#[trigger] s[i]) by {
            if i > 0 {
                assert(s[i] == s.drop_first()[i - 1]);
            }
        }
    }
}

pub proof fn lemma_ident_len_unique(s: Seq<u8>, k: int)
    requires
        0 <= k <= s.len(),
        forall|i: int| 0 <= i < k ==> is_ident_byte(#[trigger] s[i]),
        k < s.len() ==> !is_ident_byte(s[k]),
    ensures
        ident_len(s) == k,
    decreases s.len(),
{
    if k > 0 {
        assert(is_ident_byte(s[0]));
        let t = s.drop_first();
        assert forall|i: int| 0 <= i < k - 1 implies is_ident_byte(#[trigger] t[i]) by {
            assert(t[i] == s[i + 1]);
        }
        if k - 1 < t.len() {
            assert(t[k - 1] == s[k]);
        }
        lemma_ident_len_unique(t, k - 1);
    }
}

pub proof fn lemma_digits_len(s: Seq<u8>)
    ensures
        digits_len(s) <= s.len(),
        forall|i: int| 0 <= i < digits_len(s) ==> is_digit(#[trigger] s[i]),
        digits_len(s) < s.len() ==> !is_digit(s[digits_len(s) as int]),
    decreases s.len(),
{
    if s.len() > 0 && is_digit(s[0]) {
        lemma_digits_len(s.drop_first());
        assert forall|i: int| 0 <= i < digits_len(s) implies is_digit(#[trigger] s[i]) by {
            if i > 0 {
                assert(s[i] == s.drop_first()[i - 1]);
            }
        }
    }
}

pub proof fn lemma_digits_len_unique(s: Seq<u8>, k: int)
    requires
        0 <= k <= s.len(),
        forall|i: int| 0 <= i < k ==> is_digit(#[trigger] s[i]),
        k < s.len() ==> !is_digit(s[k]),
    ensures
        digits_len(s) == k,
    decreases s.len(),
{
    if k > 0 {
        assert(is_digit(s[0]));
        let t = s.drop_first();
        assert forall|i: int| 0 <= i < k - 1 implies is_digit(#[trigger] t[i]) by {
            assert(t[i] == s[i + 1]);
        }
        if k - 1 < t.len() {
            assert(t[k - 1] == s[k]);
        }
        lemma_digits_len_unique(t, k - 1);
    }
}

/// Scans the identifier bytes of `s` starting at `from`; returns the index of the
/// first byte that does not continue it.
pub fn scan_ident_bytes(s: &[u8], from: usize) -> (end: usize)
    requires
        from <= s@.len(),
    ensures
        end == from + ident_len(s@.subrange(from as int, s@.len() as int)),
{
    let mut end = from;
    while end < s.len() && ident_byte(s[end])
        invariant
            from <= end <= s@.len(),
            forall|i: int| from <= i < end ==> is_ident_byte(#[trigger] s@[i]),
        decreases s@.len() - end,
    {
        end += 1;
    }
    proof {
        let t = s@.subrange(from as int, s@.len() as int);
        assert forall|i: int| 0 <= i < end - from implies is_ident_byte(#[trigger] t[i]) by {
            assert(t[i] == s@[from + i]);
        }
        if end - from < t.len() {
            assert(t[end - from] == s@[end as int]);
        }
        lemma_ident_len_unique(t, end - from);
    }
    end
}

/// Scans the ASCII digits of `s` starting at `from`; returns the index of the
/// first non-digit byte.
pub fn scan_digits(s: &[u8], from: usize) -> (end: usize)
    requires
        from <= s@.len(),
    ensures
        end == from + digits_len(s@.subrange(from as int, s@.len() as int)),
{
    let mut end = from;
    while end < s.len() && digit(s[end])
        invariant
            from <= end <= s@.len(),
            forall|i: int| from <= i < end ==> is_digit(#[trigger] s@[i]),
        decreases s@.len() - end,
    {
        end += 1;
    }
    proof {
        let t = s@.subrange(from as int, s@.len() as int);
        assert forall|i: int| 0 <= i < end - from implies is_digit(#[trigger] t[i]) by {
            assert(t[i] == s@[from + i]);
        }
        if end - from < t.len() {
            assert(t[end - from] == s@[end as int]);
        }
        lemma_digits_len_unique(t, end - from);
    }
    end
}

/// The first index at or after `i` holding byte `c`.
pub open spec fn find_byte(t: Seq<u8>, c: u8, i: int) -> Option<int>
    decreases t.len() - i,
{
    if i < 0 || i >= t.len() {
        None
    } else if t[i] == c {
        Some(i)
    } else {
        find_byte(t, c, i + 1)
    }
}

pub proof fn lemma_find_byte(t: Seq<u8>, c: u8, i: int)
    requires
        0 <= i,
    ensures
        match find_byte(t, c, i) {
            Some(k) => i <= k < t.len() && t[k] == c && forall|j: int| i <= j < k ==> t[j] != c,
            None => forall|j: int| i <= j < t.len() ==> t[j] != c,
        },
    decreases t.len() - i,
{
    if i < t.len() && t[i] != c {
        lemma_find_byte(t, c, i + 1);
    }
}

/// The first index at or after `from` holding byte `c`.
pub fn find_byte_at(b: &[u8], c: u8, from: usize) -> (r: Option<usize>)
    ensures
        match r {
            Some(k) => find_byte(b@, c, from as int) == Some(k as int) && from <= k < b@.len()
                && b@[k as int] == c,
            None => find_byte(b@, c, from as int) is None,
        },
{
    let mut k = from;
    while k < b.len()
        invariant
            from <= k,
            find_byte(b@, c, k as int) == find_byte(b@, c, from as int),
        decreases b@.len() - k,
    {
        if b[k] == c {
            return Some(k);
        }
        k += 1;
    }
    None
}

/// Byte-wise equality of `s[lo..hi]` with `lit`.
pub fn range_eq(s: &[u8], lo: usize, hi: usize, lit: &[u8]) -> (r: bool)
    requires
        lo <= hi <= s@.len(),
    ensures
        r == (s@.subrange(lo as int, hi as int) == lit@),
{
    if hi - lo != lit.len() {
        assert(s@.subrange(lo as int, hi as int).len() != lit@.len());
        return false;
    }
    let mut i: usize = 0;
    while i < lit.len()
        invariant
            hi - lo == lit@.len(),
            lo <= hi <= s@.len(),
            0 <= i <= lit@.len(),
            forall|j: int| 0 <= j < i ==> s@[lo + j] == lit@[j],
        decreases lit@.len() - i,
    {
        if s[lo + i] != lit[i] {
            assert(s@.subrange(lo as int, hi as int)[i as int] != lit@[i as int]);
            return false;
        }
        i += 1;
    }
    assert(s@.subrange(lo as int, hi as int) =~= lit@);
    true
}

/// The character of a decimal digit.
pub open spec fn digit_char(d: nat) -> char {
    if d == 0 {
        '0'
    } else if d == 1 {
        '1'
    } else if d == 2 {
        '2'
    } else if d == 3 {
        '3'
    } else if d == 4 {
        '4'
    } else if d == 5 {
        '5'
    } else if d == 6 {
        '6'
    } else if d == 7 {
        '7'
    } else if d == 8 {
        '8'
    } else {
        '9'
    }
}

/// The decimal rendering of `n`, as `Display` writes it.
pub open spec fn dec(n: nat) -> Seq<char>
    decreases n,
{
    if n < 10 {
        seq![digit_char(n)]
    } else {
        dec(n / 10).push(digit_char(n % 10))
    }
}

fn digit_str(d: usize) -> (s: &'static str)
    requires
        d < 10,
    ensures
        s@ == seq![digit_char(d as nat)],
{
    if d == 0 {
        proof { reveal_strlit("0"); }
        "0"
    } else if d == 1 {
        proof { reveal_strlit("1"); }
        "1"
    } else if d == 2 {
        proof { reveal_strlit("2"); }
        "2"
    } else if d == 3 {
        proof { reveal_strlit("3"); }
        "3"
    } else if d == 4 {
        proof { reveal_strlit("4"); }
        "4"
    } else if d == 5 {
        proof { reveal_strlit("5"); }
        "5"
    } else if d == 6 {
        proof { reveal_strlit("6"); }
        "6"
    } else if d == 7 {
        proof { reveal_strlit("7"); }
        "7"
    } else if d == 8 {
        proof { reveal_strlit("8"); }
        "8"
    } else {
        proof { reveal_strlit("9"); }
        "9"
    }
}

/// Appends the decimal rendering of `n` to `out`.
pub fn push_dec(out: &mut String, n: usize)
    ensures
        final(out)@ == old(out)@ + dec(n as nat),
    decreases n,
{
    if n >= 10 {
        push_dec(out, n / 10);
    }
    out.append(digit_str(n % 10));
    proof {
        if n >= 10 {
            assert(old(out)@ + dec(n as nat) =~= old(out)@ + dec((n / 10) as nat) + seq![
                digit_char((n % 10) as nat),
            ]);
        } else {
            assert(dec(n as nat) == seq![digit_char((n % 10) as nat)]);
        }
    }
}

/// Appends the decimal rendering of a 64-bit `n` to `out`.
pub fn push_dec_u64(out: &mut String, n: u64)
    ensures
        final(out)@ == old(out)@ + dec(n as nat),
    decreases n,
{
    if n >= 10 {
        push_dec_u64(out, n / 10);
    }
    out.append(digit_str((n % 10) as usize));
    proof {
        if n >= 10 {
            assert(old(out)@ + dec(n as nat) =~= old(out)@ + dec((n / 10) as nat) + seq![
                digit_char((n % 10) as nat),
            ]);
        } else {
            assert(dec(n as nat) == seq![digit_char((n % 10) as nat)]);
        }
    }
}

/// Byte-lexicographic `a <= b`, the order `str` compares by.
pub open spec fn bytes_le(a: Seq<u8>, b: Seq<u8>) -> bool
    decreases a.len(),
{
    if a.len() == 0 {
        true
    } else if b.len() == 0 {
        false
    } else if a[0] != b[0] {
        a[0] < b[0]
    } else {
        bytes_le(a.drop_first(), b.drop_first())
    }
}

pub fn le_bytes(a: &[u8], b: &[u8]) -> (r: bool)
    ensures
        r == bytes_le(a@, b@),
{
    let mut i: usize = 0;
    assert(a@.skip(0) =~= a@);
    assert(b@.skip(0) =~= b@);
    while i < a.len() && i < b.len() && a[i] == b[i]
        invariant
            0 <= i <= a@.len(),
            i <= b@.len(),
            forall|j: int| 0 <= j < i ==> a@[j] == b@[j],
            bytes_le(a@, b@) == bytes_le(a@.skip(i as int), b@.skip(i as int)),
        decreases a@.len() - i,
    {
        assert(a@.skip(i as int).drop_first() =~= a@.skip(i + 1));
        assert(b@.skip(i as int).drop_first() =~= b@.skip(i + 1));
        i += 1;
    }
    if i == a.len() {
        true
    } else if i == b.len() {
        false
    } else {
        a[i] < b[i]
    }
}

/// The width of the whitespace character (Unicode `White_Space`) that starts at byte `i`;
/// zero when none starts there.
pub open spec fn ws_width(b: Seq<u8>, i: int) -> int {
    let at = |k: int| if 0 <= i + k < b.len() { b[i + k] as int } else { -1 };
    if !(0 <= i < b.len()) {
        0
    } else if at(0) == 32 || (9 <= at(0) <= 13) {
        1
    } else if at(0) == 0xc2 && (at(1) == 0x85 || at(1) == 0xa0) {
        2
    } else if at(0) == 0xe1 && at(1) == 0x9a && at(2) == 0x80 {
        3
    } else if at(0) == 0xe2 && at(1) == 0x80 && ((0x80 <= at(2) <= 0x8a) || at(2) == 0xa8 || at(2)
        == 0xa9 || at(2) == 0xaf) {
        3
    } else if at(0) == 0xe2 && at(1) == 0x81 && at(2) == 0x9f {
        3
    } else if at(0) == 0xe3 && at(1) == 0x80 && at(2) == 0x80 {
        3
    } else {
        0
    }
}

/// The width of the whitespace character that ends just before byte `i`; zero when none
/// ends there.
pub open spec fn ws_end_width(b: Seq<u8>, i: int) -> int {
    if i >= 1 && ws_width(b, i - 1) == 1 {
        1
    } else if i >= 2 && ws_width(b, i - 2) == 2 {
        2
    } else if i >= 3 && ws_width(b, i - 3) == 3 {
        3
    } else {
        0
    }
}

/// Where a run of whitespace characters starting at `i` ends, not looking at or past `hi`.
pub open spec fn skip_ws_to(b: Seq<u8>, i: int, hi: int) -> int
    decreases hi - i,
{
    if i < hi && ws_width(b, i) > 0 && i + ws_width(b, i) <= hi {
        skip_ws_to(b, i + ws_width(b, i), hi)
    } else {
        i
    }
}

pub proof fn lemma_skip_ws_to(b: Seq<u8>, i: int, hi: int)
    requires
        i <= hi,
    ensures
        i <= skip_ws_to(b, i, hi) <= hi,
    decreases hi - i,
{
    if i < hi && ws_width(b, i) > 0 && i + ws_width(b, i) <= hi {
        lemma_skip_ws_to(b, i + ws_width(b, i), hi);
    }
}

/// The width of the whitespace character at `i`.
pub fn ws_at(b: &[u8], i: usize) -> (w: usize)
    ensures
        w == ws_width(b@, i as int),
{
    if i >= b.len() {
        return 0;
    }
    let n = b.len();
    let c0 = b[i];
    let c1: i32 = if n - i > 1 { b[i + 1] as i32 } else { -1 };
    let c2: i32 = if n - i > 2 { b[i + 2] as i32 } else { -1 };
    if c0 == 32 || (9 <= c0 && c0 <= 13) {
        1
    } else if c0 == 0xc2 && (c1 == 0x85 || c1 == 0xa0) {
        2
    } else if c0 == 0xe1 && c1 == 0x9a && c2 == 0x80 {
        3
    } else if c0 == 0xe2 && c1 == 0x80 && ((0x80 <= c2 && c2 <= 0x8a) || c2 == 0xa8 || c2 == 0xa9
        || c2 == 0xaf) {
        3
    } else if c0 == 0xe2 && c1 == 0x81 && c2 == 0x9f {
        3
    } else if c0 == 0xe3 && c1 == 0x80 && c2 == 0x80 {
        3
    } else {
        0
    }
}

/// The width of the whitespace character that ends just before `i`.
pub fn ws_before(b: &[u8], i: usize) -> (w: usize)
    requires
        i <= b@.len(),
    ensures
        w == ws_end_width(b@, i as int),
{
    if i >= 1 && ws_at(b, i - 1) == 1 {
        1
    } else if i >= 2 && ws_at(b, i - 2) == 2 {
        2
    } else if i >= 3 && ws_at(b, i - 3) == 3 {
        3
    } else {
        0
    }
}

/// Skips the whitespace characters from `i`, stopping at `hi`.
pub fn skip_ws_in(b: &[u8], i: usize, hi: usize) -> (r: usize)
    requires
        i <= hi <= b@.len(),
    ensures
        r == skip_ws_to(b@, i as int, hi as int),
{
    let mut j = i;
    while j < hi
        invariant
            i <= j <= hi <= b@.len(),
            skip_ws_to(b@, j as int, hi as int) == skip_ws_to(b@, i as int, hi as int),
        decreases hi - j,
    {
        let w = ws_at(b, j);
        if w == 0 || w > hi - j {
            return j;
        }
        j = j + w;
    }
    j
}

/// `parts` joined with `sep` between neighbours.
pub open spec fn join_with(parts: Seq<Seq<char>>, sep: Seq<char>) -> Seq<char>
    decreases parts.len(),
{
    if parts.len() == 0 {
        seq![]
    } else if parts.len() == 1 {
        parts[0]
    } else {
        join_with(parts.drop_last(), sep) + sep + parts.last()
    }
}

pub proof fn lemma_join_with_push(parts: Seq<Seq<char>>, sep: Seq<char>, x: Seq<char>)
    ensures
        join_with(parts.push(x), sep) == if parts.len() == 0 {
            x
        } else {
            join_with(parts, sep) + sep + x
        },
{
    assert(parts.push(x).drop_last() =~= parts);
    if parts.len() == 0 {
        assert(parts.push(x)[0] == x);
    }
}

/// The number of `\n` bytes in `s`.
pub open spec fn newlines(s: Seq<u8>) -> nat
    decreases s.len(),
{
    if s.len() == 0 {
        0
    } else {
        newlines(s.drop_last()) + if s.last() == 10 {
            1nat
        } else {
            0nat
        }
    }
}

pub proof fn lemma_newlines_bound(s: Seq<u8>)
    ensures
        newlines(s) <= s.len(),
    decreases s.len(),
{
    if s.len() > 0 {
        lemma_newlines_bound(s.drop_last());
    }
}

/// Counts the `\n` bytes in `b[..k]`.
pub fn count_newlines(b: &[u8], k: usize) -> (r: usize)
    requires
        k <= b@.len(),
    ensures
        r == newlines(b@.subrange(0, k as int)),
{
    let mut r: usize = 0;
    let mut j: usize = 0;
    while j < k
        invariant
            j <= k <= b@.len(),
            r == newlines(b@.subrange(0, j as int)),
        decreases k - j,
    {
        proof {
            assert(b@.subrange(0, j + 1).drop_last() =~= b@.subrange(0, j as int));
            lemma_newlines_bound(b@.subrange(0, j as int));
        }
        if b[j] == 10 {
            r = r + 1;
        }
        j += 1;
    }
    r
}

/// Whether two strings hold the same text, compared byte by byte.
pub fn same_text(a: &str, b: &str) -> (r: bool)
    ensures
        r == (a@ == b@),
{
    let x = a.as_bytes();
    let y = b.as_bytes();
    let r = x.len() == y.len() && range_eq(x, 0, x.len(), y);
    proof {
        assert(x@.subrange(0, x@.len() as int) =~= x@);
        if r {
            vstd::utf8::encode_utf8_decode_utf8(a@);
            vstd::utf8::encode_utf8_decode_utf8(b@);
        }
    }
    r
}

/// The texts of `v`.
pub open spec fn texts(v: Seq<String>) -> Seq<Seq<char>> {
    v.map_values(|s: String| s@)
}

/// Whether one of the strings `v` holds the text `s`.
pub fn contains_text(v: &[String], s: &str) -> (r: bool)
    ensures
        r == texts(v@).contains(s@),
{
    let mut k: usize = 0;
    while k < v.len()
        invariant
            k <= v@.len(),
            forall|j: int| 0 <= j < k ==> v@[j]@ != s@,
        decreases v@.len() - k,
    {
        if same_text(v[k].as_str(), s) {
            assert(texts(v@)[k as int] == s@);
            return true;
        }
        k += 1;
    }
    proof {
        if texts(v@).contains(s@) {
            let j = choose|j: int| 0 <= j < texts(v@).len() && texts(v@)[j] == s@;
            assert(v@[j]@ == s@);
        }
    }
    false
}

/// The next character boundary after the boundary `i`: one whole character further on.
pub proof fn lemma_next_boundary(b: Seq<u8>, i: int)
    requires
        valid_utf8(b),
        0 <= i < b.len(),
        is_char_boundary(b, i),
    ensures
        1 <= length_of_first_scalar(b.subrange(i, b.len() as int)),
        i + length_of_first_scalar(b.subrange(i, b.len() as int)) <= b.len(),
        is_char_boundary(b, i + length_of_first_scalar(b.subrange(i, b.len() as int))),
        b[i] < 128 ==> length_of_first_scalar(b.subrange(i, b.len() as int)) == 1,
{
    let s = b.subrange(i, b.len() as int);
    vstd::utf8::valid_utf8_split(b, i);
    assert(valid_first_scalar(s));
    assert(valid_utf8(pop_first_scalar(s)));
    let w = length_of_first_scalar(s);
    let j = i + w;
    vstd::utf8::is_char_boundary_start_end_of_seq(b);
    if j < b.len() {
        let t = pop_first_scalar(s);
        assert(t.len() > 0);
        assert(valid_first_scalar(t));
        assert(t[0] == b[j]);
        vstd::utf8::is_char_boundary_iff_not_is_continuation_byte(b, j);
    }
}

/// Where a copy of a whole valid text `p` sits at a character boundary of `b`, the byte
/// after it is a character boundary too.
pub proof fn lemma_match_boundary(b: Seq<u8>, k: int, p: Seq<u8>)
    requires
        valid_utf8(b),
        valid_utf8(p),
        0 <= k,
        k + p.len() <= b.len(),
        is_char_boundary(b, k),
        b.subrange(k, k + p.len()) == p,
    ensures
        is_char_boundary(b, k + p.len()),
    decreases p.len(),
{
    if p.len() > 0 {
        lemma_next_boundary(b, k);
        let w = length_of_first_scalar(p);
        assert(b.subrange(k, b.len() as int)[0] == p[0]);
        let q = pop_first_scalar(p);
        assert(b.subrange(k + w, k + w + q.len()) =~= q) by {
            assert forall|j: int| 0 <= j < q.len() implies b.subrange(k + w, k + w + q.len())[j]
                == q[j] by {
                assert(q[j] == p[w + j]);
                assert(b.subrange(k, k + p.len())[w + j] == p[w + j]);
            }
        }
        lemma_match_boundary(b, k + w, q);
    }
}

/// An ASCII byte of valid UTF-8 starts a character, and the byte after it does too.
pub proof fn lemma_ascii_boundaries(b: Seq<u8>, i: int)
    requires
        valid_utf8(b),
        0 <= i < b.len(),
        b[i] < 128,
    ensures
        is_char_boundary(b, i),
        is_char_boundary(b, i + 1),
{
    vstd::utf8::is_char_boundary_iff_not_is_continuation_byte(b, i);
    lemma_next_boundary(b, i);
}

/// A boundary of `b` below `hi` is a boundary of the prefix `b[..hi]`.
pub proof fn lemma_boundary_in_prefix(b: Seq<u8>, lo: int, hi: int)
    requires
        valid_utf8(b),
        0 <= lo <= hi <= b.len(),
        is_char_boundary(b, lo),
        is_char_boundary(b, hi),
    ensures
        valid_utf8(b.subrange(0, hi)),
        is_char_boundary(b.subrange(0, hi), lo),
{
    vstd::utf8::valid_utf8_split(b, hi);
    let p = b.subrange(0, hi);
    vstd::utf8::is_char_boundary_start_end_of_seq(p);
    if lo < hi {
        vstd::utf8::is_char_boundary_iff_not_is_continuation_byte(b, lo);
        vstd::utf8::is_char_boundary_iff_not_is_continuation_byte(p, lo);
        assert(p[lo] == b[lo]);
    }
}

/// The text of valid UTF-8 bytes.
pub open spec fn text_of(b: Seq<u8>) -> Seq<char> {
    decode_utf8(b)
}

/// The bytes `s[lo..hi]` of a string, cut at two character boundaries.
pub fn substr<'a>(s: &'a str, lo: usize, hi: usize) -> (r: &'a str)
    requires
        lo <= hi <= s.spec_bytes().len(),
        is_char_boundary(s.spec_bytes(), lo as int),
        is_char_boundary(s.spec_bytes(), hi as int),
    ensures
        r.spec_bytes() == s.spec_bytes().subrange(lo as int, hi as int),
        r@ == text_of(s.spec_bytes().subrange(lo as int, hi as int)),
{
    proof {
        vstd::utf8::encode_utf8_valid_utf8(s@);
        lemma_boundary_in_prefix(s.spec_bytes(), lo as int, hi as int);
    }
    let (a, _) = s.split_at(hi);
    let (_, c) = a.split_at(lo);
    proof {
        assert(c.spec_bytes() =~= s.spec_bytes().subrange(lo as int, hi as int));
        vstd::utf8::encode_utf8_decode_utf8(c@);
    }
    c
}

/// The values present among `v` (its `Some`s), in order.
pub fn present<T>(v: Vec<Option<T>>) -> (r: Vec<T>)
    ensures
        r@ == kept(v@),
{
    let mut out: Vec<T> = Vec::new();
    let mut rest = v;
    let ghost all = rest@;
    let n: usize = rest.len();
    let mut k: usize = 0;
    while rest.len() > 0
        invariant
            k <= all.len(),
            all.len() == n,
            rest@ == all.skip(k as int),
            out@ == kept(all.take(k as int)),
        decreases rest@.len(),
    {
        let c = rest.remove(0);
        proof {
            assert(all.take(k + 1).drop_last() =~= all.take(k as int));
            assert(all.take(k + 1).last() == all[k as int]);
            assert(rest@ =~= all.skip(k + 1));
        }
        if let Some(layer) = c {
            out.push(layer);
        }
        k += 1;
    }
    assert(all.take(all.len() as int) =~= all);
    out
}

/// The values present among `children` (its `Some`s), in order.
pub open spec fn kept<T>(children: Seq<Option<T>>) -> Seq<T>
    decreases children.len(),
{
    if children.len() == 0 {
        seq![]
    } else {
        kept(children.drop_last()) + match children.last() {
            Some(x) => seq![x],
            None => seq![],
        }
    }
}

} // verus!
