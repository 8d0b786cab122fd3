//! The built-in methods scripts call on `int` and `str` values, and the source-position
//! arithmetic behind `std::debug`.

use vstd::prelude::*;
use vstd::string::StringSliceAdditionalSpecFns;
use vstd::utf8::is_char_boundary;
use crate::syntax::signed_dec;
use crate::text::{dec, newlines, count_newlines, push_dec_u64, range_eq};

verus! {

/// A runtime error a built-in raises.
#[derive(Debug)]
pub enum RtErr {
    InvalidArgument(String),
}

/// The message of an `InvalidArgument` error, as the contracts see it.
pub open spec fn invalid_argument(r: RtErr) -> Seq<char> {
    match r {
        RtErr::InvalidArgument(m) => m@,
    }
}

/// `n.abs()`; the most negative int has no absolute value.
pub fn abs(n: i64) -> (r: i64)
    requires
        n != i64::MIN,
    ensures
        r == if n < 0 {
            -n
        } else {
            n as int
        },
{
    if n < 0 {
        -n
    } else {
        n
    }
}

/// `a.min(b)`.
pub fn min(a: i64, b: i64) -> (r: i64)
    ensures
        r == if a <= b {
            a
        } else {
            b
        },
{
    if a <= b {
        a
    } else {
        b
    }
}

/// `a.max(b)`.
pub fn max(a: i64, b: i64) -> (r: i64)
    ensures
        r == if a <= b {
            b
        } else {
            a
        },
{
    if a <= b {
        b
    } else {
        a
    }
}

/// `n.clamp(lo, hi)`: `n` brought into `lo..=hi`; an empty range is an error.
pub fn clamp(n: i64, lo: i64, hi: i64) -> (r: Result<i64, RtErr>)
    ensures
        if lo > hi {
            r matches Err(e) && invalid_argument(e) == "clamp requires lo <= hi"@
        } else {
            r matches Ok(v) && v == if n < lo {
                lo
            } else if n > hi {
                hi
            } else {
                n
            }
        },
{
    if lo > hi {
        proof {
            reveal_strlit("clamp requires lo <= hi");
        }
        return Err(RtErr::InvalidArgument("clamp requires lo <= hi".to_string()));
    }
    if n < lo {
        Ok(lo)
    } else if n > hi {
        Ok(hi)
    } else {
        Ok(n)
    }
}

/// `n.to_str()`: the decimal text of `n`.
pub fn to_str(n: i64) -> (r: String)
    ensures
        r@ == signed_dec(n as int),
{
    let mut out = String::new();
    if n < 0 {
        out.append("-");
        let m: u64 = (0i128 - n as i128) as u64;
        push_dec_u64(&mut out, m);
    } else {
        push_dec_u64(&mut out, n as u64);
    }
    proof {
        reveal_strlit("-");
    }
    assert(out@ =~= signed_dec(n as int));
    out
}

/// `s.len()`: the number of characters.
pub fn len(s: &str) -> (r: usize)
    ensures
        r == s@.len(),
{
    s.unicode_len()
}

/// `s.is_empty()`.
pub fn is_empty(s: &str) -> (r: bool)
    ensures
        r == (s@.len() == 0),
{
    s.unicode_len() == 0
}

/// `needle` occurs in `b` at byte `i`.
pub open spec fn occurs_at(b: Seq<u8>, needle: Seq<u8>, i: int) -> bool {
    0 <= i && i + needle.len() <= b.len() && b.subrange(i, i + needle.len()) == needle
}

/// `s.contains(needle)`: the text of `needle` occurs somewhere in `s`.
pub fn contains(s: &str, needle: &str) -> (r: bool)
    ensures
        r == exists|i: int| occurs_at(s.spec_bytes(), needle.spec_bytes(), i),
{
    let b = s.as_bytes();
    let n = needle.as_bytes();
    if n.len() > b.len() {
        proof {
            assert forall|i: int| !occurs_at(b@, n@, i) by {}
        }
        return false;
    }
    if n.len() == 0 {
        assert(b@.subrange(0, 0) =~= n@);
        assert(occurs_at(b@, n@, 0));
        return true;
    }
    let nl = n.len();
    let bl = b.len();
    let last = bl - nl;
    let mut i: usize = 0;
    while i <= last
        invariant
            nl == n@.len(),
            bl == b@.len(),
            last == b@.len() - n@.len(),
            1 <= n@.len() <= b@.len(),
            i <= last + 1,
            b@ == s.spec_bytes(),
            n@ == needle.spec_bytes(),
            forall|j: int| 0 <= j < i ==> !occurs_at(b@, n@, j),
        decreases last + 1 - i,
    {
        if range_eq(b, i, i + nl, n) {
            assert(occurs_at(b@, n@, i as int));
            return true;
        }
        i += 1;
    }
    proof {
        assert forall|j: int| !occurs_at(b@, n@, j) by {
            if 0 <= j < i {
            }
        }
    }
    false
}

/// `s.starts_with(prefix)`.
pub fn starts_with(s: &str, prefix: &str) -> (r: bool)
    ensures
        r == occurs_at(s.spec_bytes(), prefix.spec_bytes(), 0),
{
    let b = s.as_bytes();
    let p = prefix.as_bytes();
    p.len() <= b.len() && range_eq(b, 0, p.len(), p)
}

/// `s.ends_with(suffix)`.
pub fn ends_with(s: &str, suffix: &str) -> (r: bool)
    ensures
        r == occurs_at(
            s.spec_bytes(),
            suffix.spec_bytes(),
            s.spec_bytes().len() - suffix.spec_bytes().len(),
        ),
{
    let b = s.as_bytes();
    let p = suffix.as_bytes();
    p.len() <= b.len() && range_eq(b, b.len() - p.len(), b.len(), p)
}

/// `s.ord()`: the code of the first character, if there is one.
pub fn ord(s: &str) -> (r: Option<i64>)
    ensures
        r == if s@.len() == 0 {
            None
        } else {
            Some(s@[0] as i64)
        },
{
    if s.unicode_len() == 0 {
        None
    } else {
        let c = s.get_char(0);
        Some(c as u32 as i64)
    }
}

/// What `char::to_uppercase` yields for `c`: its uppercase mapping, one or more characters.
pub uninterp spec fn upper_of(c: char) -> Seq<char>;

/// `char::to_uppercase`, collected into a string.
#[verifier::external_body]
fn char_upper(c: char) -> (r: String)
    ensures
        r@ == upper_of(c),
{
    c.to_uppercase().collect::<String>()
}

/// `s.capitalize()`: the first character's uppercase mapping, then the rest unchanged.
pub fn capitalize(s: &str) -> (r: String)
    ensures
        r@ == if s@.len() == 0 {
            Seq::<char>::empty()
        } else {
            upper_of(s@[0]) + s@.subrange(1, s@.len() as int)
        },
{
    let n = s.unicode_len();
    if n == 0 {
        return String::new();
    }
    let mut out = char_upper(s.get_char(0));
    out.append(s.substring_char(1, n));
    out
}

/// What `str::to_uppercase` gives for the text `s`.
pub uninterp spec fn upper_text_of(s: Seq<char>) -> Seq<char>;

/// `str::to_uppercase`: the uppercase equivalent of a text, which depends on the text alone.
#[verifier::external_body]
fn text_upper(s: &str) -> (r: String)
    ensures
        r@ == upper_text_of(s@),
{
    s.to_uppercase()
}

/// What `str::to_lowercase` gives for the text `s`.
pub uninterp spec fn lower_text_of(s: Seq<char>) -> Seq<char>;

/// `str::to_lowercase`: the lowercase equivalent of a text, which depends on the text alone.
#[verifier::external_body]
fn text_lower(s: &str) -> (r: String)
    ensures
        r@ == lower_text_of(s@),
{
    s.to_lowercase()
}

/// What `heck`'s `to_snake_case` gives for the text `s`.
pub uninterp spec fn snake_of(s: Seq<char>) -> Seq<char>;

/// `heck::ToSnakeCase::to_snake_case`: the text in snake case, its words lowercased and
/// joined by underscores; the result depends on the text alone.
#[verifier::external_body]
fn text_snake(s: &str) -> (r: String)
    ensures
        r@ == snake_of(s@),
{
    heck::ToSnakeCase::to_snake_case(s)
}

/// `s.to_upper()`.
pub fn to_upper(s: &str) -> (r: String)
    ensures
        r@ == upper_text_of(s@),
{
    text_upper(s)
}

/// `s.to_lower()`.
pub fn to_lower(s: &str) -> (r: String)
    ensures
        r@ == lower_text_of(s@),
{
    text_lower(s)
}

/// `s.to_snake()`.
pub fn to_snake(s: &str) -> (r: String)
    ensures
        r@ == snake_of(s@),
{
    text_snake(s)
}

/// `rand::rng().random_range(0..len)`: a number drawn from `0` up to, not including, `len`;
/// which one is left to chance. The range must not be empty (the crate panics on one), and
/// the thread's generator panics if the system's random source fails when it is first
/// seeded, which nothing here can rule out.
#[verifier::external_body]
fn draw_below(len: i64) -> (r: i64)
    requires
        len > 0,
    ensures
        0 <= r < len,
{
    rand::RngExt::random_range(&mut rand::rng(), 0..len)
}

/// `int::random(len)`: a random int from `0` up to, not including, `len`; a `len` that is
/// not positive is an error.
pub fn random(len: i64) -> (r: Result<i64, RtErr>)
    ensures
        len <= 0 <==> r is Err,
        r matches Err(e) ==> invalid_argument(e) == "random requires len > 0"@,
        r matches Ok(v) ==> 0 <= v < len,
{
    if len <= 0 {
        proof {
            reveal_strlit("random requires len > 0");
        }
        return Err(RtErr::InvalidArgument("random requires len > 0".to_string()));
    }
    Ok(draw_below(len))
}

/// A Unicode `White_Space` character: what `str::trim` drops at both ends of a text.
pub open spec fn is_white(c: char) -> bool {
    let u = c as u32;
    (9 <= u <= 13) || u == 32 || u == 0x85 || u == 0xa0 || u == 0x1680 || (0x2000 <= u <= 0x200a)
        || u == 0x2028 || u == 0x2029 || u == 0x202f || u == 0x205f || u == 0x3000
}

/// The first position at or after `i` whose character is not whitespace (or the end).
pub open spec fn lead_end(s: Seq<char>, i: int) -> int
    decreases s.len() - i,
{
    if 0 <= i < s.len() && is_white(s[i]) {
        lead_end(s, i + 1)
    } else {
        i
    }
}

/// The position just after the last character before `hi` that is not whitespace, not
/// going below `lo`.
pub open spec fn trail_start(s: Seq<char>, lo: int, hi: int) -> int
    decreases hi - lo,
{
    if lo < hi && is_white(s[hi - 1]) {
        trail_start(s, lo, hi - 1)
    } else {
        hi
    }
}

/// `s` without its leading and trailing whitespace, as `str::trim` gives it.
pub open spec fn trim_spec(s: Seq<char>) -> Seq<char> {
    let lo = lead_end(s, 0);
    s.subrange(lo, trail_start(s, lo, s.len() as int))
}

fn white(c: char) -> (r: bool)
    ensures
        r == is_white(c),
{
    let u = c as u32;
    (9 <= u && u <= 13) || u == 32 || u == 0x85 || u == 0xa0 || u == 0x1680 || (0x2000 <= u && u
        <= 0x200a) || u == 0x2028 || u == 0x2029 || u == 0x202f || u == 0x205f || u == 0x3000
}

/// `s` without its leading and trailing whitespace.
pub fn trim_text(s: &str) -> (r: &str)
    ensures
        r@ == trim_spec(s@),
{
    let n = s.unicode_len();
    let mut lo: usize = 0;
    while lo < n && white(s.get_char(lo))
        invariant
            n == s@.len(),
            lo <= n,
            lead_end(s@, lo as int) == lead_end(s@, 0),
        decreases n - lo,
    {
        lo += 1;
    }
    let mut hi: usize = n;
    while hi > lo && white(s.get_char(hi - 1))
        invariant
            n == s@.len(),
            lo <= hi <= n,
            lo == lead_end(s@, 0),
            trail_start(s@, lo as int, hi as int) == trail_start(s@, lo as int, n as int),
        decreases hi - lo,
    {
        hi -= 1;
    }
    s.substring_char(lo, hi)
}

/// The value of a run of decimal digits.
pub open spec fn digits_value(d: Seq<char>) -> int
    decreases d.len(),
{
    if d.len() == 0 {
        0
    } else {
        digits_value(d.drop_last()) * 10 + (d.last() as int - '0' as int)
    }
}

pub open spec fn is_dec_digit(c: char) -> bool {
    '0' <= c <= '9'
}

/// The text after an optional leading `+` or `-`.
pub open spec fn unsigned_part(t: Seq<char>) -> Seq<char> {
    if t.len() > 0 && (t[0] == '-' || t[0] == '+') {
        t.drop_first()
    } else {
        t
    }
}

/// Every character is a decimal digit.
pub open spec fn all_digits(d: Seq<char>) -> bool {
    forall|i: int| 0 <= i < d.len() ==> is_dec_digit(#[trigger] d[i])
}

/// The value `t` spells: its digits, negated after a leading `-`.
pub open spec fn signed_value(t: Seq<char>) -> int {
    if t.len() > 0 && t[0] == '-' {
        -digits_value(unsigned_part(t))
    } else {
        digits_value(unsigned_part(t))
    }
}

/// What `str::parse::<i64>` accepts: an optional `+` or `-`, then one or more decimal
/// digits, whose value fits in 64 bits.
pub open spec fn parse_i64(t: Seq<char>) -> Option<i64> {
    if unsigned_part(t).len() > 0 && all_digits(unsigned_part(t)) && i64::MIN <= signed_value(t)
        <= i64::MAX {
        Some(signed_value(t) as i64)
    } else {
        None
    }
}

proof fn lemma_digits_value_grows(d: Seq<char>, k: int)
    requires
        0 <= k <= d.len(),
        forall|i: int| 0 <= i < d.len() ==> is_dec_digit(#[trigger] d[i]),
    ensures
        digits_value(d.take(k)) <= digits_value(d),
        0 <= digits_value(d.take(k)),
    decreases d.len() - k,
{
    if k < d.len() {
        lemma_digits_value_grows(d, k + 1);
        assert(d.take(k + 1).drop_last() =~= d.take(k));
    } else {
        assert(d.take(k) =~= d);
    }
    lemma_digits_value_nonneg(d.take(k));
}

proof fn lemma_digits_value_nonneg(d: Seq<char>)
    requires
        forall|i: int| 0 <= i < d.len() ==> is_dec_digit(#[trigger] d[i]),
    ensures
        0 <= digits_value(d),
    decreases d.len(),
{
    if d.len() > 0 {
        assert(is_dec_digit(d[d.len() - 1]));
        lemma_digits_value_nonneg(d.drop_last());
    }
}

/// `str::parse::<i64>`, as std documents it.
pub fn parse_int(t: &str) -> (r: Option<i64>)
    ensures
        r == parse_i64(t@),
{
    let n = t.unicode_len();
    let mut start: usize = 0;
    let mut neg = false;
    if n > 0 {
        let c = t.get_char(0);
        if c == '-' {
            neg = true;
            start = 1;
        } else if c == '+' {
            start = 1;
        }
    }
    let ghost digits = unsigned_part(t@);
    assert(digits =~= t@.subrange(start as int, n as int));
    if start == n {
        return None;
    }
    // the magnitude so far; 2^63 is the largest any 64-bit value needs
    let limit: u64 = 9223372036854775808;
    let mut acc: u64 = 0;
    let mut i: usize = start;
    while i < n
        invariant
            start <= i <= n,
            n == t@.len(),
            digits == t@.subrange(start as int, n as int),
            digits == unsigned_part(t@),
            neg == (t@.len() > 0 && t@[0] == '-'),
            limit == 9223372036854775808u64,
            acc <= limit,
            acc == digits_value(digits.take(i - start)),
            forall|j: int| 0 <= j < i - start ==> is_dec_digit(#[trigger] digits[j]),
        decreases n - i,
    {
        let c = t.get_char(i);
        assert(digits[i - start] == c);
        if c < '0' || c > '9' {
            assert(!all_digits(digits)) by {
                assert(!is_dec_digit(digits[i - start]));
            }
            return None;
        }
        let d = (c as u32 - '0' as u32) as u64;
        assert(digits.take(i - start + 1).drop_last() =~= digits.take(i - start));
        if acc > (limit - d) / 10 {
            // the value already passes what 64 bits hold, whatever follows
            proof {
                let v = digits_value(digits.take(i - start + 1));
                assert(v == acc * 10 + d);
                assert(v > limit) by (nonlinear_arith)
                    requires
                        acc > (limit - d) / 10,
                        v == acc * 10 + d,
                        d <= 9,
                        limit == 9223372036854775808u64,
                ;
                if all_digits(digits) {
                    lemma_digits_value_grows(digits, i - start + 1);
                    assert(digits_value(digits) > limit);
                }
            }
            return None;
        }
        acc = acc * 10 + d;
        i += 1;
    }
    assert(digits.take(n - start) =~= digits);
    if neg {
        if acc == limit {
            Some(i64::MIN)
        } else {
            Some(0i64 - acc as i64)
        }
    } else if acc == limit {
        None
    } else {
        Some(acc as i64)
    }
}

/// `s.to_int()`: the whole text, leading and trailing whitespace dropped, as a 64-bit
/// integer, if it is one.
pub fn to_int(s: &str) -> (r: Option<i64>)
    ensures
        r == parse_i64(trim_spec(s@)),
{
    parse_int(trim_text(s))
}

/// `n` copies of `s`, one after another.
pub open spec fn repeated(s: Seq<char>, n: nat) -> Seq<char>
    decreases n,
{
    if n == 0 {
        seq![]
    } else {
        repeated(s, (n - 1) as nat) + s
    }
}

/// `s.repeat(count)`: `count` copies of `s`; a negative count, or a result past what an
/// allocation can hold (`isize::MAX` bytes), is an error.
pub fn repeat(s: &str, count: i64) -> (r: Result<String, RtErr>)
    ensures
        if count < 0 || count > usize::MAX {
            r matches Err(e) && invalid_argument(e) == "repeat count cannot be negative"@
        } else if s.spec_bytes().len() * count > isize::MAX {
            r matches Err(e) && invalid_argument(e) == "repeat result would be too large"@
        } else {
            r matches Ok(v) && v@ == repeated(s@, count as nat)
        },
{
    if count < 0 || count as u64 > usize::MAX as u64 {
        proof {
            reveal_strlit("repeat count cannot be negative");
        }
        return Err(RtErr::InvalidArgument("repeat count cannot be negative".to_string()));
    }
    let count: usize = count as usize;
    let blen = s.as_bytes().len();
    let fits = match blen.checked_mul(count) {
        Some(total) => total <= isize::MAX as usize,
        None => false,
    };
    if !fits {
        proof {
            reveal_strlit("repeat result would be too large");
        }
        return Err(RtErr::InvalidArgument("repeat result would be too large".to_string()));
    }
    let mut out = String::new();
    let mut k: usize = 0;
    while k < count
        invariant
            k <= count,
            out@ == repeated(s@, k as nat),
        decreases count - k,
    {
        out.append(s);
        k += 1;
    }
    Ok(out)
}

/// The 1-based line of byte `offset` in `text`; an offset past the end counts as the end.
pub open spec fn line_at(text: Seq<u8>, offset: int) -> int {
    newlines(text.subrange(0, if offset < text.len() { offset } else { text.len() as int })) as int + 1
}

/// The line number `debug::caller_line` reports for a call at byte `offset` of `text`.
pub fn caller_line(text: &str, offset: usize) -> (r: i64)
    requires
        text.spec_bytes().len() < i64::MAX,
        is_char_boundary(
            text.spec_bytes(),
            if offset < text.spec_bytes().len() {
                offset as int
            } else {
                text.spec_bytes().len() as int
            },
        ),
    ensures
        r == line_at(text.spec_bytes(), offset as int),
{
    let b = text.as_bytes();
    let upto = if offset < b.len() { offset } else { b.len() };
    let n = count_newlines(b, upto);
    proof {
        crate::text::lemma_newlines_bound(b@.subrange(0, upto as int));
    }
    n as i64 + 1
}

/// How many leading entries of `table` start before `rel`: where `rel` would go among the
/// sorted offsets.
pub open spec fn entries_before(table: Seq<(usize, (usize, usize))>, rel: int, k: int) -> int
    decreases table.len() - k,
{
    if k < 0 || k >= table.len() || table[k].0 >= rel {
        k
    } else {
        entries_before(table, rel, k + 1)
    }
}

/// The offsets of `table` never decrease.
pub open spec fn sorted_offsets(table: Seq<(usize, (usize, usize))>) -> bool {
    forall|a: int, b: int| 0 <= a <= b < table.len() ==> table[a].0 <= table[b].0
}

/// Where the call `skip` frames up was made: the frame's chunk and instruction pointer,
/// made relative to where the chunk starts, then the last source position whose offset
/// lies before it. No answer when `skip` is negative, the frame or the chunk is not there,
/// or nothing starts before the instruction.
pub open spec fn caller_loc_spec(
    stack: Seq<(usize, usize)>,
    offsets: Seq<usize>,
    locs: Seq<Seq<(usize, (usize, usize))>>,
    skip: int,
) -> Option<(usize, usize)> {
    if skip < 0 || skip > usize::MAX || stack.len() < 1 + skip {
        None
    } else {
        let (chunk, ip) = stack[stack.len() - 1 - skip];
        if chunk >= offsets.len() || ip < offsets[chunk as int] || chunk >= locs.len() {
            None
        } else {
            let table = locs[chunk as int];
            let i = entries_before(table, ip - offsets[chunk as int], 0);
            if i == 0 {
                None
            } else {
                Some(table[i - 1].1)
            }
        }
    }
}

proof fn lemma_entries_before(table: Seq<(usize, (usize, usize))>, rel: int, k: int)
    requires
        0 <= k <= table.len(),
        sorted_offsets(table),
    ensures
        k <= entries_before(table, rel, k) <= table.len(),
        forall|j: int| k <= j < entries_before(table, rel, k) ==> table[j].0 < rel,
        entries_before(table, rel, k) < table.len() ==> table[entries_before(table, rel, k)].0 >= rel,
    decreases table.len() - k,
{
    if k < table.len() && table[k].0 < rel {
        lemma_entries_before(table, rel, k + 1);
    }
}

/// The first position of the sorted `table` whose offset is not before `rel`
/// (`partition_point`), found by halving.
fn partition_point(table: &Vec<(usize, (usize, usize))>, rel: usize) -> (r: usize)
    requires
        sorted_offsets(table@),
    ensures
        r == entries_before(table@, rel as int, 0),
        r <= table@.len(),
{
    proof {
        lemma_entries_before(table@, rel as int, 0);
    }
    let ghost p = entries_before(table@, rel as int, 0);
    let mut lo: usize = 0;
    let mut hi: usize = table.len();
    while lo < hi
        invariant
            0 <= lo <= p <= hi <= table@.len(),
            sorted_offsets(table@),
            p == entries_before(table@, rel as int, 0),
            forall|j: int| 0 <= j < p ==> table@[j].0 < rel,
            p < table@.len() ==> table@[p].0 >= rel,
        decreases hi - lo,
    {
        let mid = lo + (hi - lo) / 2;
        if table[mid].0 < rel {
            proof {
                if mid >= p {
                    assert(table@[p].0 <= table@[mid as int].0);
                }
            }
            lo = mid + 1;
        } else {
            proof {
                if mid < p {
                    assert(table@[mid as int].0 < rel);
                }
            }
            hi = mid;
        }
    }
    lo
}

/// Where the call `skip` frames up was made, from the debug tables: the stack of
/// `(chunk, ip)` frames (innermost last), where each chunk starts, and each chunk's
/// sorted `(offset, (file, start))` source positions.
pub fn caller_loc(
    stack: &Vec<(usize, usize)>,
    offsets: &Vec<usize>,
    locs: &Vec<Vec<(usize, (usize, usize))>>,
    skip: i64,
) -> (r: Option<(usize, usize)>)
    requires
        skip < usize::MAX,
        forall|c: int| 0 <= c < locs@.len() ==> sorted_offsets(#[trigger] locs@[c]@),
    ensures
        r == caller_loc_spec(stack@, offsets@, locs@.map_values(|t: Vec<(usize, (usize, usize))>| t@), skip as int),
{
    let ghost lv = locs@.map_values(|t: Vec<(usize, (usize, usize))>| t@);
    if skip < 0 || skip as u64 > usize::MAX as u64 {
        return None;
    }
    let skip: usize = skip as usize;
    if stack.len() < 1 + skip {
        return None;
    }
    let (chunk, ip) = stack[stack.len() - 1 - skip];
    if chunk >= offsets.len() || ip < offsets[chunk] || chunk >= locs.len() {
        return None;
    }
    let table = &locs[chunk];
    assert(lv[chunk as int] == table@);
    let i = partition_point(table, ip - offsets[chunk]);
    if i == 0 {
        return None;
    }
    Some(table[i - 1].1)
}

proof fn lemma_dec_digits(m: nat)
    ensures
        dec(m).len() > 0,
        all_digits(dec(m)),
        digits_value(dec(m)) == m,
    decreases m,
{
    if m >= 10 {
        lemma_dec_digits(m / 10);
        let d = dec(m / 10);
        let c = crate::text::digit_char(m % 10);
        assert(dec(m) == d.push(c));
        assert(d.push(c).drop_last() =~= d);
        assert(is_dec_digit(c));
        assert(c as int - '0' as int == m % 10);
        assert(digits_value(d.push(c)) == digits_value(d) * 10 + (c as int - '0' as int));
        assert((m / 10) * 10 + m % 10 == m);
        assert forall|i: int| 0 <= i < d.push(c).len() implies is_dec_digit(#[trigger] d.push(c)[i]) by {
            if i < d.len() {
                assert(d.push(c)[i] == d[i]);
            }
        }
    } else {
        let c = crate::text::digit_char(m);
        assert(dec(m) == seq![c]);
        assert(seq![c].drop_last() =~= Seq::<char>::empty());
        assert(c as int - '0' as int == m);
        assert(digits_value(seq![c]) == digits_value(Seq::<char>::empty()) * 10 + (c as int - '0' as int));
        assert(is_dec_digit(seq![c][0]));
    }
}

/// Reading back the text `to_str` writes gives the number again, for every int.
pub proof fn lemma_int_text_round_trip(n: i64)
    ensures
        parse_i64(signed_dec(n as int)) == Some(n),
{
    let t = signed_dec(n as int);
    if n < 0 {
        let m = (-n) as nat;
        lemma_dec_digits(m);
        reveal_strlit("-");
        assert(t[0] == '-');
        assert(unsigned_part(t) =~= dec(m));
    } else {
        lemma_dec_digits(n as nat);
        assert(is_dec_digit(t[0]));
        assert(unsigned_part(t) == t);
    }
}

} // verus!
