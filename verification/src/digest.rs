//! Content hashes of item text: the BLAKE3 digest, written as lowercase hex.

use vstd::prelude::*;
use vstd::string::StringSliceAdditionalSpecFns;
use crate::text::digit_char;

verus! {

/// The 32-byte BLAKE3 digest of `data`.
pub uninterp spec fn blake3_digest(data: Seq<u8>) -> Seq<u8>;

/// Calls `blake3::hash`, whose 32-byte result depends on `data` alone; the contract
/// names that result and says nothing more of it.
#[verifier::external_body]
fn blake3_hash(data: &[u8]) -> (d: [u8; 32])
    ensures
        d@ == blake3_digest(data@),
{
    *blake3::hash(data).as_bytes()
}

/// The lowercase hex digit for `v` (below 16).
pub open spec fn hex_char(v: nat) -> char {
    if v < 10 {
        digit_char(v)
    } else if v == 10 {
        'a'
    } else if v == 11 {
        'b'
    } else if v == 12 {
        'c'
    } else if v == 13 {
        'd'
    } else if v == 14 {
        'e'
    } else {
        'f'
    }
}

/// `d` in lowercase hex, two digits per byte, high digit first.
pub open spec fn hex_of(d: Seq<u8>) -> Seq<char>
    decreases d.len(),
{
    if d.len() == 0 {
        seq![]
    } else {
        hex_of(d.drop_last()) + seq![hex_char((d.last() / 16) as nat), hex_char((d.last() % 16) as nat)]
    }
}

fn hex_str(v: u8) -> (s: &'static str)
    requires
        v < 16,
    ensures
        s@ == seq![hex_char(v as nat)],
{
    if v == 0 {
        proof { reveal_strlit("0"); }
        "0"
    } else if v == 1 {
        proof { reveal_strlit("1"); }
        "1"
    } else if v == 2 {
        proof { reveal_strlit("2"); }
        "2"
    } else if v == 3 {
        proof { reveal_strlit("3"); }
        "3"
    } else if v == 4 {
        proof { reveal_strlit("4"); }
        "4"
    } else if v == 5 {
        proof { reveal_strlit("5"); }
        "5"
    } else if v == 6 {
        proof { reveal_strlit("6"); }
        "6"
    } else if v == 7 {
        proof { reveal_strlit("7"); }
        "7"
    } else if v == 8 {
        proof { reveal_strlit("8"); }
        "8"
    } else if v == 9 {
        proof { reveal_strlit("9"); }
        "9"
    } else if v == 10 {
        proof { reveal_strlit("a"); }
        "a"
    } else if v == 11 {
        proof { reveal_strlit("b"); }
        "b"
    } else if v == 12 {
        proof { reveal_strlit("c"); }
        "c"
    } else if v == 13 {
        proof { reveal_strlit("d"); }
        "d"
    } else if v == 14 {
        proof { reveal_strlit("e"); }
        "e"
    } else {
        proof { reveal_strlit("f"); }
        "f"
    }
}

/// `d` in lowercase hex, two digits per byte.
pub fn hex_digest(d: &[u8]) -> (r: String)
    ensures
        r@ == hex_of(d@),
{
    let mut r = String::new();
    let mut k: usize = 0;
    while k < d.len()
        invariant
            k <= d@.len(),
            r@ == hex_of(d@.take(k as int)),
        decreases d@.len() - k,
    {
        let v = d[k];
        r.append(hex_str(v / 16));
        r.append(hex_str(v % 16));
        proof {
            assert(d@.take(k + 1).drop_last() =~= d@.take(k as int));
        }
        k += 1;
    }
    assert(d@.take(d@.len() as int) =~= d@);
    r
}

/// The content hash of an item: the hex BLAKE3 digest of its canonical token text, or of
/// its raw `source` when that text is `None` (the source does not lex).
pub fn hash_item(canonical: Option<&str>, source: &str) -> (r: String)
    ensures
        r@ == hex_of(
            blake3_digest(
                match canonical {
                    Some(c) => c.spec_bytes(),
                    None => source.spec_bytes(),
                },
            ),
        ),
{
    let text = match canonical {
        Some(c) => c,
        None => source,
    };
    let d = blake3_hash(text.as_bytes());
    hex_digest(d.as_slice())
}

} // verus!
