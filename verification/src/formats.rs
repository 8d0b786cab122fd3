//! Decisions the file readers make about what they read: the kind a spreadsheet column
//! settles on from its cells, and, in a paint file's layer tree, what each referenced node
//! is, how many channels a pixel format has and whether a raster's pixel data has the size
//! its bounds and format call for.

use vstd::prelude::*;
use crate::text::same_text;

verus! {

/// What one spreadsheet cell holds, as far as choosing its column's type goes.
#[derive(Debug, Clone, Copy, PartialEq, Eq, Structural)]
pub enum Kind {
    Int,
    Float,
    Bool,
    Str,
    DateTime,
}

/// The kind a column settles on after `a` meets a cell of kind `b`: the first kind seen,
/// an int and a float widen to float, two equal kinds stay, and anything else is text.
pub open spec fn merge_of(a: Option<Kind>, b: Kind) -> Kind {
    match a {
        None => b,
        Some(x) => if (x == Kind::Int && b == Kind::Float) || (x == Kind::Float && b == Kind::Int) {
            Kind::Float
        } else if x == b {
            x
        } else {
            Kind::Str
        },
    }
}

/// Folds one more cell kind into a column's kind so far.
pub fn merge_kind(a: Option<Kind>, b: Kind) -> (r: Option<Kind>)
    ensures
        r == Some(merge_of(a, b)),
{
    Some(
        match (a, b) {
            (None, k) => k,
            (Some(Kind::Int), Kind::Float) | (Some(Kind::Float), Kind::Int) => Kind::Float,
            (Some(x), y) => if x == y {
                x
            } else {
                Kind::Str
            },
        },
    )
}

/// The kind of a column whose cells have the kinds `cells` (`None` for an empty cell):
/// the fold of `merge_of` over the non-empty ones, `None` when every cell is empty.
pub open spec fn column_kind_of(cells: Seq<Option<Kind>>) -> Option<Kind>
    decreases cells.len(),
{
    if cells.len() == 0 {
        None
    } else {
        let before = column_kind_of(cells.drop_last());
        match cells.last() {
            Some(k) => Some(merge_of(before, k)),
            None => before,
        }
    }
}

/// Whether some cell of a column has kind `k`.
pub open spec fn has_kind(cells: Seq<Option<Kind>>, k: Kind) -> bool {
    cells.contains(Some(k))
}

/// The kind a column settles on, read off which kinds occur among its cells: none when no
/// cell has one, the one kind when all agree, float for ints mixed with floats, and text
/// for any other mixture.
pub open spec fn kind_of_present(cells: Seq<Option<Kind>>) -> Option<Kind> {
    let i = has_kind(cells, Kind::Int);
    let f = has_kind(cells, Kind::Float);
    let b = has_kind(cells, Kind::Bool);
    let s = has_kind(cells, Kind::Str);
    let d = has_kind(cells, Kind::DateTime);
    if !i && !f && !b && !s && !d {
        None
    } else if !b && !s && !d {
        if i && !f {
            Some(Kind::Int)
        } else {
            Some(Kind::Float)
        }
    } else if !i && !f && !s && !d {
        Some(Kind::Bool)
    } else if !i && !f && !b && !s {
        Some(Kind::DateTime)
    } else {
        Some(Kind::Str)
    }
}

/// Folding the cells one by one settles on the kind that the set of kinds present gives.
pub proof fn lemma_column_kind_by_presence(cells: Seq<Option<Kind>>)
    ensures
        column_kind_of(cells) == kind_of_present(cells),
    decreases cells.len(),
{
    if cells.len() > 0 {
        let p = cells.drop_last();
        lemma_column_kind_by_presence(p);
        assert(p.push(cells.last()) =~= cells);
        assert forall|j: Kind| #[trigger] has_kind(cells, j) == (has_kind(p, j) || cells.last() == Some(j)) by {
            vstd::seq_lib::lemma_seq_contains_after_push(p, cells.last(), Some(j));
        }
        assert(has_kind(cells, Kind::Int) == (has_kind(p, Kind::Int) || cells.last() == Some(Kind::Int)));
        assert(has_kind(cells, Kind::Float) == (has_kind(p, Kind::Float) || cells.last() == Some(Kind::Float)));
        assert(has_kind(cells, Kind::Bool) == (has_kind(p, Kind::Bool) || cells.last() == Some(Kind::Bool)));
        assert(has_kind(cells, Kind::Str) == (has_kind(p, Kind::Str) || cells.last() == Some(Kind::Str)));
        assert(has_kind(cells, Kind::DateTime) == (has_kind(p, Kind::DateTime) || cells.last() == Some(Kind::DateTime)));
    }
}

/// The kind a column settles on does not depend on the order of its cells: two columns
/// holding the same cells in any order settle on the same kind.
pub proof fn lemma_column_kind_ignores_cell_order(a: Seq<Option<Kind>>, b: Seq<Option<Kind>>)
    requires
        a.to_multiset() == b.to_multiset(),
    ensures
        column_kind_of(a) == column_kind_of(b),
{
    lemma_column_kind_by_presence(a);
    lemma_column_kind_by_presence(b);
    a.to_multiset_ensures();
    b.to_multiset_ensures();
    assert forall|j: Kind| #[trigger] has_kind(a, j) == has_kind(b, j) by {
        assert(a.contains(Some(j)) <==> a.to_multiset().count(Some(j)) > 0);
        assert(b.contains(Some(j)) <==> b.to_multiset().count(Some(j)) > 0);
    }
    assert(has_kind(a, Kind::Int) == has_kind(b, Kind::Int));
    assert(has_kind(a, Kind::Float) == has_kind(b, Kind::Float));
    assert(has_kind(a, Kind::Bool) == has_kind(b, Kind::Bool));
    assert(has_kind(a, Kind::Str) == has_kind(b, Kind::Str));
    assert(has_kind(a, Kind::DateTime) == has_kind(b, Kind::DateTime));
}

/// The kind a column settles on, its empty cells skipped.
pub fn column_kind(cells: &[Option<Kind>]) -> (r: Option<Kind>)
    ensures
        r == column_kind_of(cells@),
        r == kind_of_present(cells@),
{
    let mut acc: Option<Kind> = None;
    let mut k: usize = 0;
    while k < cells.len()
        invariant
            k <= cells@.len(),
            acc == column_kind_of(cells@.take(k as int)),
        decreases cells@.len() - k,
    {
        proof {
            assert(cells@.take(k + 1).drop_last() =~= cells@.take(k as int));
        }
        if let Some(c) = cells[k] {
            acc = merge_kind(acc, c);
        }
        k += 1;
    }
    assert(cells@.take(cells@.len() as int) =~= cells@);
    proof {
        lemma_column_kind_by_presence(cells@);
    }
    acc
}

/// A column mixing kinds only ever widens: once it is text it stays text.
pub proof fn lemma_text_absorbs(cells: Seq<Option<Kind>>, more: Seq<Option<Kind>>)
    requires
        column_kind_of(cells) == Some(Kind::Str),
    ensures
        column_kind_of(cells + more) == Some(Kind::Str),
    decreases more.len(),
{
    if more.len() == 0 {
        assert(cells + more =~= cells);
    } else {
        lemma_text_absorbs(cells, more.drop_last());
        assert((cells + more).drop_last() =~= cells + more.drop_last());
    }
}

/// The channels per pixel of a pixel format: `rgba8unorm` has four, `r8unorm` one; other
/// formats are unknown.
pub fn channels_for_format(format: &str) -> (r: Option<u8>)
    ensures
        r == if format@ == "rgba8unorm"@ {
            Some(4u8)
        } else if format@ == "r8unorm"@ {
            Some(1u8)
        } else {
            None
        },
{
    if same_text(format, "rgba8unorm") {
        Some(4)
    } else if same_text(format, "r8unorm") {
        Some(1)
    } else {
        None
    }
}

/// The layer kinds a paint file's nodes can have, past the dividers that are skipped.
#[derive(Debug, Clone, Copy, PartialEq, Eq, Structural)]
pub enum NodeKind {
    Group,
    Raster,
    Void,
}

/// Why a paint file's layer tree cannot be read.
#[derive(Debug, Clone, PartialEq, Eq)]
pub enum LayerError {
    /// A node id is referenced but no node has it.
    Undefined(i64),
    /// The node has a kind this reader does not know (the id and the kind).
    Unsupported(i64, String),
    /// A raster node's pixel format is unknown (the id and the format).
    UnknownFormat(i64, String),
    /// A raster node's pixel data has another size than its bounds and format call for: the
    /// id, the bytes found, the width, the height and the channels per pixel.
    PixelSize(i64, usize, i64, i64, u8),
}

/// Where among `nodes` (each an id and a kind) the node with id `id` sits: the last one
/// with that id, as a map built from the list keeps it.
pub open spec fn last_node(nodes: Seq<(i64, String)>, id: i64) -> Option<int>
    decreases nodes.len(),
{
    if nodes.len() == 0 {
        None
    } else if nodes.last().0 == id {
        Some(nodes.len() - 1)
    } else {
        last_node(nodes.drop_last(), id)
    }
}

/// What reading node `id` comes to: an error when no node has the id, `None` for a
/// divider (skipped), the layer kind and the node's place among `nodes` for a group, a
/// raster or a void, and an error for any other kind.
pub fn node_kind(nodes: &[(i64, String)], id: i64) -> (r: Result<Option<(NodeKind, usize)>, LayerError>)
    ensures
        match last_node(nodes@, id) {
            None => r == Err::<Option<(NodeKind, usize)>, LayerError>(LayerError::Undefined(id)),
            Some(k) => {
                let kind = nodes@[k].1@;
                if kind == "divider"@ {
                    r == Ok::<Option<(NodeKind, usize)>, LayerError>(None)
                } else if kind == "group"@ {
                    r == Ok::<Option<(NodeKind, usize)>, LayerError>(Some((NodeKind::Group, k as usize)))
                } else if kind == "raster"@ {
                    r == Ok::<Option<(NodeKind, usize)>, LayerError>(Some((NodeKind::Raster, k as usize)))
                } else if kind == "void"@ {
                    r == Ok::<Option<(NodeKind, usize)>, LayerError>(Some((NodeKind::Void, k as usize)))
                } else {
                    r matches Err(LayerError::Unsupported(i, t)) && i == id && t@ == kind
                }
            },
        },
{
    let mut k: usize = nodes.len();
    assert(nodes@.take(k as int) =~= nodes@);
    while k > 0
        invariant
            k <= nodes@.len(),
            last_node(nodes@, id) == last_node(nodes@.take(k as int), id),
        decreases k,
    {
        proof {
            assert(nodes@.take(k as int).drop_last() =~= nodes@.take(k - 1));
        }
        let at = k - 1;
        if nodes[at].0 == id {
            let kind = nodes[at].1.as_str();
            if same_text(kind, "divider") {
                return Ok(None);
            } else if same_text(kind, "group") {
                return Ok(Some((NodeKind::Group, at)));
            } else if same_text(kind, "raster") {
                return Ok(Some((NodeKind::Raster, at)));
            } else if same_text(kind, "void") {
                return Ok(Some((NodeKind::Void, at)));
            }
            return Err(LayerError::Unsupported(id, kind.to_owned()));
        }
        k -= 1;
    }
    Err(LayerError::Undefined(id))
}

/// The channels per pixel of a pixel format, as the contracts see it.
pub open spec fn channels_of(format: Seq<char>) -> Option<u8> {
    if format == "rgba8unorm"@ {
        Some(4u8)
    } else if format == "r8unorm"@ {
        Some(1u8)
    } else {
        None
    }
}

/// The bytes a raster of the given bounds takes at `channels` bytes per pixel, each bound
/// taken as the platform's unsigned size.
pub open spec fn raster_bytes(width: i64, height: i64, channels: u8) -> int {
    (width as usize) as int * (height as usize) as int * channels as int
}

/// Checks a raster node's pixel data against its bounds and format: the channels per
/// pixel when the format is known and the data holds exactly `width * height * channels`
/// bytes, else the error that says which check failed.
pub fn raster_channels(id: i64, format: &str, width: i64, height: i64, byte_len: usize) -> (r: Result<u8, LayerError>)
    ensures
        match channels_of(format@) {
            None => r matches Err(LayerError::UnknownFormat(i, f)) && i == id && f@ == format@,
            Some(c) => if raster_bytes(width, height, c) == byte_len as int {
                r == Ok::<u8, LayerError>(c)
            } else {
                r == Err::<u8, LayerError>(LayerError::PixelSize(id, byte_len, width, height, c))
            },
        },
{
    let channels = match channels_for_format(format) {
        Some(c) => c,
        None => {
            return Err(LayerError::UnknownFormat(id, format.to_owned()));
        },
    };
    #[verifier::truncate]
    let w = width as usize;
    #[verifier::truncate]
    let h = height as usize;
    let fits = match w.checked_mul(h) {
        Some(wh) => match wh.checked_mul(channels as usize) {
            Some(expected) => expected == byte_len,
            None => false,
        },
        None => false,
    };
    proof {
        assert(raster_bytes(width, height, channels) == (w as int) * (h as int) * (channels as int));
        if (w as int) * (h as int) > usize::MAX {
            assert((w as int) * (h as int) * (channels as int) >= (w as int) * (h as int)) by (nonlinear_arith)
                requires channels >= 1, (w as int) * (h as int) >= 0;
        }
    }
    if fits {
        Ok(channels)
    } else {
        Err(LayerError::PixelSize(id, byte_len, width, height, channels))
    }
}

} // verus!
