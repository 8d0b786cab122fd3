//! A parsed top-level item as the rest of the toolkit reads it: what it declares, whether
//! it is `pub`, and the `#[...]` markers written on it.

use vstd::prelude::*;
use crate::text::same_text;

verus! {

/// A function an item declares, by its name.
#[derive(Debug, Clone, PartialEq, Eq)]
pub struct Function {
    pub name: String,
}

/// What an item declares.
#[derive(Debug)]
pub enum ItemKind {
    Function(Function),
    Struct,
    Pact,
    Enum,
    Impl,
    Const,
    Use,
    Tests,
    Poison,
}

/// A `#[name]` marker on an item.
#[derive(Debug, Clone, PartialEq, Eq)]
pub struct Attribute {
    pub name: String,
}

/// An item with what parsing found around it: its node id, visibility and markers.
#[derive(Debug)]
pub struct Item {
    kind: Box<ItemKind>,
    id: u64,
    public: bool,
    attrs: Vec<Attribute>,
}

/// The names of the markers `attrs`.
pub open spec fn attr_names(attrs: Seq<Attribute>) -> Seq<Seq<char>> {
    attrs.map_values(|a: Attribute| a.name@)
}

impl Item {
    /// What the item declares.
    pub closed spec fn kind_spec(&self) -> ItemKind {
        *self.kind
    }

    /// The item's node id.
    pub closed spec fn id_spec(&self) -> u64 {
        self.id
    }

    /// Whether the item is `pub`.
    pub closed spec fn public_spec(&self) -> bool {
        self.public
    }

    /// The item's markers, in source order.
    pub closed spec fn attrs_spec(&self) -> Seq<Attribute> {
        self.attrs@
    }

    /// A new item with node id `id`, and no markers.
    pub fn new(kind: ItemKind, id: u64, public: bool) -> (r: Item)
        ensures
            r.kind_spec() == kind,
            r.id_spec() == id,
            r.public_spec() == public,
            r.attrs_spec() == Seq::<Attribute>::empty(),
    {
        Item { kind: Box::new(kind), id, public, attrs: Vec::new() }
    }

    /// The item with the markers `attrs`, in place of any it had.
    pub fn with_attrs(self, attrs: Vec<Attribute>) -> (r: Item)
        ensures
            r.kind_spec() == self.kind_spec(),
            r.id_spec() == self.id_spec(),
            r.public_spec() == self.public_spec(),
            r.attrs_spec() == attrs@,
    {
        Item { attrs, ..self }
    }

    /// The item marked `pub`.
    pub fn with_public(self) -> (r: Item)
        ensures
            r.kind_spec() == self.kind_spec(),
            r.id_spec() == self.id_spec(),
            r.public_spec(),
            r.attrs_spec() == self.attrs_spec(),
    {
        Item { public: true, ..self }
    }

    /// What the item declares.
    pub fn kind(&self) -> (r: &ItemKind)
        ensures
            *r == self.kind_spec(),
    {
        &self.kind
    }

    /// The item's node id.
    pub fn id(&self) -> (r: u64)
        ensures
            r == self.id_spec(),
    {
        self.id
    }

    /// Whether the item is `pub`.
    pub fn public(&self) -> (r: bool)
        ensures
            r == self.public_spec(),
    {
        self.public
    }

    /// The item's markers, in source order.
    pub fn attrs(&self) -> (r: &[Attribute])
        ensures
            r@ == self.attrs_spec(),
    {
        self.attrs.as_slice()
    }

    /// Whether the item is marked `#[test]`.
    pub fn is_test(&self) -> (r: bool)
        ensures
            r == attr_names(self.attrs_spec()).contains("test"@),
    {
        let mut k: usize = 0;
        while k < self.attrs.len()
            invariant
                k <= self.attrs@.len(),
                forall|j: int| 0 <= j < k ==> attr_names(self.attrs@)[j] != "test"@,
            decreases self.attrs@.len() - k,
        {
            if same_text(self.attrs[k].name.as_str(), "test") {
                assert(attr_names(self.attrs@)[k as int] == "test"@);
                return true;
            }
            k += 1;
        }
        proof {
            if attr_names(self.attrs@).contains("test"@) {
                let j = choose|j: int|
                    0 <= j < attr_names(self.attrs@).len() && attr_names(self.attrs@)[j] == "test"@;
                assert(attr_names(self.attrs@)[j] != "test"@);
            }
        }
        false
    }

    /// The function the item declares, if it declares one.
    pub fn as_function(&self) -> (r: Option<&Function>)
        ensures
            match self.kind_spec() {
                ItemKind::Function(f) => r == Some(&f),
                _ => r is None,
            },
    {
        match self.kind() {
            ItemKind::Function(f) => Some(f),
            _ => None,
        }
    }
}

} // verus!
