use mimas::parse_item::{Attribute, Function, Item, ItemKind};

fn attr(n: &str) -> Attribute {
    Attribute { name: n.to_string() }
}

#[test]
fn items_carry_visibility_markers_and_kind() {
    let f = Item::new(ItemKind::Function(Function { name: "square".to_string() }), 7, false);
    assert_eq!(f.id(), 7);
    assert!(!f.public());
    assert!(f.attrs().is_empty());
    assert!(!f.is_test());
    assert_eq!(f.as_function().map(|f| f.name.as_str()), Some("square"));
    let f = f.with_attrs(vec![attr("tests"), attr("test")]).with_public();
    assert!(f.public());
    assert!(f.is_test());
    assert_eq!(f.attrs().len(), 2);
    let f = f.with_attrs(vec![attr("tests")]);
    assert!(!f.is_test());
    let s = Item::new(ItemKind::Struct, 8, true);
    assert!(s.as_function().is_none());
    assert!(matches!(s.kind(), ItemKind::Struct));
}
