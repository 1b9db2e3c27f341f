use markcomp::document::{Component, Document};
use markcomp::expand::{ComponentTable, LazyComponent, LazyComponents};

fn table_of(sources: &[&[u8]]) -> ComponentTable {
    let mut t = ComponentTable::new();
    for s in sources {
        t.insert(Component::new(&s.to_vec()).expect("component should parse"));
    }
    t
}

fn expand_to_string(table: &ComponentTable, page: &[u8]) -> Vec<u8> {
    let mut doc = Document::new(&page.to_vec()).expect("page should parse");
    assert!(doc.expand(table));
    let mut out = Vec::new();
    doc.write(&mut out);
    out
}

#[test]
fn attribute_forwarding() {
    let t = table_of(&[b"<Box size><div class=\"size\"/></Box>"]);
    let out = expand_to_string(&t, b"<Box size=\"24\" />");
    assert_eq!(out, b"<!DOCTYPE html><div class=\"24\"/>".to_vec());
}

#[test]
fn attribute_default_applies() {
    let t = table_of(&[b"<Box size=\"7\"><div class=\"size\"/></Box>"]);
    let out = expand_to_string(&t, b"<Box />");
    assert_eq!(out, b"<!DOCTYPE html><div class=\"7\"/>".to_vec());
}

#[test]
fn outlet_splicing_preserves_order() {
    let t = table_of(&[b"<Box><header/><children/><footer/></Box>"]);
    let out = expand_to_string(&t, b"<Box>A<b>B</b></Box>");
    assert_eq!(out, b"<!DOCTYPE html><header/>A<b>B</b><footer/>".to_vec());
}

#[test]
fn children_dropped_without_outlet() {
    let t = table_of(&[b"<Box><header/></Box>"]);
    let out = expand_to_string(&t, b"<Box>A</Box>");
    assert_eq!(out, b"<!DOCTYPE html><header/>".to_vec());
}

#[test]
fn unknown_tags_pass_through() {
    let t = table_of(&[b"<Box><hr/></Box>"]);
    let out = expand_to_string(&t, b"<Other x=\"1\">t</Other>");
    assert_eq!(out, b"<!DOCTYPE html><Other x=\"1\">t</Other>".to_vec());
}

#[test]
fn nested_components_reach_fixed_point() {
    let t = table_of(&[b"<Outer><Inner/></Outer>", b"<Inner><i/></Inner>"]);
    let out = expand_to_string(&t, b"<Outer/>");
    assert_eq!(out, b"<!DOCTYPE html><i/>".to_vec());
}

#[test]
fn expansion_is_idempotent() {
    let t = table_of(&[b"<Box><header/><children/><footer/></Box>"]);
    let mut doc = Document::new(&b"x<Box>A</Box><hr/>".to_vec()).expect("page should parse");
    assert!(doc.expand(&t));
    let mut first = Vec::new();
    doc.write(&mut first);
    assert!(doc.expand(&t));
    let mut second = Vec::new();
    doc.write(&mut second);
    assert_eq!(first, second);
}

#[test]
fn cyclic_references_stop_without_converging() {
    let t = table_of(&[b"<Loop><Loop/></Loop>"]);
    let mut doc = Document::new(&b"<Loop/>".to_vec()).expect("page should parse");
    assert!(!doc.expand(&t));
}

#[test]
fn lazy_component_parses_once_on_demand() {
    let mut lc = LazyComponent::new(b"<Icon><svg/></Icon>".to_vec());
    assert!(lc.component().is_none());
    assert!(lc.ensure_parsed());
    let c = lc.component().expect("component should be cached");
    assert_eq!(c.root.name, b"Icon".to_vec());

    let mut table = LazyComponents::new();
    table.register(b"IconBold".to_vec(), b"<IconBold><svg/></IconBold>".to_vec());
    table.register(b"IconBold".to_vec(), b"<IconBold><hr/></IconBold>".to_vec());
    assert!(table.get(&b"Missing".to_vec()).is_none());
    let found = table.get(&b"IconBold".to_vec()).expect("name should resolve");
    // the first registration of a name keeps precedence
    match &found.root.children[0] {
        markcomp::element::Node::Element(e) => assert_eq!(e.name, b"svg".to_vec()),
        _ => panic!("an element child was expected"),
    }
    let again = table.get(&b"IconBold".to_vec()).expect("a second lookup still resolves");
    assert_eq!(again.root.name, b"IconBold".to_vec());
}
