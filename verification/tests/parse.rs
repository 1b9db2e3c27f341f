use markcomp::document::{Component, Document};
use markcomp::element::Node;
use markcomp::parse::{advance_to, attribute, element, identifier, nodes, parse_string, Parsed};

#[test]
fn test_identifier() {
    match identifier(&b"test ".to_vec(), 0) {
        Parsed::Val(v, _) => assert_eq!(v, b"test".to_vec()),
        _ => panic!("identifier should parse"),
    }
    match identifier(&b"test-kebab".to_vec(), 0) {
        Parsed::Val(v, _) => assert_eq!(v, b"test-kebab".to_vec()),
        _ => panic!("identifier should parse"),
    }
    match identifier(&b"alpha1".to_vec(), 0) {
        Parsed::Val(v, _) => assert_eq!(v, b"alpha1".to_vec()),
        _ => panic!("identifier should parse"),
    }
}

#[test]
fn test_element() {
    match element(&b"<test />".to_vec(), 0) {
        Parsed::Val(e, _) => assert_eq!(e.name, b"test".to_vec()),
        _ => panic!("element should parse"),
    }
    match element(&b"<test></test>".to_vec(), 0) {
        Parsed::Val(e, _) => assert_eq!(e.name, b"test".to_vec()),
        _ => panic!("element should parse"),
    }
    match element(&b"<test><div /><div /></test>".to_vec(), 0) {
        Parsed::Val(e, _) => assert_eq!(e.children.len(), 2),
        _ => panic!("element should parse"),
    }
}

#[test]
fn test_text() {
    match element(&b"<test><div /></test>".to_vec(), 0) {
        Parsed::Val(e, _) => assert!(!e.children[0].is_text()),
        _ => panic!("element should parse"),
    }
    match element(&b"<test>Here's some text!</test>".to_vec(), 0) {
        Parsed::Val(e, _) => assert!(e.children[0].is_text()),
        _ => panic!("element should parse"),
    }
}

#[test]
fn parses_string() {
    let input = b"\"test\"".to_vec();
    match parse_string(&input, 0) {
        Parsed::Val(v, k) => {
            assert_eq!(v, b"test".to_vec());
            assert_eq!(k, input.len());
        },
        _ => panic!("string should parse"),
    }
}

#[test]
fn test_attr() {
    match element(&b"<test key=\"value\" />".to_vec(), 0) {
        Parsed::Val(e, _) => {
            assert_eq!(e.attributes[0].name, b"key".to_vec());
            assert_eq!(e.attributes[0].value, Some(b"value".to_vec()));
        },
        _ => panic!("element should parse"),
    }
    match attribute(&b"disabled".to_vec(), 0) {
        Parsed::Val(a, _) => assert_eq!(a.value, None),
        _ => panic!("attribute should parse"),
    }
}

#[test]
fn test_advance() {
    let js = r#"
            let test = 1 < 2;

            document.querySelectorAll(".prerender-link").forEach((link) => {
                link.addEventListener("mouseenter", () => {
                    addPrerenderRules(link.href);
                });
            });"#;
    let input = format!("{js}</script>").into_bytes();
    match advance_to(&input, 0, &b"script".to_vec()) {
        Some((text, end)) => {
            assert_eq!(text, js.as_bytes().to_vec());
            assert_eq!(end, input.len());
        },
        None => panic!("closing tag should be found"),
    }
}

#[test]
fn test_small_component() {
    let input = b"<Test>\n    <children />\n</Test>".to_vec();
    match nodes(&input, 0) {
        Parsed::Val(ns, _) => {
            assert_eq!(ns.len(), 1);
            match &ns[0] {
                Node::Element(e) => {
                    assert_eq!(e.name, b"Test".to_vec());
                    assert_eq!(e.children.len(), 3);
                },
                _ => panic!("a single element was expected"),
            }
        },
        _ => panic!("component should parse"),
    }
    assert!(Component::new(&input).is_ok());
}

#[test]
fn raw_text_tolerates_lt() {
    let input = b"<script>let x = 1 < 2;</script>".to_vec();
    match element(&input, 0) {
        Parsed::Val(e, _) => {
            assert_eq!(e.children.len(), 1);
            match &e.children[0] {
                Node::Text(t) => assert_eq!(t, &b"let x = 1 < 2;".to_vec()),
                _ => panic!("the body should be one text run"),
            }
        },
        _ => panic!("raw-text element should parse"),
    }
}

#[test]
fn void_element_has_no_children() {
    let input = b"<p><hr>tail</p>".to_vec();
    match element(&input, 0) {
        Parsed::Val(e, _) => {
            assert_eq!(e.children.len(), 2);
            match &e.children[0] {
                Node::Element(hr) => assert!(hr.children.is_empty()),
                _ => panic!("hr should be an element"),
            }
        },
        _ => panic!("element should parse"),
    }
}

#[test]
fn trailing_text_parses() {
    let doc = Document::new(&b"hello".to_vec()).expect("a trailing text run is valid");
    assert_eq!(doc.nodes.len(), 1);
    assert!(doc.nodes[0].is_text());
    let mut out = Vec::new();
    doc.write(&mut out);
    assert_eq!(out, b"<!DOCTYPE html>hello".to_vec());
}

#[test]
fn missing_closing_tag_is_fatal() {
    assert!(Document::new(&b"<div>unclosed".to_vec()).is_err());
    assert!(Document::new(&b"<a x=\"unterminated></a>".to_vec()).is_err());
}

#[test]
fn round_trip_identity() {
    let source = b"pre<a x=\"1\" y><i>deep</i>text</a>mid<b/>".to_vec();
    let doc = Document::new(&source).expect("source should parse");
    let mut first = Vec::new();
    doc.write(&mut first);
    let body: Vec<u8> = first[b"<!DOCTYPE html>".len()..].to_vec();
    let doc2 = Document::new(&body).expect("serialized form should re-parse");
    let mut second = Vec::new();
    doc2.write(&mut second);
    assert_eq!(first, second);
}

#[test]
fn comment_is_parsed_and_dropped_on_output() {
    let doc = Document::new(&b"<!-- note -->x<y/>".to_vec()).expect("document should parse");
    assert_eq!(doc.nodes.len(), 3);
    let mut out = Vec::new();
    doc.write(&mut out);
    assert_eq!(out, b"<!DOCTYPE html>x<y/>".to_vec());
}
