use markcomp::arena;
use markcomp::mdast::{document, Node};

#[test]
fn test_node() {
    let tree = document(&b"`code`".to_vec()).expect("inline code should parse");
    assert_eq!(tree.len(), 1);
    match &tree[0] {
        Node::Paragraph(children) => {
            assert_eq!(children.len(), 1);
            assert!(matches!(&children[0], Node::InlineCode(c) if c == &b"code".to_vec()));
        },
        _ => panic!("a paragraph was expected"),
    }
}

#[test]
fn test_doc() {
    let input = b"
# Hello, world!

How are `you` doing?


[Here's a link!](wikipedia.com)

<Text>
    Here's some html!
</Text>
"
    .to_vec();
    let tree = document(&input).expect("document should parse");
    assert!(matches!(&tree[0], Node::Heading(h) if h.depth == 1));
    assert!(matches!(&tree[1], Node::Paragraph(_)));
    assert!(matches!(&tree[3], Node::Html(e) if e.name == b"Text".to_vec()));
}

#[test]
fn strong_wraps_text() {
    let tree = document(&b"**bold**".to_vec()).expect("strong should parse");
    match &tree[0] {
        Node::Paragraph(children) => match &children[0] {
            Node::Strong(inner) => {
                assert!(matches!(&inner[0], Node::Text(t) if t == &b"bold".to_vec()));
            },
            _ => panic!("a strong node was expected"),
        },
        _ => panic!("a paragraph was expected"),
    }
}

#[test]
fn code_fence_with_language() {
    let tree = document(&b"~~~rs\nfn hello() {}\n~~~\n".to_vec()).expect("fence should parse");
    match &tree[0] {
        Node::Code(c) => {
            assert_eq!(c.value, b"fn hello() {}\n".to_vec());
            assert_eq!(c.lang, Some(b"rs".to_vec()));
        },
        _ => panic!("a code block was expected"),
    }
}

#[test]
fn unterminated_fence_is_fatal() {
    assert!(document(&b"~~~rs\nfn hello() {}\n".to_vec()).is_err());
}

#[test]
fn yaml_block_kept_raw() {
    let tree = document(&b"---\ntitle: x\n---\nrest".to_vec()).expect("yaml should parse");
    assert!(matches!(&tree[0], Node::Yaml(y) if y == &b"title: x\n".to_vec()));
}

#[test]
fn mdast_write_escapes_text() {
    let tree = document(&b"a < b".to_vec()).expect("paragraph should parse");
    let mut out = Vec::new();
    tree[0].write(&mut out);
    assert_eq!(out, b"<p>a &lt; b </p>".to_vec());
}

#[test]
fn arena_holds_children_below_parents() {
    let mut store = arena::NodeArena::new();
    let doc = arena::Document::parse(&b"# Hi\n\npara".to_vec(), &mut store)
        .expect("document should load");
    assert_eq!(doc.nodes.len(), 2);
    let ids = doc.nodes.ids();
    let mut out = Vec::new();
    arena::write_id(&store, ids[0], &mut out);
    arena::write_id(&store, ids[1], &mut out);
    assert_eq!(out, b"<h1> Hi </h1><p>para </p>".to_vec());
}

#[test]
fn arena_insert_reports_exhaustion() {
    let mut store = arena::NodeArena::new();
    let mut last = None;
    for _ in 0..65536 {
        last = store.insert(arena::Node::Break);
    }
    assert!(last.is_some());
    assert!(store.insert(arena::Node::Break).is_none());
}
