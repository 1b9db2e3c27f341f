//! The arena-backed markdown tree: the same node kinds as the owned tree,
//! but child lists are small-vector sequences of integer handles into one
//! flat, append-only arena. A handle is sixteen bits wide; the arena reports
//! exhaustion explicitly instead of wrapping a handle silently.
//!
//! Children are always inserted before their parent, so every handle in a
//! node's child list is smaller than the node's own index; that order is the
//! arena's well-formedness and is what makes walking it terminate. A handle
//! serializes to exactly the markup of the owned tree it resolves to, so the
//! two representations of a document render identically.

use vstd::prelude::*;

use crate::element::Element;
use crate::element::append_bytes;
use crate::mdast;
use crate::parse::ParseError;
use crate::text::html_encode;
use crate::text::push_digits_u8;

verus! {

broadcast use vstd::std_specs::vec::group_vec_axioms, vstd::seq::group_seq_axioms;

/// A handle into the arena.
#[derive(Clone, Copy, Default)]
pub struct NodeId(pub u16);

/// A child list: the same size as a boxed vector of handles, with room for
/// seven handles inline.
#[verifier::external_body]
pub struct NodeVec(tinyvec::TinyVec<[NodeId; 7]>);

/// What a child list holds, in order.
pub uninterp spec fn nv_ids(v: NodeVec) -> Seq<NodeId>;

impl NodeVec {
    /// An empty child list. Relies on TinyVec::new: a new vector is empty.
    #[verifier::external_body]
    pub fn new() -> (r: NodeVec)
        ensures
            nv_ids(r) == Seq::<NodeId>::empty(),
    {
        NodeVec(tinyvec::TinyVec::new())
    }

    /// Append a handle. Relies on TinyVec::push: appends one element at the
    /// end.
    #[verifier::external_body]
    pub fn push(&mut self, id: NodeId)
        ensures
            nv_ids(*final(self)) == nv_ids(*old(self)).push(id),
    {
        self.0.push(id)
    }

    /// How many handles the list holds. Relies on TinyVec::len.
    #[verifier::external_body]
    pub fn len(&self) -> (r: usize)
        ensures
            r == nv_ids(*self).len(),
    {
        self.0.len()
    }

    /// The handle at `i`. Relies on TinyVec's Index impl.
    #[verifier::external_body]
    pub fn get(&self, i: usize) -> (r: NodeId)
        requires
            i < nv_ids(*self).len(),
        ensures
            r == nv_ids(*self)[i as int],
    {
        self.0[i]
    }

    /// The handles as a plain vector.
    pub fn ids(&self) -> (r: Vec<NodeId>)
        ensures
            r@ == nv_ids(*self),
    {
        let n = self.len();
        let mut r: Vec<NodeId> = Vec::new();
        let mut i: usize = 0;
        while i < n
            invariant
                i <= n,
                n == nv_ids(*self).len(),
                r@ == nv_ids(*self).subrange(0, i as int),
            decreases n - i,
        {
            r.push(self.get(i));
            proof {
                assert(nv_ids(*self).subrange(0, i + 1 as int) =~= nv_ids(*self).subrange(
                    0,
                    i as int,
                ).push(nv_ids(*self)[i as int]));
            }
            i = i + 1;
        }
        proof {
            assert(nv_ids(*self).subrange(0, nv_ids(*self).len() as int) =~= nv_ids(*self));
        }
        r
    }
}

/// A footnote definition block.
pub struct FootnoteDefinition {
    pub children: NodeVec,
    pub identifier: Vec<u8>,
    pub label: Option<Vec<u8>>,
}

/// A list block.
pub struct List {
    pub children: NodeVec,
    pub start: Option<u32>,
    pub spread: bool,
}

/// A footnote reference.
pub struct FootnoteReference {
    pub identifier: Vec<u8>,
    pub label: Option<Vec<u8>>,
}

/// An image reference.
pub struct Image {
    pub alt: Vec<u8>,
    pub url: Vec<u8>,
    pub title: Option<Vec<u8>>,
}

/// A link with child content.
pub struct Link {
    pub children: NodeVec,
    pub url: Vec<u8>,
    pub title: Option<Vec<u8>>,
}

/// A fenced code block.
pub struct Code {
    pub value: Vec<u8>,
    pub lang: Option<Vec<u8>>,
    pub meta: Option<Vec<u8>>,
}

/// A display-math block.
pub struct Math {
    pub value: Vec<u8>,
    pub meta: Option<Vec<u8>>,
}

/// A heading with inline children.
pub struct Heading {
    pub children: NodeVec,
    pub depth: u8,
}

/// An arena markdown node; child lists are handles, not subtrees.
pub enum Node {
    BlockQuote(NodeVec),
    FootnoteDefinition(FootnoteDefinition),
    List(List),
    Yaml(Vec<u8>),
    Break,
    InlineCode(Vec<u8>),
    InlineMath(Vec<u8>),
    Delete(NodeVec),
    Emphasis(NodeVec),
    TextExpression(Vec<u8>),
    FootnoteReference(FootnoteReference),
    Html(Element),
    Image(Image),
    Link(Link),
    Strong(NodeVec),
    Text(Vec<u8>),
    Code(Code),
    Math(Math),
    Heading(Heading),
    ThematicBreak,
    Paragraph(NodeVec),
}

/// The flat, append-only node store.
pub struct NodeArena(pub Vec<Node>);

/// The handles of a node's child list, if it has one.
pub open spec fn node_children(n: Node) -> Option<Seq<NodeId>> {
    match n {
        Node::BlockQuote(c) => Some(nv_ids(c)),
        Node::FootnoteDefinition(f) => Some(nv_ids(f.children)),
        Node::List(l) => Some(nv_ids(l.children)),
        Node::Delete(c) => Some(nv_ids(c)),
        Node::Emphasis(c) => Some(nv_ids(c)),
        Node::Link(l) => Some(nv_ids(l.children)),
        Node::Strong(c) => Some(nv_ids(c)),
        Node::Heading(h) => Some(nv_ids(h.children)),
        Node::Paragraph(c) => Some(nv_ids(c)),
        _ => None,
    }
}

pub open spec fn ids_below(ids: Seq<NodeId>, bound: int) -> bool {
    forall|t: int| 0 <= t < ids.len() ==> (#[trigger] ids[t]).0 < bound
}

pub open spec fn node_below(n: Node, bound: int) -> bool {
    match node_children(n) {
        Some(ids) => ids_below(ids, bound),
        None => true,
    }
}

/// The arena's well-formedness: every handle in a node's child list points
/// below the node itself.
pub open spec fn arena_wf(a: Seq<Node>) -> bool {
    forall|i: int| 0 <= i < a.len() ==> node_below(#[trigger] a[i], i)
}

impl NodeArena {
    /// An empty arena.
    pub fn new() -> (r: NodeArena)
        ensures
            r.0@.len() == 0,
            arena_wf(r.0@),
    {
        NodeArena(Vec::new())
    }

    /// Append a node and hand back its handle. The handle type is sixteen
    /// bits wide, so an arena already holding that many nodes reports
    /// exhaustion instead of wrapping.
    pub fn insert(&mut self, node: Node) -> (r: Option<NodeId>)
        ensures
            match r {
                Some(id) => final(self).0@ == old(self).0@.push(node) && id.0 as int == old(
                    self,
                ).0@.len() && final(self).0@.len() <= 65536,
                None => old(self).0@.len() >= 65536 && *final(self) == *old(self),
            },
    {
        if self.0.len() < 65536 {
            let id = NodeId(self.0.len() as u16);
            self.0.push(node);
            Some(id)
        } else {
            None
        }
    }

    /// The node a handle points at.
    pub fn index(&self, id: NodeId) -> (r: &Node)
        requires
            (id.0 as int) < self.0@.len(),
        ensures
            *r == self.0@[id.0 as int],
    {
        &self.0[id.0 as usize]
    }
}

/// The owned tree a handle resolves to: the arena node with every child
/// list replaced by the trees its handles resolve to. Well-formedness makes
/// this walk terminate.
pub open spec fn resolve(a: Seq<Node>, id: int) -> mdast::NodeV
    decreases id, 2int, 0int,
{
    if 0 <= id < a.len() {
        resolve_node(a, a[id], id)
    } else {
        mdast::NodeV::ThematicBreak
    }
}

pub open spec fn resolve_node(a: Seq<Node>, n: Node, bound: int) -> mdast::NodeV
    decreases bound, 1int, 0int,
{
    match n {
        Node::BlockQuote(c) => mdast::NodeV::BlockQuote(resolve_ids(a, nv_ids(c), 0, bound)),
        Node::FootnoteDefinition(f) => mdast::NodeV::FootnoteDefinition(
            resolve_ids(a, nv_ids(f.children), 0, bound),
            f.identifier@,
            mdast::opt_view(f.label),
        ),
        Node::List(l) => mdast::NodeV::List(
            resolve_ids(a, nv_ids(l.children), 0, bound),
            l.start,
            l.spread,
        ),
        Node::Yaml(y) => mdast::NodeV::Yaml(y@),
        Node::Break => mdast::NodeV::Break,
        Node::InlineCode(c) => mdast::NodeV::InlineCode(c@),
        Node::InlineMath(m) => mdast::NodeV::InlineMath(m@),
        Node::Delete(c) => mdast::NodeV::Delete(resolve_ids(a, nv_ids(c), 0, bound)),
        Node::Emphasis(c) => mdast::NodeV::Emphasis(resolve_ids(a, nv_ids(c), 0, bound)),
        Node::TextExpression(t) => mdast::NodeV::TextExpression(t@),
        Node::FootnoteReference(f) => mdast::NodeV::FootnoteReference(
            f.identifier@,
            mdast::opt_view(f.label),
        ),
        Node::Html(e) => mdast::NodeV::Html(crate::element::elem_view(e)),
        Node::Image(i) => mdast::NodeV::Image(i.alt@, i.url@, mdast::opt_view(i.title)),
        Node::Link(l) => mdast::NodeV::Link(
            resolve_ids(a, nv_ids(l.children), 0, bound),
            l.url@,
            mdast::opt_view(l.title),
        ),
        Node::Strong(c) => mdast::NodeV::Strong(resolve_ids(a, nv_ids(c), 0, bound)),
        Node::Text(t) => mdast::NodeV::Text(t@),
        Node::Code(c) => mdast::NodeV::Code(c.value@, mdast::opt_view(c.lang), mdast::opt_view(c.meta)),
        Node::Math(m) => mdast::NodeV::Math(m.value@, mdast::opt_view(m.meta)),
        Node::Heading(h) => mdast::NodeV::Heading(
            resolve_ids(a, nv_ids(h.children), 0, bound),
            h.depth,
        ),
        Node::ThematicBreak => mdast::NodeV::ThematicBreak,
        Node::Paragraph(c) => mdast::NodeV::Paragraph(resolve_ids(a, nv_ids(c), 0, bound)),
    }
}

pub open spec fn resolve_ids(a: Seq<Node>, ids: Seq<NodeId>, j: int, bound: int) -> Seq<
    mdast::NodeV,
>
    decreases bound, 0int, ids.len() - j,
{
    if j < 0 || j >= ids.len() {
        Seq::empty()
    } else if ids[j].0 >= bound {
        Seq::empty()
    } else {
        seq![resolve(a, ids[j].0 as int)] + resolve_ids(a, ids, j + 1, bound)
    }
}

/// Resolution looks only at the arena below the bound, so appending nodes
/// never changes what an existing handle resolves to.
pub proof fn lemma_resolve_stable(a: Seq<Node>, b: Seq<Node>, id: int)
    requires
        a.len() <= b.len(),
        b.subrange(0, a.len() as int) == a,
        id < a.len(),
    ensures
        resolve(b, id) == resolve(a, id),
    decreases id, 2int, 0int,
{
    if 0 <= id {
        assert(b[id] == a[id]);
        lemma_resolve_node_stable(a, b, a[id], id);
    }
}

pub proof fn lemma_resolve_node_stable(a: Seq<Node>, b: Seq<Node>, n: Node, bound: int)
    requires
        a.len() <= b.len(),
        b.subrange(0, a.len() as int) == a,
        bound <= a.len(),
    ensures
        resolve_node(b, n, bound) == resolve_node(a, n, bound),
    decreases bound, 1int, 0int,
{
    match node_children(n) {
        Some(ids) => {
            lemma_resolve_ids_stable(a, b, ids, 0, bound);
        },
        None => {},
    }
}

pub proof fn lemma_resolve_ids_stable(a: Seq<Node>, b: Seq<Node>, ids: Seq<NodeId>, j: int, bound: int)
    requires
        a.len() <= b.len(),
        b.subrange(0, a.len() as int) == a,
        bound <= a.len(),
    ensures
        resolve_ids(b, ids, j, bound) == resolve_ids(a, ids, j, bound),
    decreases bound, 0int, ids.len() - j,
{
    if 0 <= j < ids.len() && ids[j].0 < bound {
        lemma_resolve_stable(a, b, ids[j].0 as int);
        lemma_resolve_ids_stable(a, b, ids, j + 1, bound);
    }
}

/// A handle resolves the same under any bound above it.
pub proof fn lemma_resolve_ids_bound(a: Seq<Node>, ids: Seq<NodeId>, j: int, b1: int, b2: int)
    requires
        ids_below(ids, b1),
        b1 <= b2,
    ensures
        resolve_ids(a, ids, j, b2) == resolve_ids(a, ids, j, b1),
    decreases ids.len() - j,
{
    if 0 <= j < ids.len() {
        lemma_resolve_ids_bound(a, ids, j + 1, b1, b2);
    }
}

/// An arena document: the handles of the top-level nodes in order.
pub struct Document {
    pub nodes: NodeVec,
}

impl Document {
    /// Parse a markdown document into `arena`: the tree is built bottom-up,
    /// children before parents, so the arena stays well formed. Nodes already
    /// in the arena are never modified. The parse fails exactly when the
    /// input does not parse or its tree does not fit the sixteen-bit handle
    /// space left in the arena; exhaustion is reported rather than wrapped.
    pub fn parse(input: &Vec<u8>, arena: &mut NodeArena) -> (r: Result<Document, ParseError>)
        requires
            arena_wf(old(arena).0@),
            old(arena).0@.len() <= 65536,
        ensures
            arena_wf(final(arena).0@),
            final(arena).0@.len() <= 65536,
            old(arena).0@.len() <= final(arena).0@.len(),
            final(arena).0@.subrange(0, old(arena).0@.len() as int) == old(arena).0@,
            match mdast::sp_md_document(input@) {
                Some(ns) => r is Err <==> old(arena).0@.len() + mdast::nodes_count(ns, 0) > 65536,
                None => r is Err,
            },
            match r {
                Ok(d) => {
                    &&& mdast::sp_md_document(input@) matches Some(ns)
                    &&& ids_below(nv_ids(d.nodes), final(arena).0@.len() as int)
                    &&& resolve_ids(
                        final(arena).0@,
                        nv_ids(d.nodes),
                        0,
                        final(arena).0@.len() as int,
                    ) == ns
                },
                Err(e) => e.offset <= input@.len(),
            },
    {
        let tree = match mdast::document(input) {
            Ok(t) => t,
            Err(e) => {
                proof {
                    assert(arena.0@.subrange(0, arena.0@.len() as int) =~= arena.0@);
                }
                return Err(e);
            },
        };
        match load_nodes(arena, &tree) {
            Some(nodes) => Ok(Document { nodes }),
            None => Err(
                ParseError { offset: 0, expected: String::from_str("room in the arena") },
            ),
        }
    }
}

/// Copy one owned node into the arena, children first.
fn load_node(arena: &mut NodeArena, n: &mdast::Node) -> (r: Option<NodeId>)
    requires
        arena_wf(old(arena).0@),
        old(arena).0@.len() <= 65536,
    ensures
        arena_wf(final(arena).0@),
        final(arena).0@.len() <= 65536,
        old(arena).0@.len() <= final(arena).0@.len(),
        final(arena).0@.subrange(0, old(arena).0@.len() as int) == old(arena).0@,
        match r {
            Some(id) => (id.0 as int) < final(arena).0@.len() && final(arena).0@.len()
                == old(arena).0@.len() + mdast::node_count(mdast::node_view(*n))
                && final(arena).0@.len() <= 65536 && resolve(
                final(arena).0@,
                id.0 as int,
            ) == mdast::node_view(*n),
            None => old(arena).0@.len() + mdast::node_count(mdast::node_view(*n)) > 65536,
        },
    decreases n, 1int,
{
    match n {
        mdast::Node::Text(t) => store(arena, Node::Text(crate::element::clone_bytes(t))),
        mdast::Node::Yaml(y) => store(arena, Node::Yaml(crate::element::clone_bytes(y))),
        mdast::Node::Break => store(arena, Node::Break),
        mdast::Node::ThematicBreak => store(arena, Node::ThematicBreak),
        mdast::Node::InlineCode(c) => store(
            arena,
            Node::InlineCode(crate::element::clone_bytes(c)),
        ),
        mdast::Node::InlineMath(m) => store(
            arena,
            Node::InlineMath(crate::element::clone_bytes(m)),
        ),
        mdast::Node::TextExpression(t) => store(
            arena,
            Node::TextExpression(crate::element::clone_bytes(t)),
        ),
        mdast::Node::FootnoteReference(f) => store(
            arena,
            Node::FootnoteReference(
                FootnoteReference {
                    identifier: crate::element::clone_bytes(&f.identifier),
                    label: clone_opt(&f.label),
                },
            ),
        ),
        mdast::Node::Image(i) => store(
            arena,
            Node::Image(
                Image {
                    alt: crate::element::clone_bytes(&i.alt),
                    url: crate::element::clone_bytes(&i.url),
                    title: clone_opt(&i.title),
                },
            ),
        ),
        mdast::Node::Code(c) => store(
            arena,
            Node::Code(
                Code {
                    value: crate::element::clone_bytes(&c.value),
                    lang: clone_opt(&c.lang),
                    meta: clone_opt(&c.meta),
                },
            ),
        ),
        mdast::Node::Math(m) => store(
            arena,
            Node::Math(Math { value: crate::element::clone_bytes(&m.value), meta: clone_opt(&m.meta) }),
        ),
        mdast::Node::Html(e) => {
            let copy = clone_element(e);
            store(arena, Node::Html(copy))
        },
        mdast::Node::BlockQuote(c) => {
            let ids = load_nodes(arena, c)?;
            store(arena, Node::BlockQuote(ids))
        },
        mdast::Node::Delete(c) => {
            let ids = load_nodes(arena, c)?;
            store(arena, Node::Delete(ids))
        },
        mdast::Node::Emphasis(c) => {
            let ids = load_nodes(arena, c)?;
            store(arena, Node::Emphasis(ids))
        },
        mdast::Node::Strong(c) => {
            let ids = load_nodes(arena, c)?;
            store(arena, Node::Strong(ids))
        },
        mdast::Node::Paragraph(c) => {
            let ids = load_nodes(arena, c)?;
            store(arena, Node::Paragraph(ids))
        },
        mdast::Node::Link(l) => {
            let ids = load_nodes(arena, &l.children)?;
            store(
                arena,
                Node::Link(
                    Link {
                        children: ids,
                        url: crate::element::clone_bytes(&l.url),
                        title: clone_opt(&l.title),
                    },
                ),
            )
        },
        mdast::Node::Heading(h) => {
            let ids = load_nodes(arena, &h.children)?;
            store(arena, Node::Heading(Heading { children: ids, depth: h.depth }))
        },
        mdast::Node::FootnoteDefinition(f) => {
            let ids = load_nodes(arena, &f.children)?;
            store(
                arena,
                Node::FootnoteDefinition(
                    FootnoteDefinition {
                        children: ids,
                        identifier: crate::element::clone_bytes(&f.identifier),
                        label: clone_opt(&f.label),
                    },
                ),
            )
        },
        mdast::Node::List(l) => {
            let ids = load_nodes(arena, &l.children)?;
            store(arena, Node::List(List { children: ids, start: l.start, spread: l.spread }))
        },
    }
}

fn clone_opt(o: &Option<Vec<u8>>) -> (r: Option<Vec<u8>>)
    ensures
        mdast::opt_view(r) == mdast::opt_view(*o),
{
    match o {
        Some(v) => Some(crate::element::clone_bytes(v)),
        None => None,
    }
}

fn clone_element(e: &Element) -> (r: Element)
    ensures
        crate::element::elem_view(r) == crate::element::elem_view(*e),
{
    match crate::expand::clone_markup_node(e) {
        r => r,
    }
}

/// Append a fully built node whose children are already stored.
fn store(arena: &mut NodeArena, node: Node) -> (r: Option<NodeId>)
    requires
        arena_wf(old(arena).0@),
        old(arena).0@.len() <= 65536,
        node_below(node, old(arena).0@.len() as int),
    ensures
        arena_wf(final(arena).0@),
        final(arena).0@.len() <= 65536,
        old(arena).0@.len() <= final(arena).0@.len(),
        final(arena).0@.subrange(0, old(arena).0@.len() as int) == old(arena).0@,
        match r {
            Some(id) => (id.0 as int) < final(arena).0@.len() && final(arena).0@.len()
                == old(arena).0@.len() + 1 && final(arena).0@.len() <= 65536 && resolve(
                final(arena).0@,
                id.0 as int,
            ) == resolve_node(old(arena).0@, node, old(arena).0@.len() as int),
            None => old(arena).0@.len() + 1 > 65536,
        },
{
    let ghost a0 = arena.0@;
    let ghost nd = node;
    let r = arena.insert(node);
    proof {
        match r {
            Some(id) => {
                assert(arena.0@.subrange(0, a0.len() as int) =~= a0);
                assert forall|i: int| 0 <= i < arena.0@.len() implies node_below(
                    #[trigger] arena.0@[i],
                    i,
                ) by {
                    if i < a0.len() {
                        assert(arena.0@[i] == a0[i]);
                    } else {
                        assert(arena.0@[i] == nd);
                    }
                }
                lemma_resolve_node_stable(a0, arena.0@, nd, a0.len() as int);
                match node_children(nd) {
                    Some(ids) => {
                        lemma_resolve_ids_bound(arena.0@, ids, 0, a0.len() as int, id.0 as int + 1);
                        assert(resolve(arena.0@, id.0 as int) == resolve_node(
                            arena.0@,
                            nd,
                            id.0 as int,
                        ));
                        lemma_resolve_node_same_bound(arena.0@, nd, id.0 as int, a0.len() as int);
                    },
                    None => {
                        lemma_resolve_node_same_bound(arena.0@, nd, id.0 as int, a0.len() as int);
                    },
                }
            },
            None => {
                assert(arena.0@.subrange(0, a0.len() as int) =~= a0);
            },
        }
    }
    r
}

/// Resolution of a node does not depend on the bound, as long as the bound
/// covers the node's children.
pub proof fn lemma_resolve_node_same_bound(a: Seq<Node>, n: Node, b2: int, b1: int)
    requires
        node_below(n, b1),
        b1 <= b2,
    ensures
        resolve_node(a, n, b2) == resolve_node(a, n, b1),
{
    match node_children(n) {
        Some(ids) => {
            lemma_resolve_ids_bound(a, ids, 0, b1, b2);
        },
        None => {},
    }
}

/// Copy a sibling list into the arena, in order.
fn load_nodes(arena: &mut NodeArena, ns: &Vec<mdast::Node>) -> (r: Option<NodeVec>)
    requires
        arena_wf(old(arena).0@),
        old(arena).0@.len() <= 65536,
    ensures
        arena_wf(final(arena).0@),
        final(arena).0@.len() <= 65536,
        old(arena).0@.len() <= final(arena).0@.len(),
        final(arena).0@.subrange(0, old(arena).0@.len() as int) == old(arena).0@,
        match r {
            Some(ids) => ids_below(nv_ids(ids), final(arena).0@.len() as int)
                && final(arena).0@.len() == old(arena).0@.len() + mdast::nodes_count(
                mdast::nodes_view(ns@),
                0,
            ) && resolve_ids(
                final(arena).0@,
                nv_ids(ids),
                0,
                final(arena).0@.len() as int,
            ) == mdast::nodes_view(ns@),
            None => old(arena).0@.len() + mdast::nodes_count(mdast::nodes_view(ns@), 0) > 65536,
        },
    decreases ns, 0int,
{
    let mut out = NodeVec::new();
    let mut i: usize = 0;
    proof {
        mdast::lemma_nodes_view_len(ns@);
    }
    while i < ns.len()
        invariant
            i <= ns@.len(),
            mdast::nodes_view(ns@).len() == ns@.len(),
            arena_wf(arena.0@),
            arena.0@.len() <= 65536,
            old(arena).0@.len() <= arena.0@.len(),
            arena.0@.subrange(0, old(arena).0@.len() as int) == old(arena).0@,
            nv_ids(out).len() == i,
            arena.0@.len() + mdast::nodes_count(mdast::nodes_view(ns@), i as int) == old(
                arena,
            ).0@.len() + mdast::nodes_count(mdast::nodes_view(ns@), 0),
            ids_below(nv_ids(out), arena.0@.len() as int),
            resolve_ids(arena.0@, nv_ids(out), 0, arena.0@.len() as int) == mdast::nodes_view(
                ns@,
            ).subrange(0, i as int),
        decreases ns@.len() - i,
    {
        let ghost a1 = arena.0@;
        let ghost out1 = nv_ids(out);
        proof {
            mdast::lemma_nodes_view_index(ns@, i as int);
        }
        let id = match load_node(arena, &ns[i]) {
            Some(id) => id,
            None => {
                proof {
                    assert(mdast::nodes_count(mdast::nodes_view(ns@), i as int)
                        == mdast::node_count(mdast::nodes_view(ns@)[i as int])
                        + mdast::nodes_count(mdast::nodes_view(ns@), i + 1 as int));
                }
                return None;
            },
        };
        out.push(id);
        proof {
            mdast::lemma_nodes_view_index(ns@, i as int);
            assert(a1.subrange(0, old(arena).0@.len() as int) == old(arena).0@);
            assert(arena.0@.subrange(0, old(arena).0@.len() as int) =~= old(arena).0@) by {
                assert(arena.0@.subrange(0, a1.len() as int) == a1);
                assert forall|t: int| 0 <= t < old(arena).0@.len() implies arena.0@.subrange(
                    0,
                    old(arena).0@.len() as int,
                )[t] == old(arena).0@[t] by {
                    assert(arena.0@[t] == arena.0@.subrange(0, a1.len() as int)[t]);
                    assert(a1[t] == a1.subrange(0, old(arena).0@.len() as int)[t]);
                }
            }
            assert(ids_below(nv_ids(out), arena.0@.len() as int)) by {
                assert forall|t: int| 0 <= t < nv_ids(out).len() implies (#[trigger] nv_ids(
                    out,
                )[t]).0 < arena.0@.len() by {
                    if t < out1.len() {
                        assert(nv_ids(out)[t] == out1[t]);
                    }
                }
            }
            lemma_resolve_prefix_stable(a1, arena.0@, out1, 0, a1.len() as int);
            lemma_resolve_ids_snoc(arena.0@, out1, id, arena.0@.len() as int);
            assert(resolve_ids(arena.0@, nv_ids(out), 0, arena.0@.len() as int) =~= mdast::nodes_view(
                ns@,
            ).subrange(0, i + 1 as int)) by {
                lemma_resolve_ids_bound(arena.0@, out1, 0, a1.len() as int, arena.0@.len() as int);
                assert(mdast::nodes_view(ns@).subrange(0, i + 1 as int) =~= mdast::nodes_view(
                    ns@,
                ).subrange(0, i as int).push(mdast::nodes_view(ns@)[i as int]));
            }
        }
        i = i + 1;
    }
    proof {
        assert(mdast::nodes_view(ns@).subrange(0, ns@.len() as int) =~= mdast::nodes_view(ns@));
    }
    Some(out)
}

/// Appending one handle at the end of a list extends its resolution by the
/// tree that handle resolves to.
pub proof fn lemma_resolve_ids_snoc(a: Seq<Node>, ids: Seq<NodeId>, id: NodeId, bound: int)
    requires
        ids_below(ids, bound),
        id.0 < bound,
    ensures
        resolve_ids(a, ids.push(id), 0, bound) == resolve_ids(a, ids, 0, bound).push(
            resolve(a, id.0 as int),
        ),
    decreases ids.len(),
{
    lemma_resolve_ids_snoc_from(a, ids, id, 0, bound);
}

pub proof fn lemma_resolve_ids_snoc_from(a: Seq<Node>, ids: Seq<NodeId>, id: NodeId, j: int, bound: int)
    requires
        ids_below(ids, bound),
        id.0 < bound,
        0 <= j <= ids.len(),
    ensures
        resolve_ids(a, ids.push(id), j, bound) == resolve_ids(a, ids, j, bound).push(
            resolve(a, id.0 as int),
        ),
    decreases ids.len() - j,
{
    if j < ids.len() {
        assert(ids.push(id)[j] == ids[j]);
        lemma_resolve_ids_snoc_from(a, ids, id, j + 1, bound);
        assert(resolve_ids(a, ids.push(id), j, bound) =~= resolve_ids(a, ids, j, bound).push(
            resolve(a, id.0 as int),
        ));
    } else {
        assert(ids.push(id)[j] == id);
        assert(resolve_ids(a, ids.push(id), j + 1, bound) =~= Seq::<mdast::NodeV>::empty());
        assert(resolve_ids(a, ids.push(id), j, bound) =~= resolve_ids(a, ids, j, bound).push(
            resolve(a, id.0 as int),
        ));
    }
}

/// Resolution of a list of settled handles is unchanged by appended nodes.
pub proof fn lemma_resolve_prefix_stable(a: Seq<Node>, b: Seq<Node>, ids: Seq<NodeId>, j: int, bound: int)
    requires
        a.len() <= b.len(),
        b.subrange(0, a.len() as int) == a,
        bound <= a.len(),
    ensures
        resolve_ids(b, ids, j, bound) == resolve_ids(a, ids, j, bound),
{
    lemma_resolve_ids_stable(a, b, ids, j, bound);
}

// --- Serialization ------------------------------------------------------------------

/// Append the rendering of the handle `id` to `out`: exactly the markup the
/// owned tree that `id` resolves to renders to, so the two representations
/// of a document serialize identically.
#[verifier::rlimit(100)]
pub fn write_id(arena: &NodeArena, id: NodeId, out: &mut Vec<u8>)
    requires
        arena_wf(arena.0@),
        (id.0 as int) < arena.0@.len(),
        mdast::writable(resolve(arena.0@, id.0 as int)),
    ensures
        final(out)@ == old(out)@ + mdast::md_ser(resolve(arena.0@, id.0 as int)),
    decreases id.0 as int, 1int,
{
    let ghost a = arena.0@;
    let ghost rv = resolve(a, id.0 as int);
    let n = arena.index(id);
    proof {
        assert(node_below(a[id.0 as int], id.0 as int));
        assert(rv == resolve_node(a, *n, id.0 as int));
    }
    match n {
        Node::BlockQuote(c) => {
            let o = mdast::mlit_bq_open_x();
            append_bytes(out, &o);
            write_ids(arena, c, Ghost(id.0 as int), out);
            let e = mdast::mlit_bq_close_x();
            append_bytes(out, &e);
            proof {
                assert(out@ =~= old(out)@ + mdast::md_ser(rv));
            }
        },
        Node::Yaml(_) => {
            proof {
                assert(out@ =~= old(out)@ + mdast::md_ser(rv));
            }
        },
        Node::Break => {
            let o = mdast::mlit_br_x();
            append_bytes(out, &o);
            proof {
                assert(out@ =~= old(out)@ + mdast::md_ser(rv));
            }
        },
        Node::InlineCode(c) => {
            let o = mdast::mlit_code_open_x();
            append_bytes(out, &o);
            html_encode(c, out);
            let e = mdast::mlit_code_close_x();
            append_bytes(out, &e);
            proof {
                assert(out@ =~= old(out)@ + mdast::md_ser(rv));
            }
        },
        Node::Math(m) => {
            let o = mdast::mlit_bq_open_x();
            append_bytes(out, &o);
            html_encode(&m.value, out);
            let e = mdast::mlit_bq_close_x();
            append_bytes(out, &e);
            proof {
                assert(out@ =~= old(out)@ + mdast::md_ser(rv));
            }
        },
        Node::InlineMath(m) => {
            let o = mdast::mlit_code_open_x();
            append_bytes(out, &o);
            html_encode(m, out);
            let e = mdast::mlit_code_close_x();
            append_bytes(out, &e);
            proof {
                assert(out@ =~= old(out)@ + mdast::md_ser(rv));
            }
        },
        Node::Delete(c) => {
            let o = mdast::mlit_del_close_x();
            append_bytes(out, &o);
            write_ids(arena, c, Ghost(id.0 as int), out);
            let e = mdast::mlit_del_close_x();
            append_bytes(out, &e);
            proof {
                assert(out@ =~= old(out)@ + mdast::md_ser(rv));
            }
        },
        Node::Emphasis(c) => {
            let o = mdast::mlit_em_open_x();
            append_bytes(out, &o);
            write_ids(arena, c, Ghost(id.0 as int), out);
            let e = mdast::mlit_em_close_x();
            append_bytes(out, &e);
            proof {
                assert(out@ =~= old(out)@ + mdast::md_ser(rv));
            }
        },
        Node::TextExpression(_) => {
            proof {
                assert(out@ =~= old(out)@ + mdast::md_ser(rv));
            }
        },
        Node::Html(e) => {
            e.write(out);
            proof {
                assert(out@ =~= old(out)@ + mdast::md_ser(rv));
            }
        },
        Node::Image(im) => {
            let o = mdast::mlit_img_open_x();
            append_bytes(out, &o);
            append_bytes(out, &im.url);
            let m1 = mdast::mlit_img_mid_x();
            append_bytes(out, &m1);
            append_bytes(out, &im.alt);
            let e = mdast::mlit_img_end_x();
            append_bytes(out, &e);
            proof {
                assert(out@ =~= old(out)@ + mdast::md_ser(rv));
            }
        },
        Node::Link(l) => {
            let o = mdast::mlit_a_open_x();
            append_bytes(out, &o);
            append_bytes(out, &l.url);
            let m1 = mdast::mlit_quot_gt_x();
            append_bytes(out, &m1);
            write_ids(arena, &l.children, Ghost(id.0 as int), out);
            let e = mdast::mlit_a_close_x();
            append_bytes(out, &e);
            proof {
                assert(out@ =~= old(out)@ + mdast::md_ser(rv));
            }
        },
        Node::Strong(c) => {
            let o = mdast::mlit_strong_open_x();
            append_bytes(out, &o);
            write_ids(arena, c, Ghost(id.0 as int), out);
            let e = mdast::mlit_strong_close_x();
            append_bytes(out, &e);
            proof {
                assert(out@ =~= old(out)@ + mdast::md_ser(rv));
            }
        },
        Node::Text(t) => {
            html_encode(t, out);
            out.push(32);
            proof {
                assert(out@ =~= old(out)@ + mdast::md_ser(rv));
            }
        },
        Node::Code(c) => {
            let hl = match &c.lang {
                Some(l) => crate::visitor::highlight(&c.value, l),
                None => None,
            };
            match hl {
                Some(h) => {
                    let o = mdast::mlit_div_open_x();
                    append_bytes(out, &o);
                    append_bytes(out, &h);
                    let e = mdast::mlit_div_close_x();
                    append_bytes(out, &e);
                },
                None => {
                    let o = mdast::mlit_bq_open_x();
                    append_bytes(out, &o);
                    append_bytes(out, &c.value);
                    let e = mdast::mlit_bq_close_x();
                    append_bytes(out, &e);
                },
            }
            proof {
                assert(out@ =~= old(out)@ + mdast::md_ser(rv));
            }
        },
        Node::Heading(h) => {
            let o = mdast::mlit_h_open_x();
            append_bytes(out, &o);
            push_digits_u8(h.depth, out);
            out.push(62);
            write_ids(arena, &h.children, Ghost(id.0 as int), out);
            let e = mdast::mlit_h_close_x();
            append_bytes(out, &e);
            push_digits_u8(h.depth, out);
            out.push(62);
            proof {
                assert(out@ =~= old(out)@ + mdast::md_ser(rv));
            }
        },
        Node::Paragraph(c) => {
            let o = mdast::mlit_p_open_x();
            append_bytes(out, &o);
            write_ids(arena, c, Ghost(id.0 as int), out);
            let e = mdast::mlit_p_close_x();
            append_bytes(out, &e);
            proof {
                assert(out@ =~= old(out)@ + mdast::md_ser(rv));
            }
        },
        Node::FootnoteDefinition(_) => {
            proof {
                assert(false);
            }
        },
        Node::FootnoteReference(_) => {
            proof {
                assert(false);
            }
        },
        Node::List(_) => {
            proof {
                assert(false);
            }
        },
        Node::ThematicBreak => {
            proof {
                assert(false);
            }
        },
    }
}

/// Append the renderings of a child list to `out`; `bound` is the index of
/// the node the list belongs to.
fn write_ids(arena: &NodeArena, ids: &NodeVec, bound: Ghost<int>, out: &mut Vec<u8>)
    requires
        arena_wf(arena.0@),
        bound@ <= arena.0@.len(),
        ids_below(nv_ids(*ids), bound@),
        mdast::writable_nodes(resolve_ids(arena.0@, nv_ids(*ids), 0, bound@)),
    ensures
        final(out)@ == old(out)@ + mdast::md_ser_nodes(
            resolve_ids(arena.0@, nv_ids(*ids), 0, bound@),
        ),
    decreases bound@, 0int,
{
    let ghost a = arena.0@;
    let ghost idv = nv_ids(*ids);
    let n = ids.len();
    let mut j: usize = 0;
    while j < n
        invariant
            j <= n,
            n == idv.len(),
            idv == nv_ids(*ids),
            arena_wf(a),
            a == arena.0@,
            bound@ <= a.len(),
            ids_below(idv, bound@),
            mdast::writable_nodes(resolve_ids(a, idv, j as int, bound@)),
            old(out)@ + mdast::md_ser_nodes(resolve_ids(a, idv, 0, bound@)) == out@
                + mdast::md_ser_nodes(resolve_ids(a, idv, j as int, bound@)),
        decreases n - j,
    {
        let id = ids.get(j);
        proof {
            assert(idv[j as int].0 < bound@);
            assert(resolve_ids(a, idv, j as int, bound@) == seq![
                resolve(a, idv[j as int].0 as int),
            ] + resolve_ids(a, idv, j + 1 as int, bound@));
            mdast::lemma_md_ser_nodes_cons(
                resolve(a, idv[j as int].0 as int),
                resolve_ids(a, idv, j + 1 as int, bound@),
            );
        }
        write_id(arena, id, out);
        proof {
            assert(old(out)@ + mdast::md_ser_nodes(resolve_ids(a, idv, 0, bound@)) =~= out@
                + mdast::md_ser_nodes(resolve_ids(a, idv, j + 1 as int, bound@)));
        }
        j = j + 1;
    }
    proof {
        assert(resolve_ids(a, idv, n as int, bound@) =~= Seq::<mdast::NodeV>::empty());
        assert(mdast::md_ser_nodes(Seq::<mdast::NodeV>::empty()) =~= Seq::<u8>::empty());
        assert(out@ =~= old(out)@ + mdast::md_ser_nodes(resolve_ids(a, idv, 0, bound@)));
    }
}

impl Node {
    /// Append this node's rendering to `out`, resolving its children in
    /// `arena`: exactly the markup of the owned tree it resolves to.
    #[verifier::rlimit(100)]
    pub fn write(&self, arena: &NodeArena, out: &mut Vec<u8>)
        requires
            arena_wf(arena.0@),
            node_below(*self, arena.0@.len() as int),
            mdast::writable(resolve_node(arena.0@, *self, arena.0@.len() as int)),
        ensures
            final(out)@ == old(out)@ + mdast::md_ser(
                resolve_node(arena.0@, *self, arena.0@.len() as int),
            ),
    {
        let ghost a = arena.0@;
        let ghost bound = a.len() as int;
        let ghost rv = resolve_node(a, *self, bound);
        match self {
            Node::BlockQuote(c) => {
                let o = mdast::mlit_bq_open_x();
                append_bytes(out, &o);
                write_ids(arena, c, Ghost(bound), out);
                let e = mdast::mlit_bq_close_x();
                append_bytes(out, &e);
                proof {
                    assert(out@ =~= old(out)@ + mdast::md_ser(rv));
                }
            },
            Node::Delete(c) => {
                let o = mdast::mlit_del_close_x();
                append_bytes(out, &o);
                write_ids(arena, c, Ghost(bound), out);
                let e = mdast::mlit_del_close_x();
                append_bytes(out, &e);
                proof {
                    assert(out@ =~= old(out)@ + mdast::md_ser(rv));
                }
            },
            Node::Emphasis(c) => {
                let o = mdast::mlit_em_open_x();
                append_bytes(out, &o);
                write_ids(arena, c, Ghost(bound), out);
                let e = mdast::mlit_em_close_x();
                append_bytes(out, &e);
                proof {
                    assert(out@ =~= old(out)@ + mdast::md_ser(rv));
                }
            },
            Node::Strong(c) => {
                let o = mdast::mlit_strong_open_x();
                append_bytes(out, &o);
                write_ids(arena, c, Ghost(bound), out);
                let e = mdast::mlit_strong_close_x();
                append_bytes(out, &e);
                proof {
                    assert(out@ =~= old(out)@ + mdast::md_ser(rv));
                }
            },
            Node::Paragraph(c) => {
                let o = mdast::mlit_p_open_x();
                append_bytes(out, &o);
                write_ids(arena, c, Ghost(bound), out);
                let e = mdast::mlit_p_close_x();
                append_bytes(out, &e);
                proof {
                    assert(out@ =~= old(out)@ + mdast::md_ser(rv));
                }
            },
            Node::Link(l) => {
                let o = mdast::mlit_a_open_x();
                append_bytes(out, &o);
                append_bytes(out, &l.url);
                let m1 = mdast::mlit_quot_gt_x();
                append_bytes(out, &m1);
                write_ids(arena, &l.children, Ghost(bound), out);
                let e = mdast::mlit_a_close_x();
                append_bytes(out, &e);
                proof {
                    assert(out@ =~= old(out)@ + mdast::md_ser(rv));
                }
            },
            Node::Heading(h) => {
                let o = mdast::mlit_h_open_x();
                append_bytes(out, &o);
                push_digits_u8(h.depth, out);
                out.push(62);
                write_ids(arena, &h.children, Ghost(bound), out);
                let e = mdast::mlit_h_close_x();
                append_bytes(out, &e);
                push_digits_u8(h.depth, out);
                out.push(62);
                proof {
                    assert(out@ =~= old(out)@ + mdast::md_ser(rv));
                }
            },
            Node::Yaml(_) => {
                proof {
                    assert(out@ =~= old(out)@ + mdast::md_ser(rv));
                }
            },
            Node::TextExpression(_) => {
                proof {
                    assert(out@ =~= old(out)@ + mdast::md_ser(rv));
                }
            },
            Node::Break => {
                let o = mdast::mlit_br_x();
                append_bytes(out, &o);
                proof {
                    assert(out@ =~= old(out)@ + mdast::md_ser(rv));
                }
            },
            Node::InlineCode(c) => {
                let o = mdast::mlit_code_open_x();
                append_bytes(out, &o);
                html_encode(c, out);
                let e = mdast::mlit_code_close_x();
                append_bytes(out, &e);
                proof {
                    assert(out@ =~= old(out)@ + mdast::md_ser(rv));
                }
            },
            Node::InlineMath(m) => {
                let o = mdast::mlit_code_open_x();
                append_bytes(out, &o);
                html_encode(m, out);
                let e = mdast::mlit_code_close_x();
                append_bytes(out, &e);
                proof {
                    assert(out@ =~= old(out)@ + mdast::md_ser(rv));
                }
            },
            Node::Math(m) => {
                let o = mdast::mlit_bq_open_x();
                append_bytes(out, &o);
                html_encode(&m.value, out);
                let e = mdast::mlit_bq_close_x();
                append_bytes(out, &e);
                proof {
                    assert(out@ =~= old(out)@ + mdast::md_ser(rv));
                }
            },
            Node::Html(e) => {
                e.write(out);
                proof {
                    assert(out@ =~= old(out)@ + mdast::md_ser(rv));
                }
            },
            Node::Image(im) => {
                let o = mdast::mlit_img_open_x();
                append_bytes(out, &o);
                append_bytes(out, &im.url);
                let m1 = mdast::mlit_img_mid_x();
                append_bytes(out, &m1);
                append_bytes(out, &im.alt);
                let e = mdast::mlit_img_end_x();
                append_bytes(out, &e);
                proof {
                    assert(out@ =~= old(out)@ + mdast::md_ser(rv));
                }
            },
            Node::Text(t) => {
                html_encode(t, out);
                out.push(32);
                proof {
                    assert(out@ =~= old(out)@ + mdast::md_ser(rv));
                }
            },
            Node::Code(c) => {
                let hl = match &c.lang {
                    Some(l) => crate::visitor::highlight(&c.value, l),
                    None => None,
                };
                match hl {
                    Some(h) => {
                        let o = mdast::mlit_div_open_x();
                        append_bytes(out, &o);
                        append_bytes(out, &h);
                        let e = mdast::mlit_div_close_x();
                        append_bytes(out, &e);
                    },
                    None => {
                        let o = mdast::mlit_bq_open_x();
                        append_bytes(out, &o);
                        append_bytes(out, &c.value);
                        let e = mdast::mlit_bq_close_x();
                        append_bytes(out, &e);
                    },
                }
                proof {
                    assert(out@ =~= old(out)@ + mdast::md_ser(rv));
                }
            },
            Node::FootnoteDefinition(_) => {
                proof {
                    assert(false);
                }
            },
            Node::FootnoteReference(_) => {
                proof {
                    assert(false);
                }
            },
            Node::List(_) => {
                proof {
                    assert(false);
                }
            },
            Node::ThematicBreak => {
                proof {
                    assert(false);
                }
            },
        }
    }
}

} // verus!
