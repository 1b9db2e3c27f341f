//! The markup node tree: elements, text runs and comments, together with
//! their mathematical views and the serialization function.
//!
//! Text nodes are emitted verbatim by the markup serializer: the parser only
//! ever feeds it text that was already valid markup. Comments are dropped on
//! output.

use vstd::prelude::*;

verus! {

broadcast use vstd::std_specs::vec::group_vec_axioms, vstd::seq::group_seq_axioms;

/// A single attribute of an element. A missing value (`disabled`) is legal;
/// attribute names are not required to be unique within a tag.
pub struct Attribute {
    pub name: Vec<u8>,
    pub value: Option<Vec<u8>>,
}

pub enum Node {
    Text(Vec<u8>),
    Element(Element),
    Comment(Vec<u8>),
}

pub struct Element {
    pub name: Vec<u8>,
    pub attributes: Vec<Attribute>,
    pub children: Vec<Node>,
}

#[verifier::ext_equal]
pub struct AttrV {
    pub name: Seq<u8>,
    pub value: Option<Seq<u8>>,
}

#[verifier::ext_equal]
pub enum NodeV {
    Text(Seq<u8>),
    Element(ElemV),
    Comment(Seq<u8>),
}

#[verifier::ext_equal]
pub struct ElemV {
    pub name: Seq<u8>,
    pub attributes: Seq<AttrV>,
    pub children: Seq<NodeV>,
}

impl View for Attribute {
    type V = AttrV;

    open spec fn view(&self) -> AttrV {
        AttrV {
            name: self.name@,
            value: match self.value {
                Some(v) => Some(v@),
                None => None,
            },
        }
    }
}

pub open spec fn attrs_view(attrs: Seq<Attribute>) -> Seq<AttrV> {
    Seq::new(attrs.len(), |i: int| attrs[i]@)
}

pub open spec fn node_view(n: Node) -> NodeV
    decreases n, 1int,
{
    match n {
        Node::Text(t) => NodeV::Text(t@),
        Node::Comment(c) => NodeV::Comment(c@),
        Node::Element(e) => NodeV::Element(elem_view(e)),
    }
}

pub open spec fn elem_view(e: Element) -> ElemV
    decreases e, 2int,
{
    ElemV {
        name: e.name@,
        attributes: attrs_view(e.attributes@),
        children: nodes_view(e.children@),
    }
}

/// The view of a whole sibling list.
pub open spec fn nodes_view(ns: Seq<Node>) -> Seq<NodeV>
    decreases ns, 0int,
{
    if ns.len() == 0 {
        Seq::empty()
    } else {
        nodes_view(ns.drop_last(), ).push(node_view(ns.last()))
    }
}

impl View for Node {
    type V = NodeV;

    open spec fn view(&self) -> NodeV {
        node_view(*self)
    }
}

impl View for Element {
    type V = ElemV;

    open spec fn view(&self) -> ElemV {
        elem_view(*self)
    }
}

pub broadcast proof fn lemma_nodes_view_len(ns: Seq<Node>)
    ensures
        #[trigger] nodes_view(ns).len() == ns.len(),
    decreases ns,
{
    if ns.len() > 0 {
        lemma_nodes_view_len(ns.drop_last());
    }
}

pub broadcast proof fn lemma_nodes_view_index(ns: Seq<Node>, i: int)
    requires
        0 <= i < ns.len(),
    ensures
        #[trigger] nodes_view(ns)[i] == ns[i]@,
    decreases ns,
{
    lemma_nodes_view_len(ns);
    if i < ns.len() - 1 {
        lemma_nodes_view_index(ns.drop_last(), i);
    }
}

pub broadcast proof fn lemma_nodes_view_push(ns: Seq<Node>, n: Node)
    ensures
        #[trigger] nodes_view(ns.push(n)) == nodes_view(ns).push(n@),
{
    assert(ns.push(n).drop_last() =~= ns);
}

impl Node {
    /// Whether this node is a text run.
    pub fn is_text(&self) -> (r: bool)
        ensures
            r == (self@ is Text),
    {
        match self {
            Node::Text(_) => true,
            _ => false,
        }
    }

    /// The element inside this node, if it is one.
    pub fn element(&self) -> (r: Option<&Element>)
        ensures
            match r {
                Some(e) => self@ == NodeV::Element(e@),
                None => !(self@ is Element),
            },
    {
        match self {
            Node::Element(e) => Some(e),
            _ => None,
        }
    }

}

// --- Serialization -------------------------------------------------------
//
// Self-closing tag when an element has no children; otherwise open tag,
// children, closing tag. Attributes are written `name="value"` or bare
// `name`. Text is emitted verbatim; comments are dropped.

pub open spec fn ser_attr(a: AttrV) -> Seq<u8> {
    seq![32u8] + a.name + match a.value {
        Some(v) => seq![61u8, 34u8] + v + seq![34u8],
        None => Seq::empty(),
    }
}

pub open spec fn ser_attrs(attrs: Seq<AttrV>) -> Seq<u8>
    decreases attrs.len(),
{
    if attrs.len() == 0 {
        Seq::empty()
    } else {
        ser_attr(attrs[0]) + ser_attrs(attrs.drop_first())
    }
}

pub open spec fn ser_node(n: NodeV) -> Seq<u8>
    decreases n, 1int,
{
    match n {
        NodeV::Text(t) => t,
        NodeV::Comment(_) => Seq::empty(),
        NodeV::Element(e) => ser_elem(e),
    }
}

pub open spec fn ser_elem(e: ElemV) -> Seq<u8>
    decreases e, 2int,
{
    if e.children.len() == 0 {
        seq![60u8] + e.name + ser_attrs(e.attributes) + seq![47u8, 62u8]
    } else {
        seq![60u8] + e.name + ser_attrs(e.attributes) + seq![62u8] + ser_nodes(e.children) + seq![
            60u8,
            47u8,
        ] + e.name + seq![62u8]
    }
}

pub open spec fn ser_nodes(ns: Seq<NodeV>) -> Seq<u8>
    decreases ns, 0int,
{
    if ns.len() == 0 {
        Seq::empty()
    } else {
        ser_node(ns[0]) + ser_nodes(ns.drop_first())
    }
}

pub broadcast proof fn lemma_ser_nodes_push(ns: Seq<NodeV>, n: NodeV)
    ensures
        #[trigger] ser_nodes(ns.push(n)) == ser_nodes(ns) + ser_node(n),
    decreases ns.len(),
{
    if ns.len() == 0 {
        assert(ns.push(n).drop_first() =~= Seq::<NodeV>::empty());
        assert(ser_nodes(Seq::<NodeV>::empty()) =~= Seq::<u8>::empty());
        assert(ser_nodes(ns.push(n)) == ser_node(ns.push(n)[0]) + ser_nodes(
            ns.push(n).drop_first(),
        ));
        assert(ns.push(n)[0] == n);
        assert(ser_nodes(ns.push(n)) =~= ser_node(n));
        assert(ser_nodes(ns) + ser_node(n) =~= ser_node(n));
    } else {
        assert(ns.push(n).drop_first() =~= ns.drop_first().push(n));
        lemma_ser_nodes_push(ns.drop_first(), n);
        assert(ser_nodes(ns.push(n)) =~= ser_nodes(ns) + ser_node(n));
    }
}

impl Element {
    /// Append the serialized form of this element to `out`.
    pub fn write(&self, out: &mut Vec<u8>)
        ensures
            final(out)@ == old(out)@ + ser_elem(self@),
        decreases self,
    {
        out.push(60);
        append_bytes(out, &self.name);
        proof {
            assert(out@ =~= old(out)@ + seq![60u8] + self@.name + ser_attrs(
                self@.attributes.subrange(0, 0),
            ));
        }
        let mut i: usize = 0;
        while i < self.attributes.len()
            invariant
                i <= self.attributes.len(),
                out@ == old(out)@ + seq![60u8] + self@.name + ser_attrs(
                    self@.attributes.subrange(0, i as int),
                ),
                self@.attributes.len() == self.attributes.len(),
            decreases self.attributes.len() - i,
        {
            let a = &self.attributes[i];
            out.push(32);
            append_bytes(out, &a.name);
            match &a.value {
                Some(v) => {
                    out.push(61);
                    out.push(34);
                    append_bytes(out, v);
                    out.push(34);
                },
                None => {},
            }
            proof {
                lemma_ser_attrs_push(self@.attributes, i as int);
                assert(out@ =~= old(out)@ + seq![60u8] + self@.name + ser_attrs(
                    self@.attributes.subrange(0, i + 1 as int),
                ));
            }
            i = i + 1;
        }
        proof {
            assert(self@.attributes.subrange(0, self.attributes.len() as int) =~= self@.attributes);
        }
        if self.children.len() == 0 {
            out.push(47);
            out.push(62);
            proof {
                assert(out@ =~= old(out)@ + ser_elem(self@));
            }
        } else {
            out.push(62);
            write_nodes(&self.children, out);
            out.push(60);
            out.push(47);
            append_bytes(out, &self.name);
            out.push(62);
            proof {
                assert(out@ =~= old(out)@ + ser_elem(self@));
            }
        }
    }
}

/// Append the serialized forms of a sibling list to `out`.
pub fn write_nodes(nodes: &Vec<Node>, out: &mut Vec<u8>)
    ensures
        final(out)@ == old(out)@ + ser_nodes(nodes_view(nodes@)),
    decreases nodes,
{
    proof {
        assert(nodes@.subrange(0, 0) =~= Seq::<Node>::empty());
        assert(out@ =~= old(out)@ + ser_nodes(nodes_view(nodes@.subrange(0, 0))));
    }
    let mut i: usize = 0;
    while i < nodes.len()
        invariant
            i <= nodes.len(),
            out@ == old(out)@ + ser_nodes(nodes_view(nodes@.subrange(0, i as int))),
        decreases nodes.len() - i,
    {
        match &nodes[i] {
            Node::Element(e) => e.write(out),
            Node::Text(t) => append_bytes(out, t),
            Node::Comment(_) => {},
        }
        proof {
            assert(nodes@.subrange(0, i + 1 as int) =~= nodes@.subrange(0, i as int).push(
                nodes@[i as int],
            ));
            lemma_nodes_view_push(nodes@.subrange(0, i as int), nodes@[i as int]);
            lemma_ser_nodes_push(nodes_view(nodes@.subrange(0, i as int)), nodes@[i as int]@);
            assert(out@ =~= old(out)@ + ser_nodes(nodes_view(nodes@.subrange(0, i + 1 as int))));
        }
        i = i + 1;
    }
    proof {
        assert(nodes@.subrange(0, nodes.len() as int) =~= nodes@);
    }
}

proof fn lemma_ser_attrs_push(attrs: Seq<AttrV>, i: int)
    requires
        0 <= i < attrs.len(),
    ensures
        ser_attrs(attrs.subrange(0, i + 1)) == ser_attrs(attrs.subrange(0, i)) + ser_attr(attrs[i]),
    decreases i,
{
    if i == 0 {
        assert(attrs.subrange(0, 1).drop_first() =~= Seq::<AttrV>::empty());
        assert(attrs.subrange(0, 1)[0] == attrs[0]);
        assert(ser_attrs(Seq::<AttrV>::empty()) =~= Seq::<u8>::empty());
        assert(attrs.subrange(0, 0) =~= Seq::<AttrV>::empty());
        assert(ser_attrs(attrs.subrange(0, 1)) == ser_attr(attrs.subrange(0, 1)[0]) + ser_attrs(
            attrs.subrange(0, 1).drop_first(),
        ));
        assert(ser_attrs(attrs.subrange(0, 1)) =~= ser_attrs(attrs.subrange(0, 0)) + ser_attr(
            attrs[0],
        ));
    } else {
        lemma_ser_attrs_push(attrs.drop_first(), i - 1);
        assert(attrs.subrange(0, i + 1).drop_first() =~= attrs.drop_first().subrange(0, i));
        assert(attrs.subrange(0, i).drop_first() =~= attrs.drop_first().subrange(0, i - 1));
        assert(attrs.subrange(0, i + 1)[0] == attrs[0]);
        assert(attrs.subrange(0, i)[0] == attrs[0]);
        assert(attrs.drop_first()[i - 1] == attrs[i]);
        assert(ser_attrs(attrs.subrange(0, i + 1)) =~= ser_attrs(attrs.subrange(0, i)) + ser_attr(
            attrs[i],
        ));
    }
}

/// Append the bytes of `src` to `out`.
pub fn append_bytes(out: &mut Vec<u8>, src: &Vec<u8>)
    ensures
        final(out)@ == old(out)@ + src@,
{
    let mut i: usize = 0;
    while i < src.len()
        invariant
            i <= src.len(),
            out@ == old(out)@ + src@.subrange(0, i as int),
        decreases src.len() - i,
    {
        out.push(src[i]);
        proof {
            assert(src@.subrange(0, i + 1 as int) =~= src@.subrange(0, i as int).push(
                src@[i as int],
            ));
            assert(out@ =~= old(out)@ + src@.subrange(0, i + 1 as int));
        }
        i = i + 1;
    }
    proof {
        assert(src@.subrange(0, src.len() as int) =~= src@);
    }
}

/// A copy of `src` with the same bytes.
pub fn clone_bytes(src: &Vec<u8>) -> (r: Vec<u8>)
    ensures
        r@ == src@,
{
    let r = subrange_vec(src, 0, src.len());
    proof {
        assert(src@.subrange(0, src@.len() as int) =~= src@);
    }
    r
}


/// `nodes_view` distributes over concatenation.
pub proof fn lemma_nodes_view_concat(a: Seq<Node>, b: Seq<Node>)
    ensures
        nodes_view(a + b) == nodes_view(a) + nodes_view(b),
{
    lemma_nodes_view_len(a + b);
    lemma_nodes_view_len(a);
    lemma_nodes_view_len(b);
    assert(nodes_view(a + b) =~= nodes_view(a) + nodes_view(b)) by {
        assert forall|t: int| 0 <= t < a.len() + b.len() implies nodes_view(a + b)[t] == (
        nodes_view(a) + nodes_view(b))[t] by {
            lemma_nodes_view_index(a + b, t);
            if t < a.len() {
                lemma_nodes_view_index(a, t);
                assert((a + b)[t] == a[t]);
            } else {
                lemma_nodes_view_index(b, t - a.len());
                assert((a + b)[t] == b[t - a.len()]);
            }
        }
    }
}

/// `nodes_view` of an insertion at the front.
pub proof fn lemma_nodes_view_insert0(a: Seq<Node>, n: Node)
    ensures
        nodes_view(a.insert(0, n)) == seq![node_view(n)] + nodes_view(a),
{
    assert(a.insert(0, n) =~= seq![n] + a);
    lemma_nodes_view_one(n);
    lemma_nodes_view_concat(seq![n], a);
}

/// `nodes_view` of a single node.
pub proof fn lemma_nodes_view_one(n: Node)
    ensures
        nodes_view(seq![n]) == seq![node_view(n)],
{
    assert(seq![n].drop_last() =~= Seq::<Node>::empty());
    assert(nodes_view(Seq::<Node>::empty()) =~= Seq::<NodeV>::empty());
    assert(seq![n].last() == n);
    assert(nodes_view(seq![n]) =~= seq![node_view(n)]);
}

/// Copy the byte range `[i, j)` of `src` into a fresh vector.
pub fn subrange_vec(src: &Vec<u8>, i: usize, j: usize) -> (r: Vec<u8>)
    requires
        i <= j <= src@.len(),
    ensures
        r@ == src@.subrange(i as int, j as int),
{
    let mut r: Vec<u8> = Vec::new();
    let mut k = i;
    while k < j
        invariant
            i <= k <= j <= src@.len(),
            r@ == src@.subrange(i as int, k as int),
        decreases j - k,
    {
        r.push(src[k]);
        proof {
            assert(src@.subrange(i as int, k + 1 as int) =~= src@.subrange(i as int, k as int).push(
                src@[k as int],
            ));
        }
        k = k + 1;
    }
    r
}

} // verus!
