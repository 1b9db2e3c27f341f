//! The component expansion engine.
//!
//! `Document::expand` rewrites the document's node list against a table of
//! component templates: every element whose name resolves in the table is
//! replaced by a copy of the matched template's children, with the template's
//! declared attributes bound to the call site's attributes and the call
//! site's children spliced into the template's outlet marker (the reserved
//! `children` tag). The whole list is re-scanned until a full pass makes no
//! substitution. A name that does not resolve is not an error: the tag passes
//! through to the output unchanged.
//!
//! One pass is the specification function `pass_nodes`; the whole engine is
//! the specification function `expand_spec`, which iterates the pass to a
//! fixed point under an explicit budget.

use vstd::prelude::*;

use crate::document::Component;
use crate::document::Document;
use crate::element::AttrV;
use crate::element::Attribute;
use crate::element::ElemV;
use crate::element::Element;
use crate::element::Node;
use crate::element::NodeV;
use crate::element::attrs_view;
use crate::element::clone_bytes;
use crate::element::elem_view;
use crate::element::lemma_nodes_view_concat;
use crate::element::lemma_nodes_view_index;
use crate::element::lemma_nodes_view_insert0;
use crate::element::lemma_nodes_view_one;
use crate::element::lemma_nodes_view_len;
use crate::element::nodes_view;
use crate::parse::vec_eq;

verus! {

broadcast use vstd::std_specs::vec::group_vec_axioms, vstd::seq::group_seq_axioms;

/// The reserved outlet tag name.
pub open spec fn children_name() -> Seq<u8> {
    seq![99u8, 104u8, 105u8, 108u8, 100u8, 114u8, 101u8, 110u8]
}

fn children_vec() -> (v: Vec<u8>)
    ensures
        v@ == children_name(),
{
    let mut v: Vec<u8> = Vec::new();
    v.push(99);
    v.push(104);
    v.push(105);
    v.push(108);
    v.push(100);
    v.push(114);
    v.push(101);
    v.push(110);
    proof {
        assert(v@ =~= children_name());
    }
    v
}

// --- Attribute binding -------------------------------------------------------

/// The first attribute at or after `i` whose name is `name`.
pub open spec fn first_attr(attrs: Seq<AttrV>, i: int, name: Seq<u8>) -> Option<AttrV>
    decreases attrs.len() - i,
{
    if i < 0 || i >= attrs.len() {
        None
    } else if attrs[i].name == name {
        Some(attrs[i])
    } else {
        first_attr(attrs, i + 1, name)
    }
}

/// The replacement attribute set of one expansion: for every attribute
/// declared on the component's root, the call site's attribute of the same
/// name if present, else the declared default.
pub open spec fn resolve_attrs(declared: Seq<AttrV>, call: Seq<AttrV>) -> Seq<AttrV> {
    Seq::new(
        declared.len(),
        |i: int|
            match first_attr(call, 0, declared[i].name) {
                Some(a) => a,
                None => declared[i],
            },
    )
}

/// Dynamic binding of one attribute value: a value that textually equals a
/// formal parameter's name is replaced by that parameter's resolved value.
pub open spec fn subst_value(repl: Seq<AttrV>, v: Option<Seq<u8>>) -> Option<Seq<u8>> {
    match v {
        None => None,
        Some(val) => match first_attr(repl, 0, val) {
            Some(a) => a.value,
            None => Some(val),
        },
    }
}

pub open spec fn subst_attrs(repl: Seq<AttrV>, attrs: Seq<AttrV>) -> Seq<AttrV> {
    Seq::new(
        attrs.len(),
        |i: int| AttrV { name: attrs[i].name, value: subst_value(repl, attrs[i].value) },
    )
}

/// Attribute binding over a whole copied subtree.
pub open spec fn subst_node(repl: Seq<AttrV>, n: NodeV) -> NodeV
    decreases n,
{
    match n {
        NodeV::Element(e) => NodeV::Element(subst_elem(repl, e)),
        _ => n,
    }
}

pub open spec fn subst_elem(repl: Seq<AttrV>, e: ElemV) -> ElemV
    decreases e,
{
    ElemV {
        name: e.name,
        attributes: subst_attrs(repl, e.attributes),
        children: subst_nodes(repl, e.children, 0),
    }
}

pub open spec fn subst_nodes(repl: Seq<AttrV>, ns: Seq<NodeV>, i: int) -> Seq<NodeV>
    decreases ns, ns.len() - i,
{
    if i < 0 || i >= ns.len() {
        Seq::empty()
    } else {
        seq![subst_node(repl, ns[i])] + subst_nodes(repl, ns, i + 1)
    }
}

// --- Outlet splicing ---------------------------------------------------------

/// Replace the first outlet marker, in document order, among the nodes from
/// `i` on (descending into elements) by `kids`; the flag says whether one was
/// found. Attributes on the marker are discarded.
pub open spec fn splice_nodes(ns: Seq<NodeV>, kids: Seq<NodeV>, i: int) -> (Seq<NodeV>, bool)
    decreases ns, ns.len() - i,
{
    if i < 0 || i >= ns.len() {
        (Seq::empty(), false)
    } else {
        match ns[i] {
            NodeV::Element(e) => if e.name == children_name() {
                (kids + ns.subrange(i + 1, ns.len() as int), true)
            } else {
                let inner = splice_nodes(e.children, kids, 0);
                if inner.1 {
                    (
                        seq![
                            NodeV::Element(
                                ElemV { name: e.name, attributes: e.attributes, children: inner.0 },
                            ),
                        ] + ns.subrange(i + 1, ns.len() as int),
                        true,
                    )
                } else {
                    let rest = splice_nodes(ns, kids, i + 1);
                    (seq![ns[i]] + rest.0, rest.1)
                }
            },
            _ => {
                let rest = splice_nodes(ns, kids, i + 1);
                (seq![ns[i]] + rest.0, rest.1)
            },
        }
    }
}

/// One full expansion of a matched component: bind attributes over a copy of
/// the template, splice the call site's children into the outlet, and keep
/// only the template root's children. Call-site children are dropped when
/// the template has no outlet.
pub open spec fn instantiate(comp: ElemV, call_attrs: Seq<AttrV>, call_children: Seq<NodeV>) -> Seq<
    NodeV,
> {
    let repl = resolve_attrs(comp.attributes, call_attrs);
    let bound = subst_nodes(repl, comp.children, 0);
    splice_nodes(bound, call_children, 0).0
}

// --- The component table -----------------------------------------------------

/// A table of component templates, indexed by their root element's name; a
/// later entry of the same name replaces an earlier one.
pub struct ComponentTable {
    pub comps: Vec<Component>,
}

/// Lookup among the first `n` entries, preferring the latest.
pub open spec fn lookup_back(comps: Seq<Component>, n: int, name: Seq<u8>) -> Option<ElemV>
    decreases n,
{
    if n <= 0 || n > comps.len() {
        None
    } else if elem_view(comps[n - 1].root).name == name {
        Some(elem_view(comps[n - 1].root))
    } else {
        lookup_back(comps, n - 1, name)
    }
}

/// The template that `name` resolves to, if any.
pub open spec fn lookup_spec(comps: Seq<Component>, name: Seq<u8>) -> Option<ElemV> {
    lookup_back(comps, comps.len() as int, name)
}

impl ComponentTable {
    /// An empty table: no name resolves.
    pub fn new() -> (t: ComponentTable)
        ensures
            t.comps@.len() == 0,
            forall|name: Seq<u8>| lookup_spec(t.comps@, name) is None,
    {
        ComponentTable { comps: Vec::new() }
    }

    /// Register a component; it shadows any earlier component of the same
    /// root name.
    pub fn insert(&mut self, c: Component)
        ensures
            final(self).comps@ == old(self).comps@.push(c),
    {
        self.comps.push(c);
    }

    /// Look a name up, latest registration first.
    pub fn get(&self, name: &Vec<u8>) -> (r: Option<&Component>)
        ensures
            match r {
                Some(c) => lookup_spec(self.comps@, name@) == Some(elem_view(c.root)),
                None => lookup_spec(self.comps@, name@) is None,
            },
    {
        get_back(&self.comps, self.comps.len(), name)
    }
}

fn get_back<'a>(comps: &'a Vec<Component>, n: usize, name: &Vec<u8>) -> (r: Option<&'a Component>)
    requires
        n <= comps@.len(),
    ensures
        match r {
            Some(c) => lookup_back(comps@, n as int, name@) == Some(elem_view(c.root)),
            None => lookup_back(comps@, n as int, name@) is None,
        },
    decreases n,
{
    if n == 0 {
        None
    } else if vec_eq(&comps[n - 1].root.name, name) {
        Some(&comps[n - 1])
    } else {
        get_back(comps, n - 1, name)
    }
}

// --- One pass ----------------------------------------------------------------

/// One pass over a single node: a resolvable element is substituted (and not
/// re-scanned this pass); any other element has its children passed over.
pub open spec fn pass_node(n: NodeV, comps: Seq<Component>) -> (Seq<NodeV>, bool)
    decreases n,
{
    match n {
        NodeV::Element(e) => match lookup_spec(comps, e.name) {
            Some(c) => (instantiate(c, e.attributes, e.children), true),
            None => {
                let inner = pass_nodes(e.children, comps, 0);
                (
                    seq![
                        NodeV::Element(
                            ElemV { name: e.name, attributes: e.attributes, children: inner.0 },
                        ),
                    ],
                    inner.1,
                )
            },
        },
        _ => (seq![n], false),
    }
}

/// One pass over the nodes from `i` on; the flag says whether any
/// substitution occurred. Sibling and document order is preserved.
pub open spec fn pass_nodes(ns: Seq<NodeV>, comps: Seq<Component>, i: int) -> (Seq<NodeV>, bool)
    decreases ns, ns.len() - i,
{
    if i < 0 || i >= ns.len() {
        (Seq::empty(), false)
    } else {
        let h = pass_node(ns[i], comps);
        let t = pass_nodes(ns, comps, i + 1);
        (h.0 + t.0, h.1 || t.1)
    }
}

/// The whole engine as one function: iterate the pass until one makes no
/// substitution (the flag is then true), or until the fuel is spent (a
/// cyclic reference graph cut off; the flag is then false).
pub open spec fn expand_spec(ns: Seq<NodeV>, comps: Seq<Component>, fuel: nat) -> (
    Seq<NodeV>,
    bool,
)
    decreases fuel,
{
    if fuel == 0 {
        (ns, false)
    } else {
        let p = pass_nodes(ns, comps, 0);
        if p.1 == false {
            (p.0, true)
        } else {
            expand_spec(p.0, comps, (fuel - 1) as nat)
        }
    }
}

/// The pass budget the engine runs with: one pass per registered component,
/// plus the final pass that observes convergence.
pub open spec fn expand_fuel(comps: Seq<Component>) -> nat {
    if comps.len() < usize::MAX {
        comps.len() + 1
    } else {
        usize::MAX as nat
    }
}

// --- No resolvable references --------------------------------------------------

pub open spec fn no_resolvable_node(n: NodeV, comps: Seq<Component>) -> bool
    decreases n,
{
    match n {
        NodeV::Element(e) => lookup_spec(comps, e.name) is None && no_resolvable_nodes(
            e.children,
            comps,
            0,
        ),
        _ => true,
    }
}

pub open spec fn no_resolvable_nodes(ns: Seq<NodeV>, comps: Seq<Component>, i: int) -> bool
    decreases ns, ns.len() - i,
{
    if i < 0 || i >= ns.len() {
        true
    } else {
        no_resolvable_node(ns[i], comps) && no_resolvable_nodes(ns, comps, i + 1)
    }
}

/// A pass that substituted nothing left the node list unchanged, and such a
/// list holds no element whose name still resolves; conversely, a list with
/// no resolvable reference is left unchanged by a pass. This is what makes
/// re-running the engine on its own output a no-op.
pub proof fn lemma_fixpoint_nodes(ns: Seq<NodeV>, comps: Seq<Component>, i: int)
    requires
        0 <= i <= ns.len(),
    ensures
        pass_nodes(ns, comps, i).1 == false ==> pass_nodes(ns, comps, i).0 == ns.subrange(
            i,
            ns.len() as int,
        ) && no_resolvable_nodes(ns, comps, i),
        no_resolvable_nodes(ns, comps, i) ==> pass_nodes(ns, comps, i) == (
            ns.subrange(i, ns.len() as int),
            false,
        ),
    decreases ns, ns.len() - i, 1int,
{
    if i < ns.len() {
        lemma_fixpoint_node(ns[i], comps);
        lemma_fixpoint_nodes(ns, comps, i + 1);
        assert(ns.subrange(i, ns.len() as int) =~= seq![ns[i]] + ns.subrange(i + 1, ns.len() as int));
        let h = pass_node(ns[i], comps);
        let t = pass_nodes(ns, comps, i + 1);
        if h.1 == false && t.1 == false {
            assert(h.0 + t.0 =~= ns.subrange(i, ns.len() as int));
        }
        if no_resolvable_nodes(ns, comps, i) {
            assert(h.0 + t.0 =~= ns.subrange(i, ns.len() as int));
        }
    } else {
        assert(ns.subrange(i, ns.len() as int) =~= Seq::<NodeV>::empty());
    }
}

pub proof fn lemma_fixpoint_node(n: NodeV, comps: Seq<Component>)
    ensures
        pass_node(n, comps).1 == false ==> pass_node(n, comps).0 == seq![n] && no_resolvable_node(
            n,
            comps,
        ),
        no_resolvable_node(n, comps) ==> pass_node(n, comps) == (seq![n], false),
    decreases n, 0int,
{
    match n {
        NodeV::Element(e) => {
            if lookup_spec(comps, e.name) is None {
                lemma_fixpoint_nodes(e.children, comps, 0);
                let inner = pass_nodes(e.children, comps, 0);
                if inner.1 == false {
                    assert(e.children.subrange(0, e.children.len() as int) =~= e.children);
                    assert(ElemV { name: e.name, attributes: e.attributes, children: inner.0 } =~= e);
                }
                if no_resolvable_node(n, comps) {
                    assert(e.children.subrange(0, e.children.len() as int) =~= e.children);
                    assert(ElemV { name: e.name, attributes: e.attributes, children: inner.0 } =~= e);
                }
            }
        },
        _ => {},
    }
}

// --- Executable engine ---------------------------------------------------------

fn first_attr_x<'a>(attrs: &'a Vec<Attribute>, i: usize, name: &Vec<u8>) -> (r: Option<
    &'a Attribute,
>)
    requires
        i <= attrs@.len(),
    ensures
        match r {
            Some(a) => first_attr(attrs_view(attrs@), i as int, name@) == Some(a@),
            None => first_attr(attrs_view(attrs@), i as int, name@) is None,
        },
    decreases attrs@.len() - i,
{
    if i >= attrs.len() {
        None
    } else if vec_eq(&attrs[i].name, name) {
        Some(&attrs[i])
    } else {
        first_attr_x(attrs, i + 1, name)
    }
}

fn clone_attr(a: &Attribute) -> (r: Attribute)
    ensures
        r@ == a@,
{
    let value = match &a.value {
        Some(v) => Some(clone_bytes(v)),
        None => None,
    };
    Attribute { name: clone_bytes(&a.name), value }
}

fn resolve_attrs_x(declared: &Vec<Attribute>, call: &Vec<Attribute>) -> (r: Vec<Attribute>)
    ensures
        attrs_view(r@) == resolve_attrs(attrs_view(declared@), attrs_view(call@)),
{
    let mut r: Vec<Attribute> = Vec::new();
    let mut i: usize = 0;
    while i < declared.len()
        invariant
            i <= declared@.len(),
            r@.len() == i,
            forall|t: int| 0 <= t < i ==> r@[t]@ == resolve_attrs(
                attrs_view(declared@),
                attrs_view(call@),
            )[t],
        decreases declared@.len() - i,
    {
        let a = match first_attr_x(call, 0, &declared[i].name) {
            Some(found) => clone_attr(found),
            None => clone_attr(&declared[i]),
        };
        r.push(a);
        i = i + 1;
    }
    proof {
        assert(attrs_view(r@) =~= resolve_attrs(attrs_view(declared@), attrs_view(call@)));
    }
    r
}

fn subst_attrs_x(repl: &Vec<Attribute>, attrs: &Vec<Attribute>) -> (r: Vec<Attribute>)
    ensures
        attrs_view(r@) == subst_attrs(attrs_view(repl@), attrs_view(attrs@)),
{
    let mut r: Vec<Attribute> = Vec::new();
    let mut i: usize = 0;
    while i < attrs.len()
        invariant
            i <= attrs@.len(),
            r@.len() == i,
            forall|t: int| 0 <= t < i ==> r@[t]@ == subst_attrs(
                attrs_view(repl@),
                attrs_view(attrs@),
            )[t],
        decreases attrs@.len() - i,
    {
        let a = &attrs[i];
        let value: Option<Vec<u8>> = match &a.value {
            None => None,
            Some(val) => match first_attr_x(repl, 0, val) {
                Some(found) => match &found.value {
                    Some(fv) => Some(clone_bytes(fv)),
                    None => None,
                },
                None => Some(clone_bytes(val)),
            },
        };
        let na = Attribute { name: clone_bytes(&a.name), value };
        proof {
            assert(na@ =~~= subst_attrs(attrs_view(repl@), attrs_view(attrs@))[i as int]);
        }
        r.push(na);
        i = i + 1;
    }
    proof {
        assert(attrs_view(r@) =~= subst_attrs(attrs_view(repl@), attrs_view(attrs@)));
    }
    r
}

/// A copy of the nodes from `i` on with attribute binding applied.
fn subst_clone_nodes(repl: &Vec<Attribute>, ns: &Vec<Node>, i: usize) -> (r: Vec<Node>)
    requires
        i <= ns@.len(),
    ensures
        nodes_view(r@) == subst_nodes(attrs_view(repl@), nodes_view(ns@), i as int),
    decreases ns, ns@.len() - i, 1int,
{
    proof {
        lemma_nodes_view_len(ns@);
    }
    if i >= ns.len() {
        let r: Vec<Node> = Vec::new();
        proof {
            assert(nodes_view(r@) =~= Seq::<NodeV>::empty());
        }
        return r;
    }
    let head = subst_clone_node(repl, &ns[i]);
    let mut r = subst_clone_nodes(repl, ns, i + 1);
    let ghost orseq = r@;
    let ghost hv = head@;
    r.insert(0, head);
    proof {
        lemma_nodes_view_index(ns@, i as int);
        lemma_nodes_view_insert0(orseq, r@[0]);
        assert(r@[0]@ == hv);
        assert(r@ == orseq.insert(0, r@[0]));
        assert(nodes_view(r@) =~= subst_nodes(attrs_view(repl@), nodes_view(ns@), i as int));
    }
    r
}

fn subst_clone_node(repl: &Vec<Attribute>, n: &Node) -> (r: Node)
    ensures
        r@ == subst_node(attrs_view(repl@), n@),
    decreases n, 0int,
{
    match n {
        Node::Text(t) => Node::Text(clone_bytes(t)),
        Node::Comment(c) => Node::Comment(clone_bytes(c)),
        Node::Element(e) => {
            let children = subst_clone_nodes(repl, &e.children, 0);
            let el = Element {
                name: clone_bytes(&e.name),
                attributes: subst_attrs_x(repl, &e.attributes),
                children,
            };
            proof {
                assert(elem_view(el) =~= subst_elem(attrs_view(repl@), elem_view(*e)));
            }
            Node::Element(el)
        },
    }
}

/// A plain deep copy of a markup element.
pub(crate) fn clone_markup_node(e: &Element) -> (r: Element)
    ensures
        elem_view(r) == elem_view(*e),
{
    let children = clone_nodes_from(&e.children, 0);
    let r = Element { name: clone_bytes(&e.name), attributes: clone_attrs_x(&e.attributes), children };
    proof {
        lemma_nodes_view_len(e.children@);
        assert(nodes_view(e.children@).subrange(0, nodes_view(e.children@).len() as int) =~=
            nodes_view(e.children@));
        assert(elem_view(r) =~= elem_view(*e));
    }
    r
}

/// A plain deep copy of one node.
fn clone_node(n: &Node) -> (r: Node)
    ensures
        r@ == n@,
    decreases n, 0int,
{
    match n {
        Node::Text(t) => Node::Text(clone_bytes(t)),
        Node::Comment(c) => Node::Comment(clone_bytes(c)),
        Node::Element(e) => {
            let children = clone_nodes_from(&e.children, 0);
            let el = Element {
                name: clone_bytes(&e.name),
                attributes: clone_attrs_x(&e.attributes),
                children,
            };
            proof {
                lemma_nodes_view_len(e.children@);
                assert(nodes_view(e.children@).subrange(0, nodes_view(e.children@).len() as int)
                    =~= nodes_view(e.children@));
                assert(elem_view(el) =~= elem_view(*e));
            }
            Node::Element(el)
        },
    }
}

/// A plain deep copy of the nodes from `i` on.
fn clone_nodes_from(ns: &Vec<Node>, i: usize) -> (r: Vec<Node>)
    requires
        i <= ns@.len(),
    ensures
        nodes_view(r@) == nodes_view(ns@).subrange(i as int, nodes_view(ns@).len() as int),
    decreases ns, ns@.len() - i, 1int,
{
    proof {
        lemma_nodes_view_len(ns@);
    }
    if i >= ns.len() {
        let r: Vec<Node> = Vec::new();
        proof {
            assert(nodes_view(r@) =~= nodes_view(ns@).subrange(
                i as int,
                nodes_view(ns@).len() as int,
            ));
        }
        return r;
    }
    let head = clone_node(&ns[i]);
    let mut r = clone_nodes_from(ns, i + 1);
    let ghost orseq = r@;
    let ghost hv = head@;
    r.insert(0, head);
    proof {
        lemma_nodes_view_index(ns@, i as int);
        lemma_nodes_view_insert0(orseq, r@[0]);
        assert(r@[0]@ == hv);
        assert(r@ == orseq.insert(0, r@[0]));
        assert(nodes_view(r@) =~= nodes_view(ns@).subrange(
            i as int,
            nodes_view(ns@).len() as int,
        ));
    }
    r
}

fn clone_attrs_x(attrs: &Vec<Attribute>) -> (r: Vec<Attribute>)
    ensures
        attrs_view(r@) == attrs_view(attrs@),
{
    let mut r: Vec<Attribute> = Vec::new();
    let mut i: usize = 0;
    while i < attrs.len()
        invariant
            i <= attrs@.len(),
            r@.len() == i,
            forall|t: int| 0 <= t < i ==> r@[t]@ == attrs@[t]@,
        decreases attrs@.len() - i,
    {
        r.push(clone_attr(&attrs[i]));
        i = i + 1;
    }
    proof {
        assert(attrs_view(r@) =~= attrs_view(attrs@));
    }
    r
}

/// Rebuild the nodes from `i` on, splicing `kids` in place of the first
/// outlet marker found in document order.
fn splice_x(ns: &Vec<Node>, kids: &Vec<Node>, i: usize) -> (r: (Vec<Node>, bool))
    requires
        i <= ns@.len(),
    ensures
        (nodes_view(r.0@), r.1) == splice_nodes(nodes_view(ns@), nodes_view(kids@), i as int),
    decreases ns, ns@.len() - i, 1int,
{
    proof {
        lemma_nodes_view_len(ns@);
    }
    if i >= ns.len() {
        let r: Vec<Node> = Vec::new();
        proof {
            assert(nodes_view(r@) =~= Seq::<NodeV>::empty());
        }
        return (r, false);
    }
    proof {
        lemma_nodes_view_index(ns@, i as int);
    }
    let marker = children_vec();
    match &ns[i] {
        Node::Element(e) => {
            if vec_eq(&e.name, &marker) {
                let mut out = clone_nodes_from(kids, 0);
                let mut tail = clone_nodes_from(ns, i + 1);
                let ghost o1 = out@;
                let ghost t1 = tail@;
                out.append(&mut tail);
                proof {
                    lemma_nodes_view_len(kids@);
                    assert(nodes_view(kids@).subrange(0, nodes_view(kids@).len() as int) =~=
                        nodes_view(kids@));
                    assert(out@ == o1 + t1);
                    lemma_nodes_view_concat(o1, t1);
                    assert(nodes_view(out@) =~= nodes_view(kids@) + nodes_view(ns@).subrange(
                        i + 1,
                        nodes_view(ns@).len() as int,
                    ));
                }
                (out, true)
            } else {
                let (inner, found) = splice_x(&e.children, kids, 0);
                if found {
                    let el = Element {
                        name: clone_bytes(&e.name),
                        attributes: clone_attrs_x(&e.attributes),
                        children: inner,
                    };
                    proof {
                        assert(elem_view(el) =~= ElemV {
                            name: e.name@,
                            attributes: attrs_view(e.attributes@),
                            children: splice_nodes(
                                nodes_view(e.children@),
                                nodes_view(kids@),
                                0,
                            ).0,
                        });
                    }
                    let mut out = clone_nodes_from(ns, i + 1);
                    let ghost orseq = out@;
                    let ghost ev = elem_view(el);
                    out.insert(0, Node::Element(el));
                    proof {
                        lemma_nodes_view_insert0(orseq, out@[0]);
                        assert(out@[0]@ == NodeV::Element(ev));
                        assert(out@ == orseq.insert(0, out@[0]));
                        assert(nodes_view(out@) =~= seq![NodeV::Element(ev)] + nodes_view(
                            ns@,
                        ).subrange(i + 1, nodes_view(ns@).len() as int));
                    }
                    (out, true)
                } else {
                    let (mut rest, f2) = splice_x(ns, kids, i + 1);
                    let head = clone_node(&ns[i]);
                    let ghost rv = nodes_view(rest@);
                    let ghost orseq = rest@;
                    let ghost hv = head@;
                    rest.insert(0, head);
                    proof {
                        lemma_nodes_view_insert0(orseq, rest@[0]);
                        assert(rest@[0]@ == hv);
                        assert(rest@ == orseq.insert(0, rest@[0]));
                        assert(nodes_view(rest@) =~= seq![nodes_view(ns@)[i as int]] + rv);
                    }
                    (rest, f2)
                }
            }
        },
        _ => {
            let (mut rest, f2) = splice_x(ns, kids, i + 1);
            let head = clone_node(&ns[i]);
            let ghost rv = nodes_view(rest@);
            let ghost orseq = rest@;
            let ghost hv = head@;
            rest.insert(0, head);
            proof {
                lemma_nodes_view_insert0(orseq, rest@[0]);
                assert(rest@[0]@ == hv);
                assert(rest@ == orseq.insert(0, rest@[0]));
                assert(nodes_view(rest@) =~= seq![nodes_view(ns@)[i as int]] + rv);
            }
            (rest, f2)
        },
    }
}

/// Expand one matched component reference.
fn instantiate_x(comp: &Component, call_attrs: &Vec<Attribute>, call_children: &Vec<Node>) -> (r:
    Vec<Node>)
    ensures
        nodes_view(r@) == instantiate(
            elem_view(comp.root),
            attrs_view(call_attrs@),
            nodes_view(call_children@),
        ),
{
    let repl = resolve_attrs_x(&comp.root.attributes, call_attrs);
    let bound = subst_clone_nodes(&repl, &comp.root.children, 0);
    let (spliced, _found) = splice_x(&bound, call_children, 0);
    spliced
}

/// One pass over a single node.
fn pass_node_x(n: &Node, table: &ComponentTable) -> (r: (Vec<Node>, bool))
    ensures
        (nodes_view(r.0@), r.1) == pass_node(n@, table.comps@),
    decreases n, 0int,
{
    match n {
        Node::Element(e) => {
            match table.get(&e.name) {
                Some(comp) => {
                    let out = instantiate_x(comp, &e.attributes, &e.children);
                    (out, true)
                },
                None => {
                    let (cs, ch) = pass_nodes_x(&e.children, table, 0);
                    let el = Element {
                        name: clone_bytes(&e.name),
                        attributes: clone_attrs_x(&e.attributes),
                        children: cs,
                    };
                    let ghost ev = elem_view(el);
                    proof {
                        assert(ev =~= ElemV {
                            name: e.name@,
                            attributes: attrs_view(e.attributes@),
                            children: pass_nodes(nodes_view(e.children@), table.comps@, 0).0,
                        });
                    }
                    let nd = Node::Element(el);
                    let ghost ndv = nd@;
                    let mut out: Vec<Node> = Vec::new();
                    out.push(nd);
                    proof {
                        assert(out@ =~= seq![out@[0]]);
                        lemma_nodes_view_one(out@[0]);
                        assert(nodes_view(out@) =~= seq![ndv]);
                    }
                    (out, ch)
                },
            }
        },
        Node::Text(t) => {
            let nd = Node::Text(clone_bytes(t));
            let ghost ndv = nd@;
            let mut out: Vec<Node> = Vec::new();
            out.push(nd);
            proof {
                assert(ndv == n@);
                assert(out@ =~= seq![out@[0]]);
                lemma_nodes_view_one(out@[0]);
                assert(nodes_view(out@) =~= seq![n@]);
            }
            (out, false)
        },
        Node::Comment(c) => {
            let nd = Node::Comment(clone_bytes(c));
            let ghost ndv = nd@;
            let mut out: Vec<Node> = Vec::new();
            out.push(nd);
            proof {
                assert(ndv == n@);
                assert(out@ =~= seq![out@[0]]);
                lemma_nodes_view_one(out@[0]);
                assert(nodes_view(out@) =~= seq![n@]);
            }
            (out, false)
        },
    }
}

/// One pass over the nodes from `i` on.
fn pass_nodes_x(ns: &Vec<Node>, table: &ComponentTable, i: usize) -> (r: (Vec<Node>, bool))
    requires
        i <= ns@.len(),
    ensures
        (nodes_view(r.0@), r.1) == pass_nodes(nodes_view(ns@), table.comps@, i as int),
    decreases ns, ns@.len() - i, 1int,
{
    proof {
        lemma_nodes_view_len(ns@);
    }
    if i >= ns.len() {
        let r: Vec<Node> = Vec::new();
        proof {
            assert(nodes_view(r@) =~= Seq::<NodeV>::empty());
        }
        return (r, false);
    }
    proof {
        lemma_nodes_view_index(ns@, i as int);
    }
    let (mut h, c1) = pass_node_x(&ns[i], table);
    let (mut t, c2) = pass_nodes_x(ns, table, i + 1);
    let ghost h1 = h@;
    let ghost t1 = t@;
    h.append(&mut t);
    proof {
        assert(h@ == h1 + t1);
        lemma_nodes_view_concat(h1, t1);
    }
    (h, c1 || c2)
}

impl Document {
    /// Rewrite the document against `table` until a full pass makes no
    /// substitution, or until a fixed pass budget is spent: a cyclic
    /// component reference graph would otherwise never converge, so the
    /// budget is the explicit guard against one. The result says whether the
    /// fixed point was reached.
    ///
    /// The outcome is exactly `expand_spec` of the old node list: when the
    /// result is true the document is the pass function's fixed point and no
    /// element's name resolves in the table any more; a document that was
    /// already fully expanded is left as it is. A substituted subtree is
    /// re-scanned on the following pass rather than within the pass that
    /// produced it; the fixed point reached is the same.
    pub fn expand(&mut self, table: &ComponentTable) -> (converged: bool)
        ensures
            (nodes_view(final(self).nodes@), converged) == expand_spec(
                nodes_view(old(self).nodes@),
                table.comps@,
                expand_fuel(table.comps@),
            ),
            converged ==> pass_nodes(nodes_view(final(self).nodes@), table.comps@, 0).1 == false,
            converged ==> no_resolvable_nodes(nodes_view(final(self).nodes@), table.comps@, 0),
            pass_nodes(nodes_view(old(self).nodes@), table.comps@, 0).1 == false ==> converged
                && nodes_view(final(self).nodes@) == nodes_view(old(self).nodes@),
    {
        let ghost orig = nodes_view(self.nodes@);
        let mut budget: usize = if table.comps.len() < usize::MAX {
            table.comps.len() + 1
        } else {
            usize::MAX
        };
        let ghost total: nat = budget as nat;
        proof {
            assert(total == expand_fuel(table.comps@));
        }
        let mut changed = true;
        while changed && budget > 0
            invariant
                total == expand_fuel(table.comps@),
                changed ==> expand_spec(orig, table.comps@, total) == expand_spec(
                    nodes_view(self.nodes@),
                    table.comps@,
                    budget as nat,
                ),
                !changed ==> expand_spec(orig, table.comps@, total) == (
                    nodes_view(self.nodes@),
                    true,
                ),
                !changed ==> pass_nodes(nodes_view(self.nodes@), table.comps@, 0).1 == false,
                pass_nodes(orig, table.comps@, 0).1 == false ==> nodes_view(self.nodes@) == orig,
                pass_nodes(orig, table.comps@, 0).1 == false && changed ==> budget == total,
            decreases budget,
        {
            let ghost prev = nodes_view(self.nodes@);
            let (nn, ch) = pass_nodes_x(&self.nodes, table, 0);
            proof {
                if !ch {
                    lemma_fixpoint_nodes(prev, table.comps@, 0);
                    assert(prev.subrange(0, prev.len() as int) =~= prev);
                }
                if pass_nodes(orig, table.comps@, 0).1 == false {
                    lemma_fixpoint_nodes(orig, table.comps@, 0);
                    assert(orig.subrange(0, orig.len() as int) =~= orig);
                }
            }
            self.nodes = nn;
            changed = ch;
            budget = budget - 1;
        }
        let converged = !changed;
        proof {
            let fin = nodes_view(self.nodes@);
            if converged {
                lemma_fixpoint_nodes(fin, table.comps@, 0);
                assert(fin.subrange(0, fin.len() as int) =~= fin);
            }
        }
        converged
    }
}

// --- Lazily parsed components ---------------------------------------------------------

/// A component whose source is kept raw and parsed once, on first use; the
/// parsed form is cached. Embedded icon components are held this way so that
/// only the icons a page refers to are ever parsed.
pub struct LazyComponent {
    raw: Vec<u8>,
    component: Option<Component>,
}

/// The component's raw source.
pub closed spec fn lazy_raw(l: LazyComponent) -> Seq<u8> {
    l.raw@
}

/// The cache, when filled, holds exactly what the raw source parses to.
pub closed spec fn lazy_wf(l: LazyComponent) -> bool {
    l.component matches Some(c) ==> crate::parse::sp_component(l.raw@) == Some(elem_view(c.root))
}

impl LazyComponent {
    /// Wrap a raw source without parsing it.
    pub fn new(raw: Vec<u8>) -> (r: LazyComponent)
        ensures
            lazy_wf(r),
            lazy_raw(r) == raw@,
    {
        LazyComponent { raw, component: None }
    }

    /// Parse and cache the component if that has not happened yet; the
    /// result says whether the source parses.
    pub fn ensure_parsed(&mut self) -> (ok: bool)
        requires
            lazy_wf(*old(self)),
        ensures
            lazy_wf(*final(self)),
            lazy_raw(*final(self)) == lazy_raw(*old(self)),
            ok == (crate::parse::sp_component(lazy_raw(*old(self))) is Some),
            ok ==> lazy_cached(*final(self)),
    {
        match &self.component {
            Some(_) => true,
            None => match Component::new(&self.raw) {
                Ok(c) => {
                    self.component = Some(c);
                    true
                },
                Err(_) => false,
            },
        }
    }

    /// Whether the parsed form is cached.
    pub closed spec fn spec_cached(self) -> bool {
        self.component is Some
    }

    /// The cached component.
    pub fn component(&self) -> (r: Option<&Component>)
        requires
            lazy_wf(*self),
        ensures
            match r {
                Some(c) => crate::parse::sp_component(lazy_raw(*self)) == Some(elem_view(c.root)),
                None => !lazy_cached(*self),
            },
    {
        match &self.component {
            Some(c) => Some(c),
            None => None,
        }
    }
}

pub open spec fn lazy_cached(l: LazyComponent) -> bool {
    l.spec_cached()
}

/// A table of lazy components, looked up by name.
pub struct LazyComponents {
    entries: Vec<(Vec<u8>, LazyComponent)>,
}

pub closed spec fn lcs_wf(t: LazyComponents) -> bool {
    forall|i: int| 0 <= i < t.entries@.len() ==> lazy_wf((#[trigger] t.entries@[i]).1)
}

/// The registered entries: each name with its raw source, in registration
/// order.
pub closed spec fn lcs_entries(t: LazyComponents) -> Seq<(Seq<u8>, Seq<u8>)> {
    Seq::new(t.entries@.len(), |i: int| (t.entries@[i].0@, lazy_raw(t.entries@[i].1)))
}

/// The raw source a lookup resolves `name` to: that of the first entry
/// registered under the name.
pub open spec fn lcs_lookup(entries: Seq<(Seq<u8>, Seq<u8>)>, i: int, name: Seq<u8>) -> Option<
    Seq<u8>,
>
    decreases entries.len() - i,
{
    if i < 0 || i >= entries.len() {
        None
    } else if entries[i].0 == name {
        Some(entries[i].1)
    } else {
        lcs_lookup(entries, i + 1, name)
    }
}

impl LazyComponents {
    /// An empty table.
    pub fn new() -> (r: LazyComponents)
        ensures
            lcs_wf(r),
            lcs_entries(r) == Seq::<(Seq<u8>, Seq<u8>)>::empty(),
    {
        let r = LazyComponents { entries: Vec::new() };
        proof {
            assert(lcs_entries(r) =~= Seq::<(Seq<u8>, Seq<u8>)>::empty());
        }
        r
    }

    /// Register a raw component source under a name. An earlier entry of the
    /// same name keeps precedence on lookup.
    pub fn register(&mut self, name: Vec<u8>, raw: Vec<u8>)
        requires
            lcs_wf(*old(self)),
        ensures
            lcs_wf(*final(self)),
            lcs_entries(*final(self)) == lcs_entries(*old(self)).push((name@, raw@)),
    {
        let ghost nv = name@;
        let ghost rv = raw@;
        let lc = LazyComponent::new(raw);
        let ghost e0 = self.entries@;
        self.entries.push((name, lc));
        proof {
            assert forall|i: int| 0 <= i < self.entries@.len() implies lazy_wf(
                (#[trigger] self.entries@[i]).1,
            ) by {
                if i < e0.len() {
                    assert(self.entries@[i] == e0[i]);
                }
            }
            assert(lcs_entries(*self) =~= lcs_entries(*old(self)).push((nv, rv))) by {
                assert forall|i: int| 0 <= i < self.entries@.len() implies lcs_entries(*self)[i]
                    == lcs_entries(*old(self)).push((nv, rv))[i] by {
                    if i < e0.len() {
                        assert(self.entries@[i] == e0[i]);
                    }
                }
            }
        }
    }

    /// Look a name up, parsing the matched component on first use and caching
    /// it. The result is the parsed component of the first entry registered
    /// under `name`; it is nothing exactly when no entry carries the name or
    /// the matched entry's source does not parse. The table's entries and
    /// their order are unchanged.
    pub fn get(&mut self, name: &Vec<u8>) -> (r: Option<&Component>)
        requires
            lcs_wf(*old(self)),
        ensures
            lcs_wf(*final(self)),
            lcs_entries(*final(self)) == lcs_entries(*old(self)),
            match r {
                Some(c) => lcs_lookup(lcs_entries(*old(self)), 0, name@) matches Some(raw)
                    && crate::parse::sp_component(raw) == Some(elem_view(c.root)),
                None => match lcs_lookup(lcs_entries(*old(self)), 0, name@) {
                    Some(raw) => crate::parse::sp_component(raw) is None,
                    None => true,
                },
            },
    {
        let ghost ent = lcs_entries(*old(self));
        let n = self.entries.len();
        let mut idx = n;
        let mut i: usize = 0;
        while i < n
            invariant
                i <= n,
                idx <= n,
                n == self.entries@.len(),
                self.entries@ == old(self).entries@,
                ent == lcs_entries(*self),
                idx == n ==> lcs_lookup(ent, 0, name@) == lcs_lookup(ent, i as int, name@),
                idx < n ==> ent[idx as int].0 == name@ && lcs_lookup(ent, 0, name@) == Some(
                    ent[idx as int].1,
                ),
            decreases n - i,
        {
            if idx == n && vec_eq(&self.entries[i].0, name) {
                idx = i;
            }
            i = i + 1;
        }
        if idx == n {
            proof {
                assert(lcs_lookup(ent, 0, name@) is None);
            }
            return None;
        }
        let mut entry = self.entries.remove(idx);
        proof {
            assert(self.entries@ == old(self).entries@.remove(idx as int));
            assert(entry == old(self).entries@[idx as int]);
            assert(lazy_wf(entry.1));
            assert(lazy_raw(entry.1) == ent[idx as int].1);
            assert(entry.0@ == ent[idx as int].0);
        }
        let ghost e1 = self.entries@;
        let ok = entry.1.ensure_parsed();
        self.entries.insert(idx, entry);
        proof {
            assert forall|t: int| 0 <= t < self.entries@.len() implies lazy_wf(
                (#[trigger] self.entries@[t]).1,
            ) && (self.entries@[t].0@, lazy_raw(self.entries@[t].1)) == ent[t] by {
                if t < idx {
                    assert(self.entries@[t] == e1[t]);
                    assert(e1[t] == old(self).entries@[t]);
                } else if t > idx {
                    assert(self.entries@[t] == e1[t - 1]);
                    assert(e1[t - 1] == old(self).entries@[t]);
                }
            }
            assert(lcs_entries(*self) =~= ent);
        }
        if ok {
            self.entries[idx].1.component()
        } else {
            None
        }
    }
}

} // verus!

