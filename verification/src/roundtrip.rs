//! The round-trip identity: serializing a parsed, unmodified markup tree and
//! re-parsing it yields the original tree.
//!
//! The identity holds for trees free of the constructs that serialization
//! cannot represent faithfully: comments (which are dropped on output),
//! raw-text and void element names (whose bodies follow other rules), text
//! runs that are empty, hold a `<` or stand next to another text run, and
//! attribute values holding a quote or ending in a backslash. Whitespace
//! inside a tag is already canonical in a parsed tree, so no further
//! allowance is needed.

use vstd::prelude::*;

use crate::element::AttrV;
use crate::element::ElemV;
use crate::element::NodeV;
use crate::element::ser_attr;
use crate::element::ser_attrs;
use crate::element::ser_elem;
use crate::element::ser_node;
use crate::element::ser_nodes;
use crate::parse::SpRes;
use crate::parse::is_alpha;
use crate::parse::is_ident_byte;
use crate::parse::is_space;
use crate::parse::is_raw_text_name;
use crate::parse::is_void_name;
use crate::parse::ident_end;
use crate::parse::string_end;
use crate::parse::skip_ws;
use crate::parse::sp_ident;
use crate::parse::sp_attr;
use crate::parse::sp_attrs;
use crate::parse::sp_closing;
use crate::parse::sp_element;
use crate::parse::sp_node;
use crate::parse::sp_nodes;
use crate::parse::sp_document;

verus! {

broadcast use vstd::std_specs::vec::group_vec_axioms, vstd::seq::group_seq_axioms;

// --- What round-trips --------------------------------------------------------

pub open spec fn rt_ident(n: Seq<u8>) -> bool {
    n.len() > 0 && is_alpha(n[0]) && forall|k: int| 0 <= k < n.len() ==> is_ident_byte(#[trigger] n[k])
}

pub open spec fn rt_text(t: Seq<u8>) -> bool {
    t.len() > 0 && forall|k: int| 0 <= k < t.len() ==> (#[trigger] t[k]) != 60
}

pub open spec fn rt_value(v: Seq<u8>) -> bool {
    (forall|k: int| 0 <= k < v.len() ==> (#[trigger] v[k]) != 34) && (v.len() > 0 ==> v[v.len()
        - 1] != 92)
}

pub open spec fn rt_attr(a: AttrV) -> bool {
    rt_ident(a.name) && match a.value {
        Some(v) => rt_value(v),
        None => true,
    }
}

pub open spec fn rt_attrs(attrs: Seq<AttrV>) -> bool {
    forall|k: int| 0 <= k < attrs.len() ==> rt_attr(#[trigger] attrs[k])
}

pub open spec fn rt_elem(e: ElemV) -> bool
    decreases e, 1int,
{
    rt_ident(e.name) && !is_raw_text_name(e.name) && !is_void_name(e.name) && rt_attrs(
        e.attributes,
    ) && rt_nodes(e.children)
}

pub open spec fn rt_node(n: NodeV) -> bool
    decreases n, 2int,
{
    match n {
        NodeV::Text(t) => rt_text(t),
        NodeV::Comment(_) => false,
        NodeV::Element(e) => rt_elem(e),
    }
}

pub open spec fn rt_nodes(ns: Seq<NodeV>) -> bool
    decreases ns, 0int,
{
    if ns.len() == 0 {
        true
    } else {
        rt_node(ns[0]) && !(ns[0] is Text && ns.len() > 1 && ns[1] is Text) && rt_nodes(
            ns.drop_first(),
        )
    }
}

/// What a parsed document that round-trips looks like.
pub open spec fn rt_doc(ns: Seq<NodeV>) -> bool {
    rt_nodes(ns)
}

// --- Segment helpers -----------------------------------------------------------

/// A byte segment of `s` holding exactly `a`.
pub open spec fn seg(s: Seq<u8>, i: int, a: Seq<u8>) -> bool {
    0 <= i && i + a.len() <= s.len() && s.subrange(i, i + a.len() as int) == a
}

pub proof fn lemma_seg_split(s: Seq<u8>, i: int, a: Seq<u8>, b: Seq<u8>)
    requires
        seg(s, i, a + b),
    ensures
        seg(s, i, a),
        seg(s, i + a.len(), b),
{
    assert(s.subrange(i, i + a.len() as int) =~= a) by {
        assert forall|k: int| 0 <= k < a.len() implies s.subrange(i, i + a.len() as int)[k] == a[k]
            by {
            assert(s.subrange(i, i + (a + b).len() as int)[k] == (a + b)[k]);
        }
    }
    assert(s.subrange(i + a.len(), i + a.len() + b.len() as int) =~= b) by {
        assert forall|k: int| 0 <= k < b.len() implies s.subrange(
            i + a.len(),
            i + a.len() + b.len() as int,
        )[k] == b[k] by {
            assert(s.subrange(i, i + (a + b).len() as int)[k + a.len()] == (a + b)[k + a.len()]);
        }
    }
}

pub proof fn lemma_seg_byte(s: Seq<u8>, i: int, a: Seq<u8>, k: int)
    requires
        seg(s, i, a),
        0 <= k < a.len(),
    ensures
        s[i + k] == a[k],
{
    assert(s.subrange(i, i + a.len() as int)[k] == a[k]);
}

// --- Scanner behavior on serialized segments --------------------------------------

pub proof fn lemma_ident_scan(s: Seq<u8>, i: int, j: int)
    requires
        0 <= i <= j <= s.len(),
        forall|k: int| i <= k < j ==> is_ident_byte(#[trigger] s[k]),
        j == s.len() || !is_ident_byte(s[j]),
    ensures
        ident_end(s, i) == j,
    decreases j - i,
{
    if i < j {
        lemma_ident_scan(s, i + 1, j);
    }
}

pub proof fn lemma_string_scan(s: Seq<u8>, i: int, j: int, last: u8)
    requires
        0 <= i <= j < s.len(),
        forall|k: int| i <= k < j ==> (#[trigger] s[k]) != 34,
        s[j] == 34,
        i == j ==> last != 92,
        i < j ==> s[j - 1] != 92,
    ensures
        string_end(s, i, last) == j,
    decreases j - i,
{
    if i < j {
        lemma_string_scan(s, i + 1, j, s[i]);
    }
}

pub proof fn lemma_skip_ws_stop(s: Seq<u8>, i: int)
    requires
        0 <= i,
        i == s.len() || !is_space(s[i]),
    ensures
        skip_ws(s, i) == i,
{
}

pub proof fn lemma_find_lt_scan(s: Seq<u8>, i: int, j: int)
    requires
        0 <= i <= j < s.len(),
        forall|k: int| i <= k < j ==> (#[trigger] s[k]) != 60,
        s[j] == 60,
    ensures
        crate::parse::find_lt(s, i) == Some(j),
    decreases j - i,
{
    if i < j {
        lemma_find_lt_scan(s, i + 1, j);
    }
}

pub proof fn lemma_find_lt_none(s: Seq<u8>, i: int)
    requires
        0 <= i <= s.len(),
        forall|k: int| i <= k < s.len() ==> (#[trigger] s[k]) != 60,
    ensures
        crate::parse::find_lt(s, i) is None,
    decreases s.len() - i,
{
    if i < s.len() {
        lemma_find_lt_none(s, i + 1);
    }
}

/// The serialized form of an element begins with `<` and is never empty.
pub proof fn lemma_ser_elem_head(e: ElemV)
    requires
        e.name.len() > 0,
    ensures
        ser_elem(e).len() >= 4,
        ser_elem(e)[0] == 60,
        ser_elem(e)[1] == e.name[0],
{
    assert(ser_attrs(e.attributes).len() >= 0);
    if e.children.len() == 0 {
        assert(ser_elem(e)[0] == 60);
        assert(ser_elem(e)[1] == e.name[0]);
    } else {
        assert(ser_elem(e)[0] == 60);
        assert(ser_elem(e)[1] == e.name[0]);
    }
}

/// Parsing one serialized attribute, after its leading space.
pub proof fn lemma_attr_rt(s: Seq<u8>, i: int, a: AttrV)
    requires
        rt_attr(a),
        seg(s, i, ser_attr(a)),
        ({
            let p = i + ser_attr(a).len();
            p < s.len() && (a.value is None ==> (s[p] == 47 || s[p] == 62 || (s[p] == 32 && p + 1
                < s.len() && is_alpha(s[p + 1]))))
        }),
    ensures
        sp_attr(s, i + 1) == SpRes::<AttrV>::Val(a, i + ser_attr(a).len()),
{
    let p = i + ser_attr(a).len();
    let name = a.name;
    let j = i + 1 + name.len();
    assert(seg(s, i + 1, name)) by {
        match a.value {
            Some(v) => {
                assert(ser_attr(a) =~= seq![32u8] + (name + (seq![61u8, 34u8] + v + seq![34u8])));
                lemma_seg_split(s, i, seq![32u8], name + (seq![61u8, 34u8] + v + seq![34u8]));
                lemma_seg_split(s, i + 1, name, seq![61u8, 34u8] + v + seq![34u8]);
            },
            None => {
                assert(ser_attr(a) =~= seq![32u8] + name);
                lemma_seg_split(s, i, seq![32u8], name);
            },
        }
    }
    // the identifier scan stops exactly at the end of the name
    assert forall|k: int| i + 1 <= k < j implies is_ident_byte(#[trigger] s[k]) by {
        lemma_seg_byte(s, i + 1, name, k - (i + 1));
    }
    match a.value {
        Some(v) => {
            assert(ser_attr(a) =~= seq![32u8] + (name + (seq![61u8, 34u8] + v + seq![34u8])));
            lemma_seg_split(s, i, seq![32u8], name + (seq![61u8, 34u8] + v + seq![34u8]));
            lemma_seg_split(s, i + 1, name, seq![61u8, 34u8] + v + seq![34u8]);
            assert(seq![61u8, 34u8] + v + seq![34u8] =~= seq![61u8, 34u8] + (v + seq![34u8]));
            lemma_seg_split(s, j, seq![61u8, 34u8], v + seq![34u8]);
            lemma_seg_split(s, j + 2, v, seq![34u8]);
            lemma_seg_byte(s, j, seq![61u8, 34u8], 0);
            lemma_seg_byte(s, j, seq![61u8, 34u8], 1);
            lemma_seg_byte(s, j + 2 + v.len(), seq![34u8], 0);
            assert(s[j] == 61);
            lemma_ident_scan(s, i + 1, j);
            lemma_seg_byte(s, i + 1, name, 0);
            assert(sp_ident(s, i + 1) == SpRes::<Seq<u8>>::Val(s.subrange(i + 1, j), j));
            assert(s.subrange(i + 1, j) == name);
            lemma_skip_ws_stop(s, j);
            lemma_skip_ws_stop(s, j + 1);
            // the quoted value ends at its closing quote
            assert forall|k: int| j + 2 <= k < j + 2 + v.len() implies (#[trigger] s[k]) != 34 by {
                lemma_seg_byte(s, j + 2, v, k - (j + 2));
            }
            if v.len() > 0 {
                lemma_seg_byte(s, j + 2, v, v.len() - 1);
            }
            lemma_string_scan(s, j + 2, j + 2 + v.len(), 34);
            assert(s.subrange(j + 2, j + 2 + v.len() as int) == v);
            assert(sp_attr(s, i + 1) =~= SpRes::<AttrV>::Val(a, p));
        },
        None => {
            assert(ser_attr(a) =~= seq![32u8] + name);
            lemma_seg_split(s, i, seq![32u8], name);
            assert(p == j);
            assert(!is_ident_byte(s[j]));
            lemma_ident_scan(s, i + 1, j);
            lemma_seg_byte(s, i + 1, name, 0);
            assert(sp_ident(s, i + 1) == SpRes::<Seq<u8>>::Val(s.subrange(i + 1, j), j));
            assert(s.subrange(i + 1, j) == name);
            let k = skip_ws(s, j);
            if s[j] == 32 {
                lemma_skip_ws_stop(s, j + 1);
                assert(k == j + 1);
                assert(s[k] != 61);
            } else {
                lemma_skip_ws_stop(s, j);
                assert(k == j);
                assert(s[k] != 61);
            }
            assert(sp_attr(s, i + 1) =~= SpRes::<AttrV>::Val(a, p));
        },
    }
}

/// Parsing a serialized attribute list.
pub proof fn lemma_attrs_rt(s: Seq<u8>, i: int, attrs: Seq<AttrV>)
    requires
        rt_attrs(attrs),
        seg(s, i, ser_attrs(attrs)),
        ({
            let p = i + ser_attrs(attrs).len();
            p < s.len() && (s[p] == 47 || s[p] == 62)
        }),
    ensures
        sp_attrs(s, i) == SpRes::<Seq<AttrV>>::Val(attrs, i + ser_attrs(attrs).len()),
    decreases attrs.len(),
{
    let p = i + ser_attrs(attrs).len();
    if attrs.len() == 0 {
        assert(p == i);
        lemma_skip_ws_stop(s, i);
        assert(sp_ident(s, i) is Back);
        assert(sp_attr(s, i) is Back);
        assert(sp_attrs(s, i) =~= SpRes::<Seq<AttrV>>::Val(attrs, p));
    } else {
        let a0 = attrs[0];
        let rest = attrs.drop_first();
        assert(rt_attr(a0));
        assert(ser_attrs(attrs) == ser_attr(a0) + ser_attrs(rest));
        lemma_seg_split(s, i, ser_attr(a0), ser_attrs(rest));
        let p0 = i + ser_attr(a0).len();
        // the context byte after this attribute
        assert(a0.value is None ==> (s[p0] == 47 || s[p0] == 62 || (s[p0] == 32 && p0 + 1
            < s.len() && is_alpha(s[p0 + 1])))) by {
            if rest.len() > 0 {
                assert(ser_attrs(rest) == ser_attr(rest[0]) + ser_attrs(rest.drop_first()));
                lemma_seg_split(s, p0, ser_attr(rest[0]), ser_attrs(rest.drop_first()));
                assert(rt_attr(rest[0]));
                match rest[0].value {
                    Some(v) => {
                        lemma_seg_byte(s, p0, ser_attr(rest[0]), 0);
                        lemma_seg_byte(s, p0, ser_attr(rest[0]), 1);
                        assert(ser_attr(rest[0])[0] == 32);
                        assert(ser_attr(rest[0])[1] == rest[0].name[0]);
                    },
                    None => {
                        assert(ser_attr(rest[0]) =~= seq![32u8] + rest[0].name);
                        lemma_seg_byte(s, p0, ser_attr(rest[0]), 0);
                        lemma_seg_byte(s, p0, ser_attr(rest[0]), 1);
                    },
                }
            }
        }
        lemma_attr_rt(s, i, a0);
        // the list scan starts by skipping this attribute's leading space
        lemma_seg_byte(s, i, ser_attr(a0), 0);
        lemma_seg_byte(s, i, ser_attr(a0), 1);
        assert(ser_attr(a0)[0] == 32);
        assert(ser_attr(a0)[1] == a0.name[0]);
        lemma_skip_ws_stop(s, i + 1);
        assert(skip_ws(s, i) == i + 1);
        lemma_attrs_rt(s, p0, rest);
        assert(seq![a0] + rest =~= attrs);
        assert(sp_attrs(s, i) =~= SpRes::<Seq<AttrV>>::Val(attrs, p));
    }
}

/// Parsing a serialized closing tag.
pub proof fn lemma_closing_rt(s: Seq<u8>, i: int, name: Seq<u8>)
    requires
        rt_ident(name),
        seg(s, i, seq![60u8, 47u8] + name + seq![62u8]),
    ensures
        sp_closing(s, i, name) == Some(i + name.len() + 3),
{
    assert(seq![60u8, 47u8] + name + seq![62u8] =~= seq![60u8, 47u8] + (name + seq![62u8]));
    lemma_seg_split(s, i, seq![60u8, 47u8], name + seq![62u8]);
    lemma_seg_split(s, i + 2, name, seq![62u8]);
    lemma_seg_byte(s, i, seq![60u8, 47u8], 0);
    lemma_seg_byte(s, i, seq![60u8, 47u8], 1);
    lemma_seg_byte(s, i + 2, name, 0);
    lemma_seg_byte(s, i + 2 + name.len(), seq![62u8], 0);
    lemma_skip_ws_stop(s, i + 2);
    lemma_skip_ws_stop(s, i + 2 + name.len());
    assert(s.subrange(i + 2, i + 2 + name.len() as int) == name);
}

/// Parsing one serialized element yields it back.
#[verifier::rlimit(100)]
pub proof fn lemma_elem_rt(s: Seq<u8>, i: int, e: ElemV)
    requires
        rt_elem(e),
        seg(s, i, ser_elem(e)),
    ensures
        sp_element(s, i) == SpRes::<ElemV>::Val(e, i + ser_elem(e).len()),
    decreases e, 0int,
{
    let p = i + ser_elem(e).len();
    let name = e.name;
    let attrs = e.attributes;
    let n1 = i + 1 + name.len();
    let n2 = n1 + ser_attrs(attrs).len();
    if e.children.len() == 0 {
        assert(ser_elem(e) =~= seq![60u8] + (name + (ser_attrs(attrs) + seq![47u8, 62u8])));
        lemma_seg_split(s, i, seq![60u8], name + (ser_attrs(attrs) + seq![47u8, 62u8]));
        lemma_seg_split(s, i + 1, name, ser_attrs(attrs) + seq![47u8, 62u8]);
        lemma_seg_split(s, n1, ser_attrs(attrs), seq![47u8, 62u8]);
        lemma_seg_byte(s, i, seq![60u8], 0);
        lemma_seg_byte(s, n2, seq![47u8, 62u8], 0);
        lemma_seg_byte(s, n2, seq![47u8, 62u8], 1);
        assert forall|k: int| i + 1 <= k < n1 implies is_ident_byte(#[trigger] s[k]) by {
            lemma_seg_byte(s, i + 1, name, k - (i + 1));
        }
        assert(!is_ident_byte(s[n1])) by {
            if attrs.len() > 0 {
                assert(ser_attrs(attrs) == ser_attr(attrs[0]) + ser_attrs(attrs.drop_first()));
                lemma_seg_split(s, n1, ser_attr(attrs[0]), ser_attrs(attrs.drop_first()));
                lemma_seg_byte(s, n1, ser_attr(attrs[0]), 0);
                assert(ser_attr(attrs[0])[0] == 32);
            }
        }
        lemma_ident_scan(s, i + 1, n1);
        lemma_seg_byte(s, i + 1, name, 0);
        assert(sp_ident(s, i + 1) == SpRes::<Seq<u8>>::Val(s.subrange(i + 1, n1), n1));
        assert(s.subrange(i + 1, n1) == name);
        lemma_attrs_rt(s, n1, attrs);
        lemma_skip_ws_stop(s, n2);
        assert(e.children =~= Seq::<NodeV>::empty());
        assert(sp_element(s, i) =~= SpRes::<ElemV>::Val(e, p));
    } else {
        let children = e.children;
        let tail = seq![60u8, 47u8] + (name + seq![62u8]);
        assert(ser_elem(e) =~= seq![60u8] + (name + (ser_attrs(attrs) + (seq![62u8] + (ser_nodes(
            children,
        ) + tail)))));
        lemma_seg_split(
            s,
            i,
            seq![60u8],
            name + (ser_attrs(attrs) + (seq![62u8] + (ser_nodes(children) + tail))),
        );
        lemma_seg_split(s, i + 1, name, ser_attrs(attrs) + (seq![62u8] + (ser_nodes(children)
            + tail)));
        lemma_seg_split(s, n1, ser_attrs(attrs), seq![62u8] + (ser_nodes(children) + tail));
        lemma_seg_split(s, n2, seq![62u8], ser_nodes(children) + tail);
        lemma_seg_split(s, n2 + 1, ser_nodes(children), tail);
        let c_end = n2 + 1 + ser_nodes(children).len();
        lemma_seg_byte(s, i, seq![60u8], 0);
        lemma_seg_byte(s, n2, seq![62u8], 0);
        lemma_seg_byte(s, c_end, tail, 0);
        lemma_seg_byte(s, c_end, tail, 1);
        assert forall|k: int| i + 1 <= k < n1 implies is_ident_byte(#[trigger] s[k]) by {
            lemma_seg_byte(s, i + 1, name, k - (i + 1));
        }
        assert(!is_ident_byte(s[n1])) by {
            if attrs.len() > 0 {
                assert(ser_attrs(attrs) == ser_attr(attrs[0]) + ser_attrs(attrs.drop_first()));
                lemma_seg_split(s, n1, ser_attr(attrs[0]), ser_attrs(attrs.drop_first()));
                lemma_seg_byte(s, n1, ser_attr(attrs[0]), 0);
                assert(ser_attr(attrs[0])[0] == 32);
            }
        }
        lemma_ident_scan(s, i + 1, n1);
        lemma_seg_byte(s, i + 1, name, 0);
        assert(sp_ident(s, i + 1) == SpRes::<Seq<u8>>::Val(s.subrange(i + 1, n1), n1));
        assert(s.subrange(i + 1, n1) == name);
        lemma_attrs_rt(s, n1, attrs);
        lemma_skip_ws_stop(s, n2);
        assert(s[n2] == 62 && s[n2] != 47);
        lemma_nodes_rt(s, n2 + 1, children);
        lemma_skip_ws_stop(s, c_end);
        assert(seq![60u8, 47u8] + name + seq![62u8] =~= tail);
        lemma_closing_rt(s, c_end, name);
        assert(c_end + name.len() + 3 == p);
        assert(sp_element(s, i) =~= SpRes::<ElemV>::Val(e, p));
    }
}

/// Parsing a serialized sibling list yields it back, given that the list is
/// followed by a closing tag or the end of input.
pub proof fn lemma_nodes_rt(s: Seq<u8>, i: int, ns: Seq<NodeV>)
    requires
        rt_nodes(ns),
        seg(s, i, ser_nodes(ns)),
        ({
            let p = i + ser_nodes(ns).len();
            p == s.len() || (p + 2 <= s.len() && s[p] == 60 && s[p + 1] == 47)
        }),
    ensures
        sp_nodes(s, i) == SpRes::<Seq<NodeV>>::Val(ns, i + ser_nodes(ns).len()),
    decreases ns, 1int,
{
    let p = i + ser_nodes(ns).len();
    if ns.len() == 0 {
        assert(p == i);
        if i < s.len() {
            assert(s[i] == 60 && s[i + 1] == 47);
            if i + 4 <= s.len() && s.subrange(i, i + 4) == crate::parse::comment_open() {
                assert(s.subrange(i, i + 4)[1] == 33);
                assert(false);
            }
            assert(!is_alpha(47u8));
            assert(sp_ident(s, i + 1) is Back);
            assert(sp_element(s, i) is Back);
            assert(sp_node(s, i) is Back);
        }
        assert(sp_nodes(s, i) =~= SpRes::<Seq<NodeV>>::Val(ns, p));
    } else {
        let rest = ns.drop_first();
        assert(ser_nodes(ns) == ser_node(ns[0]) + ser_nodes(rest));
        lemma_seg_split(s, i, ser_node(ns[0]), ser_nodes(rest));
        let q = i + ser_node(ns[0]).len();
        match ns[0] {
            NodeV::Text(t) => {
                assert(ser_node(ns[0]) == t);
                assert(rt_node(ns[0]));
                assert(rt_text(t));
                assert forall|k: int| i <= k < q implies (#[trigger] s[k]) != 60 by {
                    lemma_seg_byte(s, i, t, k - i);
                    assert(t[k - i] != 60);
                }
                let at_eof = rest.len() == 0 && p == s.len();
                assert(at_eof || (q < s.len() && s[q] == 60)) by {
                    if rest.len() > 0 {
                        assert(rt_nodes(rest));
                        assert(rest[0] == ns[1]);
                        assert(rt_node(rest[0]));
                        assert(!(ns[1] is Text));
                        assert(!(rest[0] is Comment));
                        assert(rest[0] is Element);
                        let e1 = rest[0]->Element_0;
                        assert(rt_elem(e1));
                        assert(rt_ident(e1.name));
                        assert(ser_nodes(rest) == ser_node(rest[0]) + ser_nodes(
                            rest.drop_first(),
                        ));
                        lemma_seg_split(s, q, ser_node(rest[0]), ser_nodes(rest.drop_first()));
                        lemma_ser_elem_head(e1);
                        assert(ser_node(rest[0]) == ser_elem(e1));
                        lemma_seg_byte(s, q, ser_node(rest[0]), 0);
                    } else {
                        assert(q == p);
                    }
                }
                if at_eof {
                    lemma_find_lt_none(s, i);
                } else {
                    lemma_find_lt_scan(s, i, q);
                }
                assert(s.subrange(i, q) == t);
                assert(sp_node(s, i) == SpRes::<NodeV>::Val(NodeV::Text(t), q));
                lemma_nodes_rt(s, q, rest);
                assert(seq![ns[0]] + rest =~= ns);
                assert(sp_nodes(s, i) =~= SpRes::<Seq<NodeV>>::Val(ns, p));
            },
            NodeV::Element(e) => {
                assert(ser_node(ns[0]) == ser_elem(e));
                assert(rt_node(ns[0]));
                assert(rt_elem(e));
                assert(rt_ident(e.name));
                lemma_ser_elem_head(e);
                lemma_seg_byte(s, i, ser_elem(e), 0);
                lemma_seg_byte(s, i, ser_elem(e), 1);
                assert(s[i] == 60);
                assert(is_alpha(s[i + 1]));
                if i + 4 <= s.len() && s.subrange(i, i + 4) == crate::parse::comment_open() {
                    assert(crate::parse::comment_open()[1] == 33);
                    assert(s.subrange(i, i + 4)[1] == s[i + 1]);
                    assert(s[i + 1] == 33);
                    assert(!is_alpha(33u8));
                    assert(false);
                }
                lemma_elem_rt(s, i, e);
                assert(sp_node(s, i) == SpRes::<NodeV>::Val(NodeV::Element(e), q));
                lemma_nodes_rt(s, q, rest);
                assert(seq![ns[0]] + rest =~= ns);
                assert(sp_nodes(s, i) =~= SpRes::<Seq<NodeV>>::Val(ns, p));
            },
            NodeV::Comment(_) => {
                assert(rt_node(ns[0]));
                assert(false);
            },
        }
    }
}

/// The round-trip identity: serializing a well-formed parsed tree and
/// re-parsing the result yields the original tree.
pub proof fn lemma_round_trip(ns: Seq<NodeV>)
    requires
        rt_doc(ns),
    ensures
        sp_document(ser_nodes(ns)) == Some(ns),
{
    let s = ser_nodes(ns);
    assert(s.subrange(0, s.len() as int) =~= s);
    assert(seg(s, 0, ser_nodes(ns)));
    lemma_nodes_rt(s, 0, ns);
    lemma_skip_ws_stop(s, s.len() as int);
}

// --- Parsed trees satisfy the round-trip conditions ----------------------------------

/// The structure the parser itself guarantees: names are identifiers, text
/// runs are nonempty and free of `<`, and no two text runs are adjacent.
/// (The body of a raw-text element is unconstrained, and an attribute value
/// may hold an escaped quote; those are the announced edge cases.)
pub open spec fn pw_attrs(attrs: Seq<AttrV>) -> bool {
    forall|k: int| 0 <= k < attrs.len() ==> rt_ident((#[trigger] attrs[k]).name)
}

pub open spec fn pw_elem(e: ElemV) -> bool
    decreases e, 1int,
{
    rt_ident(e.name) && pw_attrs(e.attributes) && (is_raw_text_name(e.name) || pw_nodes(
        e.children,
    ))
}

pub open spec fn pw_node(n: NodeV) -> bool
    decreases n, 2int,
{
    match n {
        NodeV::Text(t) => rt_text(t),
        NodeV::Comment(_) => true,
        NodeV::Element(e) => pw_elem(e),
    }
}

pub open spec fn pw_nodes(ns: Seq<NodeV>) -> bool
    decreases ns, 0int,
{
    if ns.len() == 0 {
        true
    } else {
        pw_node(ns[0]) && !(ns[0] is Text && ns.len() > 1 && ns[1] is Text) && pw_nodes(
            ns.drop_first(),
        )
    }
}

/// What the round-trip statement must leave out: comments (dropped on
/// output), raw-text and void element names, and attribute values holding a
/// quote or ending in a backslash.
pub open spec fn edge_free_attrs(attrs: Seq<AttrV>) -> bool {
    forall|k: int| 0 <= k < attrs.len() ==> match (#[trigger] attrs[k]).value {
        Some(v) => rt_value(v),
        None => true,
    }
}

pub open spec fn edge_free_node(n: NodeV) -> bool
    decreases n, 1int,
{
    match n {
        NodeV::Text(_) => true,
        NodeV::Comment(_) => false,
        NodeV::Element(e) => !is_raw_text_name(e.name) && !is_void_name(e.name)
            && edge_free_attrs(e.attributes) && edge_free_nodes(e.children),
    }
}

pub open spec fn edge_free_nodes(ns: Seq<NodeV>) -> bool
    decreases ns, 0int,
{
    if ns.len() == 0 {
        true
    } else {
        edge_free_node(ns[0]) && edge_free_nodes(ns.drop_first())
    }
}

/// Parser structure plus absence of the edge cases gives the round-trip
/// conditions.
pub proof fn lemma_rt_from_parsed(ns: Seq<NodeV>)
    requires
        pw_nodes(ns),
        edge_free_nodes(ns),
    ensures
        rt_nodes(ns),
    decreases ns, 1int,
{
    if ns.len() > 0 {
        lemma_rt_from_parsed_node(ns[0]);
        lemma_rt_from_parsed(ns.drop_first());
    }
}

pub proof fn lemma_rt_from_parsed_node(n: NodeV)
    requires
        pw_node(n),
        edge_free_node(n),
    ensures
        rt_node(n),
    decreases n, 0int,
{
    match n {
        NodeV::Element(e) => {
            lemma_rt_from_parsed(e.children);
        },
        _ => {},
    }
}

pub proof fn lemma_ident_end_chars(s: Seq<u8>, i: int)
    requires
        0 <= i <= s.len(),
    ensures
        forall|k: int| i <= k < ident_end(s, i) ==> is_ident_byte(#[trigger] s[k]),
        i <= ident_end(s, i) <= s.len(),
    decreases s.len() - i,
{
    if i < s.len() && is_ident_byte(s[i]) {
        lemma_ident_end_chars(s, i + 1);
    }
}

pub proof fn lemma_sp_ident_wf(s: Seq<u8>, i: int)
    ensures
        sp_ident(s, i) matches SpRes::Val(v, k) ==> rt_ident(v),
{
    if 0 <= i < s.len() && is_alpha(s[i]) {
        lemma_ident_end_chars(s, i);
        crate::parse::lemma_ident_end(s, i);
        match sp_ident(s, i) {
            SpRes::Val(v, k) => {
                assert(v == s.subrange(i, ident_end(s, i)));
                assert(v[0] == s[i]);
                assert forall|t: int| 0 <= t < v.len() implies is_ident_byte(#[trigger] v[t]) by {
                    assert(v[t] == s[i + t]);
                }
            },
            _ => {},
        }
    }
}

pub proof fn lemma_sp_attr_wf(s: Seq<u8>, i: int)
    ensures
        sp_attr(s, i) matches SpRes::Val(a, k) ==> rt_ident(a.name),
{
    lemma_sp_ident_wf(s, i);
}

pub proof fn lemma_sp_attrs_wf(s: Seq<u8>, i: int)
    requires
        0 <= i <= s.len(),
    ensures
        sp_attrs(s, i) matches SpRes::Val(attrs, k) ==> pw_attrs(attrs),
    decreases s.len() - i,
{
    lemma_sp_attr_wf(s, skip_ws(s, i));
    crate::parse::lemma_skip_ws(s, i);
    crate::parse::lemma_sp_attr(s, skip_ws(s, i));
    match sp_attr(s, skip_ws(s, i)) {
        SpRes::Val(a, k) => {
            if k > i {
                lemma_sp_attrs_wf(s, k);
                match sp_attrs(s, k) {
                    SpRes::Val(rest, e) => {
                        assert forall|t: int|
                            0 <= t < (seq![a] + rest).len() implies rt_ident(
                            (#[trigger] (seq![a] + rest)[t]).name,
                        ) by {
                            if t > 0 {
                                assert((seq![a] + rest)[t] == rest[t - 1]);
                            }
                        }
                    },
                    _ => {},
                }
            }
        },
        _ => {},
    }
}

pub proof fn lemma_find_lt_all_chars(s: Seq<u8>, i: int)
    requires
        0 <= i <= s.len(),
    ensures
        crate::parse::find_lt(s, i) is None ==> forall|k: int|
            i <= k < s.len() ==> (#[trigger] s[k]) != 60,
    decreases s.len() - i,
{
    if i < s.len() && s[i] != 60 {
        lemma_find_lt_all_chars(s, i + 1);
    }
}

pub proof fn lemma_find_lt_chars(s: Seq<u8>, i: int)
    requires
        0 <= i <= s.len(),
    ensures
        crate::parse::find_lt(s, i) matches Some(d) ==> forall|k: int|
            i <= k < d ==> (#[trigger] s[k]) != 60,
    decreases s.len() - i,
{
    if i < s.len() && s[i] != 60 {
        lemma_find_lt_chars(s, i + 1);
    }
}

/// Everything a successful parse guarantees about its output tree, by rank:
/// an element, one node, or a node list.
pub proof fn lemma_parse_wf(s: Seq<u8>, i: int, rank: int)
    requires
        0 <= i <= s.len(),
    ensures
        rank == 0 ==> (sp_element(s, i) matches SpRes::Val(e, k) ==> pw_elem(e)),
        rank == 1 ==> (sp_node(s, i) matches SpRes::Val(n, k) ==> pw_node(n) && 0 <= i < k
            <= s.len() && (n is Text ==> k == s.len() || s[k] == 60)),
        rank >= 2 ==> (sp_nodes(s, i) matches SpRes::Val(ns, k) ==> pw_nodes(ns) && 0 <= i <= k
            <= s.len()),
    decreases s.len() - i, rank,
{
    if rank == 0 {
        if 0 <= i < s.len() && s[i] == 60 {
            lemma_sp_ident_wf(s, i + 1);
            crate::parse::lemma_sp_ident(s, i + 1);
            match sp_ident(s, i + 1) {
                SpRes::Val(name, j) => {
                    lemma_sp_attrs_wf(s, j);
                    crate::parse::lemma_sp_attrs(s, j);
                    match sp_attrs(s, j) {
                        SpRes::Val(attrs, k0) => {
                            crate::parse::lemma_skip_ws(s, k0);
                            let k = skip_ws(s, k0);
                            if k + 2 <= s.len() && s[k] == 47 && s[k + 1] == 62 {
                            } else if k < s.len() && s[k] == 62 {
                                if is_raw_text_name(name) {
                                } else if is_void_name(name) {
                                } else if k + 1 > i {
                                    lemma_parse_wf(s, k + 1, 2);
                                }
                            }
                        },
                        _ => {},
                    }
                },
                _ => {},
            }
        }
    } else if rank == 1 {
        if 0 <= i < s.len() {
            if s[i] == 60 {
                if i + 4 <= s.len() && s.subrange(i, i + 4) == crate::parse::comment_open() {
                    crate::parse::lemma_find_dashes(s, i + 4);
                } else {
                    lemma_parse_wf(s, i, 0);
                    crate::parse::lemma_grammar_bounds(s, i, 0);
                }
            } else {
                crate::parse::lemma_find_lt(s, i);
                lemma_find_lt_chars(s, i);
                lemma_find_lt_all_chars(s, i);
                match crate::parse::find_lt(s, i) {
                    Some(d) => {
                        let t = s.subrange(i, d);
                        assert(t.len() > 0);
                        assert forall|k: int| 0 <= k < t.len() implies (#[trigger] t[k]) != 60 by {
                            assert(t[k] == s[i + k]);
                        }
                    },
                    None => {
                        let t = s.subrange(i, s.len() as int);
                        assert(t.len() > 0);
                        assert forall|k: int| 0 <= k < t.len() implies (#[trigger] t[k]) != 60 by {
                            assert(t[k] == s[i + k]);
                        }
                    },
                }
            }
        }
    } else if rank >= 2 {
        lemma_parse_wf(s, i, 1);
        match sp_node(s, i) {
            SpRes::Val(n, k) => {
                if i < k <= s.len() {
                    lemma_parse_wf(s, k, 2);
                    match sp_nodes(s, k) {
                        SpRes::Val(rest, e) => {
                            let ns = seq![n] + rest;
                            assert(ns.drop_first() =~= rest);
                            assert(ns[0] == n);
                            // a text run ends at a `<`, so the node after it
                            // cannot be another text run
                            if n is Text && rest.len() > 0 {
                                crate::parse::lemma_grammar_bounds(s, k, 1);
                                match sp_node(s, k) {
                                    SpRes::Val(n2, k2) => {
                                        assert(k < s.len());
                                        assert(s[k] == 60);
                                        assert(rest[0] == n2);
                                        assert(!(n2 is Text));
                                    },
                                    _ => {
                                        assert(rest.len() == 0);
                                    },
                                }
                            }
                        },
                        _ => {},
                    }
                }
            },
            _ => {},
        }
    }
}

/// The round-trip identity for parsed documents: a successfully parsed
/// document that is free of the announced edge cases serializes back to a
/// form that parses to the very same tree.
pub proof fn lemma_parse_round_trip(s: Seq<u8>, ns: Seq<NodeV>)
    requires
        sp_document(s) == Some(ns),
        edge_free_nodes(ns),
    ensures
        sp_document(ser_nodes(ns)) == Some(ns),
{
    lemma_parse_wf(s, 0, 2);
    match sp_nodes(s, 0) {
        SpRes::Val(ns2, k) => {
            assert(ns2 == ns);
            lemma_rt_from_parsed(ns);
            lemma_round_trip(ns);
        },
        _ => {
            assert(false);
        },
    }
}

} // verus!
