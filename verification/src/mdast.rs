//! The markdown parser, combinator form: a recursive descent over the whole
//! input producing an ordered tree of block and inline nodes that reference
//! copies of slices of the source.
//!
//! Top-level dispatch is on the first byte of each block: `-` starts YAML
//! frontmatter, `<` delegates to the markup parser, a backtick or tilde
//! fence starts a code block, `$$` a display-math block, `#` a heading, and
//! anything else a paragraph. A candidate construct that does not match
//! declines and the next alternative is tried; a construct that began with a
//! committing token but cannot complete (an unterminated fence) fails the
//! whole parse.

use vstd::prelude::*;

use crate::element::ElemV;
use crate::element::Element;
use crate::element::append_bytes;
use crate::element::subrange_vec;
use crate::parse::ParseError;
use crate::parse::Parsed;
use crate::parse::SpRes;
use crate::parse::sp_ident;
use crate::parse::sp_element;
use crate::text::digits_u8;
use crate::text::html_encode;
use crate::text::html_encoded;
use crate::text::push_digits_u8;
use crate::visitor::find_byte;
use crate::visitor::hash_end;

verus! {

broadcast use vstd::std_specs::vec::group_vec_axioms, vstd::seq::group_seq_axioms;

/// A footnote definition block.
pub struct FootnoteDefinition {
    pub children: Vec<Node>,
    pub identifier: Vec<u8>,
    pub label: Option<Vec<u8>>,
}

/// A list block.
pub struct List {
    pub children: Vec<Node>,
    pub start: Option<u32>,
    pub spread: bool,
}

/// A footnote reference.
pub struct FootnoteReference {
    pub identifier: Vec<u8>,
    pub label: Option<Vec<u8>>,
}

/// An image reference.
pub struct Image {
    pub alt: Vec<u8>,
    pub url: Vec<u8>,
    pub title: Option<Vec<u8>>,
}

/// A link with child content.
pub struct Link {
    pub children: Vec<Node>,
    pub url: Vec<u8>,
    pub title: Option<Vec<u8>>,
}

/// A fenced code block.
pub struct Code {
    pub value: Vec<u8>,
    pub lang: Option<Vec<u8>>,
    pub meta: Option<Vec<u8>>,
}

/// A display-math block.
pub struct Math {
    pub value: Vec<u8>,
    pub meta: Option<Vec<u8>>,
}

/// A heading with inline children.
pub struct Heading {
    pub children: Vec<Node>,
    pub depth: u8,
}

/// A markdown tree node.
pub enum Node {
    BlockQuote(Vec<Node>),
    FootnoteDefinition(FootnoteDefinition),
    List(List),
    Yaml(Vec<u8>),
    Break,
    InlineCode(Vec<u8>),
    InlineMath(Vec<u8>),
    Delete(Vec<Node>),
    Emphasis(Vec<Node>),
    TextExpression(Vec<u8>),
    FootnoteReference(FootnoteReference),
    Html(Element),
    Image(Image),
    Link(Link),
    Strong(Vec<Node>),
    Text(Vec<u8>),
    Code(Code),
    Math(Math),
    Heading(Heading),
    ThematicBreak,
    Paragraph(Vec<Node>),
}

#[verifier::ext_equal]
pub enum NodeV {
    BlockQuote(Seq<NodeV>),
    FootnoteDefinition(Seq<NodeV>, Seq<u8>, Option<Seq<u8>>),
    List(Seq<NodeV>, Option<u32>, bool),
    Yaml(Seq<u8>),
    Break,
    InlineCode(Seq<u8>),
    InlineMath(Seq<u8>),
    Delete(Seq<NodeV>),
    Emphasis(Seq<NodeV>),
    TextExpression(Seq<u8>),
    FootnoteReference(Seq<u8>, Option<Seq<u8>>),
    Html(ElemV),
    Image(Seq<u8>, Seq<u8>, Option<Seq<u8>>),
    Link(Seq<NodeV>, Seq<u8>, Option<Seq<u8>>),
    Strong(Seq<NodeV>),
    Text(Seq<u8>),
    Code(Seq<u8>, Option<Seq<u8>>, Option<Seq<u8>>),
    Math(Seq<u8>, Option<Seq<u8>>),
    Heading(Seq<NodeV>, u8),
    ThematicBreak,
    Paragraph(Seq<NodeV>),
}

pub open spec fn opt_view(o: Option<Vec<u8>>) -> Option<Seq<u8>> {
    match o {
        Some(v) => Some(v@),
        None => None,
    }
}

pub open spec fn node_view(n: Node) -> NodeV
    decreases n, 1int,
{
    match n {
        Node::BlockQuote(c) => NodeV::BlockQuote(nodes_view(c@)),
        Node::FootnoteDefinition(f) => NodeV::FootnoteDefinition(
            nodes_view(f.children@),
            f.identifier@,
            opt_view(f.label),
        ),
        Node::List(l) => NodeV::List(nodes_view(l.children@), l.start, l.spread),
        Node::Yaml(y) => NodeV::Yaml(y@),
        Node::Break => NodeV::Break,
        Node::InlineCode(c) => NodeV::InlineCode(c@),
        Node::InlineMath(m) => NodeV::InlineMath(m@),
        Node::Delete(c) => NodeV::Delete(nodes_view(c@)),
        Node::Emphasis(c) => NodeV::Emphasis(nodes_view(c@)),
        Node::TextExpression(t) => NodeV::TextExpression(t@),
        Node::FootnoteReference(f) => NodeV::FootnoteReference(f.identifier@, opt_view(f.label)),
        Node::Html(e) => NodeV::Html(crate::element::elem_view(e)),
        Node::Image(i) => NodeV::Image(i.alt@, i.url@, opt_view(i.title)),
        Node::Link(l) => NodeV::Link(nodes_view(l.children@), l.url@, opt_view(l.title)),
        Node::Strong(c) => NodeV::Strong(nodes_view(c@)),
        Node::Text(t) => NodeV::Text(t@),
        Node::Code(c) => NodeV::Code(c.value@, opt_view(c.lang), opt_view(c.meta)),
        Node::Math(m) => NodeV::Math(m.value@, opt_view(m.meta)),
        Node::Heading(h) => NodeV::Heading(nodes_view(h.children@), h.depth),
        Node::ThematicBreak => NodeV::ThematicBreak,
        Node::Paragraph(c) => NodeV::Paragraph(nodes_view(c@)),
    }
}

pub open spec fn nodes_view(ns: Seq<Node>) -> Seq<NodeV>
    decreases ns, 0int,
{
    if ns.len() == 0 {
        Seq::empty()
    } else {
        nodes_view(ns.drop_last()).push(node_view(ns.last()))
    }
}

pub proof fn lemma_nodes_view_len(ns: Seq<Node>)
    ensures
        nodes_view(ns).len() == ns.len(),
    decreases ns,
{
    if ns.len() > 0 {
        lemma_nodes_view_len(ns.drop_last());
    }
}

pub proof fn lemma_nodes_view_index(ns: Seq<Node>, i: int)
    requires
        0 <= i < ns.len(),
    ensures
        nodes_view(ns)[i] == node_view(ns[i]),
    decreases ns,
{
    lemma_nodes_view_len(ns);
    if i < ns.len() - 1 {
        lemma_nodes_view_index(ns.drop_last(), i);
    }
}

pub proof fn lemma_nodes_view_one(n: Node)
    ensures
        nodes_view(seq![n]) == seq![node_view(n)],
{
    assert(seq![n].drop_last() =~= Seq::<Node>::empty());
    assert(nodes_view(Seq::<Node>::empty()) =~= Seq::<NodeV>::empty());
    assert(nodes_view(seq![n]) =~= seq![node_view(n)]);
}

pub proof fn lemma_nodes_view_concat(a: Seq<Node>, b: Seq<Node>)
    ensures
        nodes_view(a + b) == nodes_view(a) + nodes_view(b),
{
    lemma_nodes_view_len(a + b);
    lemma_nodes_view_len(a);
    lemma_nodes_view_len(b);
    assert(nodes_view(a + b) =~= nodes_view(a) + nodes_view(b)) by {
        assert forall|t: int| 0 <= t < a.len() + b.len() implies nodes_view(a + b)[t] == (
        nodes_view(a) + nodes_view(b))[t] by {
            lemma_nodes_view_index(a + b, t);
            if t < a.len() {
                lemma_nodes_view_index(a, t);
                assert((a + b)[t] == a[t]);
            } else {
                lemma_nodes_view_index(b, t - a.len());
                assert((a + b)[t] == b[t - a.len()]);
            }
        }
    }
}

pub proof fn lemma_nodes_view_insert0(a: Seq<Node>, n: Node)
    ensures
        nodes_view(a.insert(0, n)) == seq![node_view(n)] + nodes_view(a),
{
    assert(a.insert(0, n) =~= seq![n] + a);
    lemma_nodes_view_one(n);
    lemma_nodes_view_concat(seq![n], a);
}

// --- Position helpers ---------------------------------------------------------------

/// The first position at or after `i` holding neither a space nor a tab.
pub open spec fn space_end(s: Seq<u8>, i: int) -> int
    decreases s.len() - i,
{
    if i < 0 || i >= s.len() {
        s.len() as int
    } else if s[i] == 32 || s[i] == 9 {
        space_end(s, i + 1)
    } else {
        i
    }
}

/// A line ending at `i`: a line feed, or a carriage return and a line feed.
pub open spec fn sp_line_ending(s: Seq<u8>, i: int) -> Option<int> {
    if 0 <= i < s.len() && s[i] == 10 {
        Some(i + 1)
    } else if 0 <= i && i + 2 <= s.len() && s[i] == 13 && s[i + 1] == 10 {
        Some(i + 2)
    } else {
        None
    }
}

/// A fence line at `i`: the fence bytes, optional spaces, a line ending.
pub open spec fn sp_fence(s: Seq<u8>, i: int, f: Seq<u8>) -> Option<int> {
    if 0 <= i && i + f.len() <= s.len() && s.subrange(i, i + f.len() as int) == f {
        sp_line_ending(s, space_end(s, i + f.len()))
    } else {
        None
    }
}

/// The first position at or after `i` where a full fence line for `f`
/// parses, together with the position after it.
pub open spec fn find_fence(s: Seq<u8>, i: int, f: Seq<u8>) -> Option<(int, int)>
    decreases s.len() - i,
{
    if i < 0 || i >= s.len() {
        None
    } else {
        match sp_fence(s, i, f) {
            Some(e) => Some((i, e)),
            None => find_fence(s, i + 1, f),
        }
    }
}

// --- The grammar: blocks -------------------------------------------------------------

pub open spec fn md_dashes() -> Seq<u8> {
    seq![45u8, 45u8, 45u8]
}

pub open spec fn md_ticks() -> Seq<u8> {
    seq![96u8, 96u8, 96u8]
}

pub open spec fn md_tildes() -> Seq<u8> {
    seq![126u8, 126u8, 126u8]
}

pub open spec fn md_dollars() -> Seq<u8> {
    seq![36u8, 36u8]
}

/// YAML frontmatter: a `---` fence line, raw content, a closing fence line.
/// The content is kept raw for outside deserialization. A missing closing
/// fence fails the parse.
pub open spec fn sp_md_yaml(s: Seq<u8>, i: int) -> SpRes<NodeV> {
    match sp_fence(s, i, md_dashes()) {
        Some(j) => match find_fence(s, j, md_dashes()) {
            Some(p) => SpRes::Val(NodeV::Yaml(s.subrange(j, p.0)), p.1),
            None => SpRes::Fail,
        },
        None => SpRes::Back,
    }
}

/// A display-math block fenced by `$$` lines.
pub open spec fn sp_md_math(s: Seq<u8>, i: int) -> SpRes<NodeV> {
    match sp_fence(s, i, md_dollars()) {
        Some(j) => match find_fence(s, j, md_dollars()) {
            Some(p) => SpRes::Val(NodeV::Math(s.subrange(j, p.0), None), p.1),
            None => SpRes::Fail,
        },
        None => SpRes::Back,
    }
}

/// A fenced code block: the fence, an optional language identifier, a line
/// ending, the raw body, and a closing fence line; a body byte equal to the
/// fence byte does not end the block unless a full closing fence parses
/// there. A missing closing fence fails the parse.
pub open spec fn sp_md_code(s: Seq<u8>, i: int, f: Seq<u8>) -> SpRes<NodeV> {
    if 0 <= i && i + f.len() <= s.len() && s.subrange(i, i + f.len() as int) == f {
        let j = i + f.len();
        let langp = match sp_ident(s, space_end(s, j)) {
            SpRes::Val(nm, p) => (Some(nm), p),
            _ => (None, j),
        };
        match sp_line_ending(s, space_end(s, langp.1)) {
            Some(b) => match find_fence(s, b, f) {
                Some(p) => SpRes::Val(NodeV::Code(s.subrange(b, p.0), langp.0, None), p.1),
                None => SpRes::Fail,
            },
            None => SpRes::Back,
        }
    } else {
        SpRes::Back
    }
}

// --- The grammar: inline content ------------------------------------------------------

/// Which byte ends an inline scan, chosen by the enclosing construct.
#[derive(Clone, Copy)]
pub enum MdTerm {
    Line,
    Star,
    Under,
    Bracket,
    Tilde,
}

pub open spec fn md_term_byte(s: Seq<u8>, i: int, t: MdTerm) -> bool {
    if i < 0 || i >= s.len() {
        false
    } else {
        match t {
            MdTerm::Line => s[i] == 10 || s[i] == 13,
            MdTerm::Star => s[i] == 42,
            MdTerm::Under => s[i] == 95,
            MdTerm::Bracket => s[i] == 93,
            MdTerm::Tilde => s[i] == 126,
        }
    }
}

pub open spec fn md_special(b: u8) -> bool {
    b == 42 || b == 91 || b == 33 || b == 126 || b == 36 || b == 96 || b == 95
}

/// One inline construct, dispatched on its first byte: strong, emphasis,
/// link, image, strikethrough, inline math or inline code. A construct that
/// does not complete declines and its bytes are taken as plain text.
pub open spec fn sp_md_inline(s: Seq<u8>, i: int) -> SpRes<NodeV>
    decreases s.len() - i, 0int,
{
    if !(0 <= i < s.len()) {
        SpRes::Back
    } else if s[i] == 42 {
        if i + 2 <= s.len() && s[i + 1] == 42 {
            match sp_md_paragraph(s, i + 2, MdTerm::Star) {
                SpRes::Val(ns, p) => if p + 2 <= s.len() && s[p] == 42 && s[p + 1] == 42 {
                    SpRes::Val(NodeV::Strong(ns), p + 2)
                } else {
                    SpRes::Back
                },
                SpRes::Back => SpRes::Back,
                SpRes::Fail => SpRes::Fail,
            }
        } else {
            SpRes::Back
        }
    } else if s[i] == 95 {
        match sp_md_paragraph(s, i + 1, MdTerm::Under) {
            SpRes::Val(ns, p) => if p < s.len() && s[p] == 95 {
                SpRes::Val(NodeV::Emphasis(ns), p + 1)
            } else {
                SpRes::Back
            },
            SpRes::Back => SpRes::Back,
            SpRes::Fail => SpRes::Fail,
        }
    } else if s[i] == 91 {
        match sp_md_paragraph(s, i + 1, MdTerm::Bracket) {
            SpRes::Val(ns, p) => if p + 2 <= s.len() && s[p] == 93 && s[p + 1] == 40 {
                let u = find_byte(s, p + 2, 41);
                if u < s.len() {
                    SpRes::Val(NodeV::Link(ns, s.subrange(p + 2, u), None), u + 1)
                } else {
                    SpRes::Back
                }
            } else {
                SpRes::Back
            },
            SpRes::Back => SpRes::Back,
            SpRes::Fail => SpRes::Fail,
        }
    } else if s[i] == 33 {
        if i + 2 <= s.len() && s[i + 1] == 91 {
            let a = find_byte(s, i + 2, 93);
            if a + 2 <= s.len() && s[a + 1] == 40 {
                let u = find_byte(s, a + 2, 41);
                if u < s.len() {
                    SpRes::Val(NodeV::Image(s.subrange(i + 2, a), s.subrange(a + 2, u), None), u + 1)
                } else {
                    SpRes::Back
                }
            } else {
                SpRes::Back
            }
        } else {
            SpRes::Back
        }
    } else if s[i] == 126 {
        if i + 2 <= s.len() && s[i + 1] == 126 {
            match sp_md_paragraph(s, i + 2, MdTerm::Tilde) {
                SpRes::Val(ns, p) => if p + 2 <= s.len() && s[p] == 126 && s[p + 1] == 126 {
                    SpRes::Val(NodeV::Delete(ns), p + 2)
                } else {
                    SpRes::Back
                },
                SpRes::Back => SpRes::Back,
                SpRes::Fail => SpRes::Fail,
            }
        } else {
            SpRes::Back
        }
    } else if s[i] == 36 {
        let u = find_byte(s, i + 1, 36);
        if u < s.len() {
            SpRes::Val(NodeV::InlineMath(s.subrange(i + 1, u)), u + 1)
        } else {
            SpRes::Back
        }
    } else if s[i] == 96 {
        let u = find_byte(s, i + 1, 96);
        if u < s.len() {
            SpRes::Val(NodeV::InlineCode(s.subrange(i + 1, u)), u + 1)
        } else {
            SpRes::Back
        }
    } else {
        SpRes::Back
    }
}

/// The inline scan: plain text accumulates from `seg`; at each special byte
/// an inline construct is tried, a declined construct staying part of the
/// text run. Stops at the terminator byte or the end of input.
pub open spec fn sp_md_par(s: Seq<u8>, seg: int, i: int, t: MdTerm) -> SpRes<(Seq<NodeV>, int)>
    decreases s.len() - i, 1int,
{
    if !(0 <= seg <= i) {
        SpRes::Fail
    } else if i >= s.len() {
        if i > seg {
            SpRes::Val((seq![NodeV::Text(s.subrange(seg, s.len() as int))], s.len() as int), s.len() as int)
        } else {
            SpRes::Val((Seq::empty(), s.len() as int), s.len() as int)
        }
    } else if md_term_byte(s, i, t) {
        if i > seg {
            SpRes::Val((seq![NodeV::Text(s.subrange(seg, i))], i), i)
        } else {
            SpRes::Val((Seq::empty(), i), i)
        }
    } else if md_special(s[i]) {
        match sp_md_inline(s, i) {
            SpRes::Val(n, k) => {
                if k <= i || k > s.len() {
                    SpRes::Fail
                } else {
                    match sp_md_par(s, k, k, t) {
                        SpRes::Val(rest, e) => {
                            let head: Seq<NodeV> = if i > seg {
                                seq![NodeV::Text(s.subrange(seg, i)), n]
                            } else {
                                seq![n]
                            };
                            SpRes::Val((head + rest.0, rest.1), e)
                        },
                        SpRes::Back => SpRes::Back,
                        SpRes::Fail => SpRes::Fail,
                    }
                }
            },
            SpRes::Back => sp_md_par(s, seg, i + 1, t),
            SpRes::Fail => SpRes::Fail,
        }
    } else {
        sp_md_par(s, seg, i + 1, t)
    }
}

/// A nonempty inline run; an empty one declines so that the caller can try
/// the next alternative.
pub open spec fn sp_md_paragraph(s: Seq<u8>, i: int, t: MdTerm) -> SpRes<Seq<NodeV>>
    decreases s.len() - i, 2int,
{
    if !(0 <= i) {
        SpRes::Back
    } else {
        match sp_md_par(s, i, i, t) {
            SpRes::Val(r, e) => if r.0.len() == 0 {
                SpRes::Back
            } else {
                SpRes::Val(r.0, r.1)
            },
            SpRes::Back => SpRes::Back,
            SpRes::Fail => SpRes::Fail,
        }
    }
}

/// A heading: one to 255 `#` bytes, inline content, a mandatory line ending.
pub open spec fn sp_md_heading(s: Seq<u8>, i: int) -> SpRes<NodeV> {
    if 0 <= i < s.len() && s[i] == 35 {
        let run = hash_end(s, i + 1);
        let take = if run - i > 255 {
            255
        } else {
            run - i
        };
        let pos = i + take;
        match sp_md_paragraph(s, pos, MdTerm::Line) {
            SpRes::Val(ns, p) => match sp_line_ending(s, p) {
                Some(q) => SpRes::Val(NodeV::Heading(ns, take as u8), q),
                None => SpRes::Back,
            },
            SpRes::Back => SpRes::Back,
            SpRes::Fail => SpRes::Fail,
        }
    } else {
        SpRes::Back
    }
}

/// Whether a paragraph group stops here: a fence or heading marker, a line
/// ending, or the end of input.
pub open spec fn md_break_here(s: Seq<u8>, i: int) -> bool {
    i >= s.len() || (i + 3 <= s.len() && (s.subrange(i, i + 3) == md_tildes() || s.subrange(
        i,
        i + 3,
    ) == md_dashes() || s.subrange(i, i + 3) == md_ticks())) || (0 <= i < s.len() && s[i] == 35)
    || (i + 2 <= s.len() && s.subrange(i, i + 2) == md_dollars()) || sp_line_ending(s, i) is Some
}

/// A paragraph group: inline runs separated by single line endings, until a
/// blank line, another block construct, or the end of input.
pub open spec fn sp_md_top_paragraph(s: Seq<u8>, i: int) -> SpRes<Seq<NodeV>>
    decreases s.len() - i,
{
    if !(0 <= i <= s.len()) {
        SpRes::Fail
    } else {
        match sp_md_paragraph(s, i, MdTerm::Line) {
            SpRes::Val(ns, p) => {
                let p2 = match sp_line_ending(s, p) {
                    Some(q) => q,
                    None => p,
                };
                if md_break_here(s, p2) {
                    SpRes::Val(ns, p2)
                } else if p2 <= i || p2 > s.len() {
                    SpRes::Fail
                } else {
                    match sp_md_top_paragraph(s, p2) {
                        SpRes::Val(rest, e) => SpRes::Val(ns + rest, e),
                        SpRes::Back => SpRes::Back,
                        SpRes::Fail => SpRes::Fail,
                    }
                }
            },
            SpRes::Back => SpRes::Back,
            SpRes::Fail => SpRes::Fail,
        }
    }
}

/// One top-level block, with trailing whitespace consumed.
pub open spec fn sp_md_top(s: Seq<u8>, i: int) -> SpRes<NodeV> {
    if !(0 <= i < s.len()) {
        SpRes::Back
    } else {
        let d = if s[i] == 45 {
            sp_md_yaml(s, i)
        } else if s[i] == 60 {
            match sp_element(s, i) {
                SpRes::Val(e, k) => SpRes::Val(NodeV::Html(e), k),
                SpRes::Back => SpRes::Back,
                SpRes::Fail => SpRes::Fail,
            }
        } else if s[i] == 96 {
            sp_md_code(s, i, md_ticks())
        } else if s[i] == 126 {
            sp_md_code(s, i, md_tildes())
        } else if s[i] == 36 {
            sp_md_math(s, i)
        } else if s[i] == 35 {
            sp_md_heading(s, i)
        } else {
            SpRes::Back
        };
        match d {
            SpRes::Val(n, k) => SpRes::Val(n, crate::parse::skip_ws(s, k)),
            SpRes::Fail => SpRes::Fail,
            SpRes::Back => match sp_md_top_paragraph(s, i) {
                SpRes::Val(ns, p) => SpRes::Val(
                    NodeV::Paragraph(ns),
                    crate::parse::skip_ws(s, p),
                ),
                SpRes::Back => SpRes::Back,
                SpRes::Fail => SpRes::Fail,
            },
        }
    }
}

/// Zero or more top-level blocks.
pub open spec fn sp_md_tops(s: Seq<u8>, i: int) -> SpRes<Seq<NodeV>>
    decreases s.len() - i,
{
    if !(0 <= i <= s.len()) {
        SpRes::Fail
    } else {
        match sp_md_top(s, i) {
            SpRes::Val(n, k) => if k <= i || k > s.len() {
                SpRes::Fail
            } else {
                match sp_md_tops(s, k) {
                    SpRes::Val(rest, e) => SpRes::Val(seq![n] + rest, e),
                    SpRes::Back => SpRes::Back,
                    SpRes::Fail => SpRes::Fail,
                }
            },
            SpRes::Back => SpRes::Val(Seq::empty(), i),
            SpRes::Fail => SpRes::Fail,
        }
    }
}

/// A whole document: leading whitespace, top-level blocks, the end of input.
pub open spec fn sp_md_document(s: Seq<u8>) -> Option<Seq<NodeV>> {
    match sp_md_tops(s, crate::parse::skip_ws(s, 0)) {
        SpRes::Val(ns, k) => if k == s.len() {
            Some(ns)
        } else {
            None
        },
        _ => None,
    }
}

// --- Serialization -------------------------------------------------------------------

pub open spec fn mlit_br() -> Seq<u8> {
    seq![60u8, 98u8, 114u8, 32u8, 47u8, 62u8]
}

pub(crate) fn mlit_br_x() -> (v: Vec<u8>)
    ensures
        v@ == mlit_br(),
{
    let mut v: Vec<u8> = Vec::new();
    v.push(60);
    v.push(98);
    v.push(114);
    v.push(32);
    v.push(47);
    v.push(62);
    proof {
        assert(v@ =~= mlit_br());
    }
    v
}

pub open spec fn mlit_p_open() -> Seq<u8> {
    seq![60u8, 112u8, 62u8]
}

pub(crate) fn mlit_p_open_x() -> (v: Vec<u8>)
    ensures
        v@ == mlit_p_open(),
{
    let mut v: Vec<u8> = Vec::new();
    v.push(60);
    v.push(112);
    v.push(62);
    proof {
        assert(v@ =~= mlit_p_open());
    }
    v
}

pub open spec fn mlit_p_close() -> Seq<u8> {
    seq![60u8, 47u8, 112u8, 62u8]
}

pub(crate) fn mlit_p_close_x() -> (v: Vec<u8>)
    ensures
        v@ == mlit_p_close(),
{
    let mut v: Vec<u8> = Vec::new();
    v.push(60);
    v.push(47);
    v.push(112);
    v.push(62);
    proof {
        assert(v@ =~= mlit_p_close());
    }
    v
}

pub open spec fn mlit_em_open() -> Seq<u8> {
    seq![60u8, 101u8, 109u8, 62u8]
}

pub(crate) fn mlit_em_open_x() -> (v: Vec<u8>)
    ensures
        v@ == mlit_em_open(),
{
    let mut v: Vec<u8> = Vec::new();
    v.push(60);
    v.push(101);
    v.push(109);
    v.push(62);
    proof {
        assert(v@ =~= mlit_em_open());
    }
    v
}

pub open spec fn mlit_em_close() -> Seq<u8> {
    seq![60u8, 47u8, 101u8, 109u8, 62u8]
}

pub(crate) fn mlit_em_close_x() -> (v: Vec<u8>)
    ensures
        v@ == mlit_em_close(),
{
    let mut v: Vec<u8> = Vec::new();
    v.push(60);
    v.push(47);
    v.push(101);
    v.push(109);
    v.push(62);
    proof {
        assert(v@ =~= mlit_em_close());
    }
    v
}

pub open spec fn mlit_strong_open() -> Seq<u8> {
    seq![60u8, 115u8, 116u8, 114u8, 111u8, 110u8, 103u8, 62u8]
}

pub(crate) fn mlit_strong_open_x() -> (v: Vec<u8>)
    ensures
        v@ == mlit_strong_open(),
{
    let mut v: Vec<u8> = Vec::new();
    v.push(60);
    v.push(115);
    v.push(116);
    v.push(114);
    v.push(111);
    v.push(110);
    v.push(103);
    v.push(62);
    proof {
        assert(v@ =~= mlit_strong_open());
    }
    v
}

pub open spec fn mlit_strong_close() -> Seq<u8> {
    seq![60u8, 47u8, 115u8, 116u8, 114u8, 111u8, 110u8, 103u8, 62u8]
}

pub(crate) fn mlit_strong_close_x() -> (v: Vec<u8>)
    ensures
        v@ == mlit_strong_close(),
{
    let mut v: Vec<u8> = Vec::new();
    v.push(60);
    v.push(47);
    v.push(115);
    v.push(116);
    v.push(114);
    v.push(111);
    v.push(110);
    v.push(103);
    v.push(62);
    proof {
        assert(v@ =~= mlit_strong_close());
    }
    v
}

pub open spec fn mlit_del_close() -> Seq<u8> {
    seq![60u8, 47u8, 100u8, 101u8, 108u8, 101u8, 116u8, 101u8, 62u8]
}

pub(crate) fn mlit_del_close_x() -> (v: Vec<u8>)
    ensures
        v@ == mlit_del_close(),
{
    let mut v: Vec<u8> = Vec::new();
    v.push(60);
    v.push(47);
    v.push(100);
    v.push(101);
    v.push(108);
    v.push(101);
    v.push(116);
    v.push(101);
    v.push(62);
    proof {
        assert(v@ =~= mlit_del_close());
    }
    v
}

pub open spec fn mlit_bq_open() -> Seq<u8> {
    seq![60u8, 98u8, 108u8, 111u8, 99u8, 107u8, 113u8, 117u8, 111u8, 116u8, 101u8, 62u8]
}

pub(crate) fn mlit_bq_open_x() -> (v: Vec<u8>)
    ensures
        v@ == mlit_bq_open(),
{
    let mut v: Vec<u8> = Vec::new();
    v.push(60);
    v.push(98);
    v.push(108);
    v.push(111);
    v.push(99);
    v.push(107);
    v.push(113);
    v.push(117);
    v.push(111);
    v.push(116);
    v.push(101);
    v.push(62);
    proof {
        assert(v@ =~= mlit_bq_open());
    }
    v
}

pub open spec fn mlit_bq_close() -> Seq<u8> {
    seq![60u8, 47u8, 98u8, 108u8, 111u8, 99u8, 107u8, 113u8, 117u8, 111u8, 116u8, 101u8, 62u8]
}

pub(crate) fn mlit_bq_close_x() -> (v: Vec<u8>)
    ensures
        v@ == mlit_bq_close(),
{
    let mut v: Vec<u8> = Vec::new();
    v.push(60);
    v.push(47);
    v.push(98);
    v.push(108);
    v.push(111);
    v.push(99);
    v.push(107);
    v.push(113);
    v.push(117);
    v.push(111);
    v.push(116);
    v.push(101);
    v.push(62);
    proof {
        assert(v@ =~= mlit_bq_close());
    }
    v
}

pub open spec fn mlit_div_open() -> Seq<u8> {
    seq![60u8, 100u8, 105u8, 118u8, 32u8, 99u8, 108u8, 97u8, 115u8, 115u8, 61u8, 34u8, 99u8, 111u8, 100u8, 101u8, 98u8, 108u8, 111u8, 99u8, 107u8, 34u8, 62u8]
}

pub(crate) fn mlit_div_open_x() -> (v: Vec<u8>)
    ensures
        v@ == mlit_div_open(),
{
    let mut v: Vec<u8> = Vec::new();
    v.push(60);
    v.push(100);
    v.push(105);
    v.push(118);
    v.push(32);
    v.push(99);
    v.push(108);
    v.push(97);
    v.push(115);
    v.push(115);
    v.push(61);
    v.push(34);
    v.push(99);
    v.push(111);
    v.push(100);
    v.push(101);
    v.push(98);
    v.push(108);
    v.push(111);
    v.push(99);
    v.push(107);
    v.push(34);
    v.push(62);
    proof {
        assert(v@ =~= mlit_div_open());
    }
    v
}

pub open spec fn mlit_div_close() -> Seq<u8> {
    seq![60u8, 47u8, 100u8, 105u8, 118u8, 62u8]
}

pub(crate) fn mlit_div_close_x() -> (v: Vec<u8>)
    ensures
        v@ == mlit_div_close(),
{
    let mut v: Vec<u8> = Vec::new();
    v.push(60);
    v.push(47);
    v.push(100);
    v.push(105);
    v.push(118);
    v.push(62);
    proof {
        assert(v@ =~= mlit_div_close());
    }
    v
}

pub open spec fn mlit_code_open() -> Seq<u8> {
    seq![60u8, 99u8, 111u8, 100u8, 101u8, 62u8]
}

pub(crate) fn mlit_code_open_x() -> (v: Vec<u8>)
    ensures
        v@ == mlit_code_open(),
{
    let mut v: Vec<u8> = Vec::new();
    v.push(60);
    v.push(99);
    v.push(111);
    v.push(100);
    v.push(101);
    v.push(62);
    proof {
        assert(v@ =~= mlit_code_open());
    }
    v
}

pub open spec fn mlit_code_close() -> Seq<u8> {
    seq![60u8, 47u8, 99u8, 111u8, 100u8, 101u8, 62u8]
}

pub(crate) fn mlit_code_close_x() -> (v: Vec<u8>)
    ensures
        v@ == mlit_code_close(),
{
    let mut v: Vec<u8> = Vec::new();
    v.push(60);
    v.push(47);
    v.push(99);
    v.push(111);
    v.push(100);
    v.push(101);
    v.push(62);
    proof {
        assert(v@ =~= mlit_code_close());
    }
    v
}

pub open spec fn mlit_img_open() -> Seq<u8> {
    seq![60u8, 105u8, 109u8, 103u8, 32u8, 104u8, 114u8, 101u8, 102u8, 61u8, 34u8]
}

pub(crate) fn mlit_img_open_x() -> (v: Vec<u8>)
    ensures
        v@ == mlit_img_open(),
{
    let mut v: Vec<u8> = Vec::new();
    v.push(60);
    v.push(105);
    v.push(109);
    v.push(103);
    v.push(32);
    v.push(104);
    v.push(114);
    v.push(101);
    v.push(102);
    v.push(61);
    v.push(34);
    proof {
        assert(v@ =~= mlit_img_open());
    }
    v
}

pub open spec fn mlit_img_mid() -> Seq<u8> {
    seq![34u8, 32u8, 97u8, 108u8, 116u8, 61u8, 34u8]
}

pub(crate) fn mlit_img_mid_x() -> (v: Vec<u8>)
    ensures
        v@ == mlit_img_mid(),
{
    let mut v: Vec<u8> = Vec::new();
    v.push(34);
    v.push(32);
    v.push(97);
    v.push(108);
    v.push(116);
    v.push(61);
    v.push(34);
    proof {
        assert(v@ =~= mlit_img_mid());
    }
    v
}

pub open spec fn mlit_img_end() -> Seq<u8> {
    seq![34u8, 32u8, 47u8, 62u8]
}

pub(crate) fn mlit_img_end_x() -> (v: Vec<u8>)
    ensures
        v@ == mlit_img_end(),
{
    let mut v: Vec<u8> = Vec::new();
    v.push(34);
    v.push(32);
    v.push(47);
    v.push(62);
    proof {
        assert(v@ =~= mlit_img_end());
    }
    v
}

pub open spec fn mlit_a_open() -> Seq<u8> {
    seq![60u8, 97u8, 32u8, 104u8, 114u8, 101u8, 102u8, 61u8, 34u8]
}

pub(crate) fn mlit_a_open_x() -> (v: Vec<u8>)
    ensures
        v@ == mlit_a_open(),
{
    let mut v: Vec<u8> = Vec::new();
    v.push(60);
    v.push(97);
    v.push(32);
    v.push(104);
    v.push(114);
    v.push(101);
    v.push(102);
    v.push(61);
    v.push(34);
    proof {
        assert(v@ =~= mlit_a_open());
    }
    v
}

pub open spec fn mlit_quot_gt() -> Seq<u8> {
    seq![34u8, 62u8]
}

pub(crate) fn mlit_quot_gt_x() -> (v: Vec<u8>)
    ensures
        v@ == mlit_quot_gt(),
{
    let mut v: Vec<u8> = Vec::new();
    v.push(34);
    v.push(62);
    proof {
        assert(v@ =~= mlit_quot_gt());
    }
    v
}

pub open spec fn mlit_a_close() -> Seq<u8> {
    seq![60u8, 47u8, 97u8, 62u8]
}

pub(crate) fn mlit_a_close_x() -> (v: Vec<u8>)
    ensures
        v@ == mlit_a_close(),
{
    let mut v: Vec<u8> = Vec::new();
    v.push(60);
    v.push(47);
    v.push(97);
    v.push(62);
    proof {
        assert(v@ =~= mlit_a_close());
    }
    v
}

pub open spec fn mlit_h_open() -> Seq<u8> {
    seq![60u8, 104u8]
}

pub(crate) fn mlit_h_open_x() -> (v: Vec<u8>)
    ensures
        v@ == mlit_h_open(),
{
    let mut v: Vec<u8> = Vec::new();
    v.push(60);
    v.push(104);
    proof {
        assert(v@ =~= mlit_h_open());
    }
    v
}

pub open spec fn mlit_h_close() -> Seq<u8> {
    seq![60u8, 47u8, 104u8]
}

pub(crate) fn mlit_h_close_x() -> (v: Vec<u8>)
    ensures
        v@ == mlit_h_close(),
{
    let mut v: Vec<u8> = Vec::new();
    v.push(60);
    v.push(47);
    v.push(104);
    proof {
        assert(v@ =~= mlit_h_close());
    }
    v
}

pub open spec fn mlit_gt() -> Seq<u8> {
    seq![62u8]
}

pub(crate) fn mlit_gt_x() -> (v: Vec<u8>)
    ensures
        v@ == mlit_gt(),
{
    let mut v: Vec<u8> = Vec::new();
    v.push(62);
    proof {
        assert(v@ =~= mlit_gt());
    }
    v
}


/// The node kinds the serializer renders; the list and footnote kinds are
/// not rendered and are left out of the serializer's domain.
pub open spec fn writable(n: NodeV) -> bool
    decreases n, 1int,
{
    match n {
        NodeV::FootnoteDefinition(_, _, _) => false,
        NodeV::FootnoteReference(_, _) => false,
        NodeV::List(_, _, _) => false,
        NodeV::ThematicBreak => false,
        NodeV::BlockQuote(c) => writable_nodes(c),
        NodeV::Delete(c) => writable_nodes(c),
        NodeV::Emphasis(c) => writable_nodes(c),
        NodeV::Strong(c) => writable_nodes(c),
        NodeV::Paragraph(c) => writable_nodes(c),
        NodeV::Link(c, _, _) => writable_nodes(c),
        NodeV::Heading(c, _) => writable_nodes(c),
        _ => true,
    }
}

pub open spec fn writable_nodes(ns: Seq<NodeV>) -> bool
    decreases ns, 0int,
{
    if ns.len() == 0 {
        true
    } else {
        writable(ns[0]) && writable_nodes(ns.drop_first())
    }
}

/// The markup text a markdown node renders to. Text runs are entity-escaped
/// (markdown text is raw on input) and followed by a space; inline HTML is
/// serialized as markup; a code block with a recognized language is replaced
/// by its highlighted form, any other verbatim inside a blockquote.
pub open spec fn md_ser(n: NodeV) -> Seq<u8>
    decreases n, 1int,
{
    match n {
        NodeV::BlockQuote(c) => mlit_bq_open() + md_ser_nodes(c) + mlit_bq_close(),
        NodeV::Yaml(_) => Seq::empty(),
        NodeV::Break => mlit_br(),
        NodeV::InlineCode(c) => mlit_code_open() + html_encoded(c) + mlit_code_close(),
        NodeV::Math(v, _) => mlit_bq_open() + html_encoded(v) + mlit_bq_close(),
        NodeV::InlineMath(m) => mlit_code_open() + html_encoded(m) + mlit_code_close(),
        NodeV::Delete(c) => mlit_del_close() + md_ser_nodes(c) + mlit_del_close(),
        NodeV::Emphasis(c) => mlit_em_open() + md_ser_nodes(c) + mlit_em_close(),
        NodeV::TextExpression(_) => Seq::empty(),
        NodeV::Html(e) => crate::element::ser_elem(e),
        NodeV::Image(alt, url, _) => mlit_img_open() + url + mlit_img_mid() + alt + mlit_img_end(),
        NodeV::Link(c, url, _) => mlit_a_open() + url + mlit_quot_gt() + md_ser_nodes(c)
            + mlit_a_close(),
        NodeV::Strong(c) => mlit_strong_open() + md_ser_nodes(c) + mlit_strong_close(),
        NodeV::Text(t) => html_encoded(t) + seq![32u8],
        NodeV::Code(v, lang, _) => match lang {
            Some(l) => match crate::visitor::highlight_of(v, l) {
                Some(h) => mlit_div_open() + h + mlit_div_close(),
                None => mlit_bq_open() + v + mlit_bq_close(),
            },
            None => mlit_bq_open() + v + mlit_bq_close(),
        },
        NodeV::Heading(c, d) => mlit_h_open() + digits_u8(d) + mlit_gt() + md_ser_nodes(c)
            + mlit_h_close() + digits_u8(d) + mlit_gt(),
        NodeV::Paragraph(c) => mlit_p_open() + md_ser_nodes(c) + mlit_p_close(),
        _ => Seq::empty(),
    }
}

pub open spec fn md_ser_nodes(ns: Seq<NodeV>) -> Seq<u8>
    decreases ns, 0int,
{
    if ns.len() == 0 {
        Seq::empty()
    } else {
        md_ser(ns[0]) + md_ser_nodes(ns.drop_first())
    }
}

pub proof fn lemma_md_ser_nodes_push(ns: Seq<NodeV>, n: NodeV)
    ensures
        md_ser_nodes(ns.push(n)) == md_ser_nodes(ns) + md_ser(n),
    decreases ns.len(),
{
    if ns.len() == 0 {
        assert(ns.push(n).drop_first() =~= Seq::<NodeV>::empty());
        assert(md_ser_nodes(Seq::<NodeV>::empty()) =~= Seq::<u8>::empty());
        assert(md_ser_nodes(ns.push(n)) == md_ser(ns.push(n)[0]) + md_ser_nodes(
            ns.push(n).drop_first(),
        ));
        assert(ns.push(n)[0] == n);
        assert(md_ser_nodes(ns.push(n)) =~= md_ser_nodes(ns) + md_ser(n));
    } else {
        assert(ns.push(n).drop_first() =~= ns.drop_first().push(n));
        lemma_md_ser_nodes_push(ns.drop_first(), n);
        assert(md_ser_nodes(ns.push(n)) =~= md_ser_nodes(ns) + md_ser(n));
    }
}

/// How many nodes a tree holds, itself included.
pub open spec fn node_count(n: NodeV) -> nat
    decreases n, 1int,
{
    match n {
        NodeV::BlockQuote(c) => 1 + nodes_count(c, 0),
        NodeV::FootnoteDefinition(c, _, _) => 1 + nodes_count(c, 0),
        NodeV::List(c, _, _) => 1 + nodes_count(c, 0),
        NodeV::Delete(c) => 1 + nodes_count(c, 0),
        NodeV::Emphasis(c) => 1 + nodes_count(c, 0),
        NodeV::Link(c, _, _) => 1 + nodes_count(c, 0),
        NodeV::Strong(c) => 1 + nodes_count(c, 0),
        NodeV::Heading(c, _) => 1 + nodes_count(c, 0),
        NodeV::Paragraph(c) => 1 + nodes_count(c, 0),
        _ => 1,
    }
}

/// How many nodes the trees from `i` on hold together.
pub open spec fn nodes_count(ns: Seq<NodeV>, i: int) -> nat
    decreases ns, ns.len() - i,
{
    if i < 0 || i >= ns.len() {
        0
    } else {
        node_count(ns[i]) + nodes_count(ns, i + 1)
    }
}

pub proof fn lemma_md_ser_nodes_cons(x: NodeV, rest: Seq<NodeV>)
    ensures
        md_ser_nodes(seq![x] + rest) == md_ser(x) + md_ser_nodes(rest),
        writable_nodes(seq![x] + rest) == (writable(x) && writable_nodes(rest)),
{
    assert((seq![x] + rest).drop_first() =~= rest);
    assert((seq![x] + rest)[0] == x);
    assert(md_ser_nodes(seq![x] + rest) =~= md_ser(x) + md_ser_nodes(rest));
}

pub proof fn lemma_writable_index(ns: Seq<NodeV>, i: int)
    requires
        writable_nodes(ns),
        0 <= i < ns.len(),
    ensures
        writable(ns[i]),
    decreases ns.len(),
{
    if i > 0 {
        lemma_writable_index(ns.drop_first(), i - 1);
    }
}

impl Node {
    /// Append this node's rendering to `out`.
    pub fn write(&self, out: &mut Vec<u8>)
        requires
            writable(node_view(*self)),
        ensures
            final(out)@ == old(out)@ + md_ser(node_view(*self)),
        decreases self, 1int,
    {
        match self {
            Node::BlockQuote(c) => {
                let o = mlit_bq_open_x();
                append_bytes(out, &o);
                write_md_nodes(c, out);
                let e = mlit_bq_close_x();
                append_bytes(out, &e);
                proof {
                    assert(out@ =~= old(out)@ + md_ser(node_view(*self)));
                }
            },
            Node::Yaml(_) => {
                proof {
                    assert(out@ =~= old(out)@ + md_ser(node_view(*self)));
                }
            },
            Node::Break => {
                let o = mlit_br_x();
                append_bytes(out, &o);
                proof {
                    assert(out@ =~= old(out)@ + md_ser(node_view(*self)));
                }
            },
            Node::InlineCode(c) => {
                let o = mlit_code_open_x();
                append_bytes(out, &o);
                html_encode(c, out);
                let e = mlit_code_close_x();
                append_bytes(out, &e);
                proof {
                    assert(out@ =~= old(out)@ + md_ser(node_view(*self)));
                }
            },
            Node::Math(m) => {
                let o = mlit_bq_open_x();
                append_bytes(out, &o);
                html_encode(&m.value, out);
                let e = mlit_bq_close_x();
                append_bytes(out, &e);
                proof {
                    assert(out@ =~= old(out)@ + md_ser(node_view(*self)));
                }
            },
            Node::InlineMath(m) => {
                let o = mlit_code_open_x();
                append_bytes(out, &o);
                html_encode(m, out);
                let e = mlit_code_close_x();
                append_bytes(out, &e);
                proof {
                    assert(out@ =~= old(out)@ + md_ser(node_view(*self)));
                }
            },
            Node::Delete(c) => {
                let o = mlit_del_close_x();
                append_bytes(out, &o);
                write_md_nodes(c, out);
                let e = mlit_del_close_x();
                append_bytes(out, &e);
                proof {
                    assert(out@ =~= old(out)@ + md_ser(node_view(*self)));
                }
            },
            Node::Emphasis(c) => {
                let o = mlit_em_open_x();
                append_bytes(out, &o);
                write_md_nodes(c, out);
                let e = mlit_em_close_x();
                append_bytes(out, &e);
                proof {
                    assert(out@ =~= old(out)@ + md_ser(node_view(*self)));
                }
            },
            Node::TextExpression(_) => {
                proof {
                    assert(out@ =~= old(out)@ + md_ser(node_view(*self)));
                }
            },
            Node::Html(e) => {
                e.write(out);
                proof {
                    assert(out@ =~= old(out)@ + md_ser(node_view(*self)));
                }
            },
            Node::Image(im) => {
                let o = mlit_img_open_x();
                append_bytes(out, &o);
                append_bytes(out, &im.url);
                let m1 = mlit_img_mid_x();
                append_bytes(out, &m1);
                append_bytes(out, &im.alt);
                let e = mlit_img_end_x();
                append_bytes(out, &e);
                proof {
                    assert(out@ =~= old(out)@ + md_ser(node_view(*self)));
                }
            },
            Node::Link(l) => {
                let o = mlit_a_open_x();
                append_bytes(out, &o);
                append_bytes(out, &l.url);
                let m1 = mlit_quot_gt_x();
                append_bytes(out, &m1);
                write_md_nodes(&l.children, out);
                let e = mlit_a_close_x();
                append_bytes(out, &e);
                proof {
                    assert(out@ =~= old(out)@ + md_ser(node_view(*self)));
                }
            },
            Node::Strong(c) => {
                let o = mlit_strong_open_x();
                append_bytes(out, &o);
                write_md_nodes(c, out);
                let e = mlit_strong_close_x();
                append_bytes(out, &e);
                proof {
                    assert(out@ =~= old(out)@ + md_ser(node_view(*self)));
                }
            },
            Node::Text(t) => {
                html_encode(t, out);
                out.push(32);
                proof {
                    assert(out@ =~= old(out)@ + md_ser(node_view(*self)));
                }
            },
            Node::Code(c) => {
                let hl = match &c.lang {
                    Some(l) => crate::visitor::highlight(&c.value, l),
                    None => None,
                };
                match hl {
                    Some(h) => {
                        let o = mlit_div_open_x();
                        append_bytes(out, &o);
                        append_bytes(out, &h);
                        let e = mlit_div_close_x();
                        append_bytes(out, &e);
                    },
                    None => {
                        let o = mlit_bq_open_x();
                        append_bytes(out, &o);
                        append_bytes(out, &c.value);
                        let e = mlit_bq_close_x();
                        append_bytes(out, &e);
                    },
                }
                proof {
                    assert(out@ =~= old(out)@ + md_ser(node_view(*self)));
                }
            },
            Node::Heading(h) => {
                let o = mlit_h_open_x();
                append_bytes(out, &o);
                push_digits_u8(h.depth, out);
                out.push(62);
                write_md_nodes(&h.children, out);
                let e = mlit_h_close_x();
                append_bytes(out, &e);
                push_digits_u8(h.depth, out);
                out.push(62);
                proof {
                    assert(out@ =~= old(out)@ + md_ser(node_view(*self)));
                }
            },
            Node::Paragraph(c) => {
                let o = mlit_p_open_x();
                append_bytes(out, &o);
                write_md_nodes(c, out);
                let e = mlit_p_close_x();
                append_bytes(out, &e);
                proof {
                    assert(out@ =~= old(out)@ + md_ser(node_view(*self)));
                }
            },
            Node::FootnoteDefinition(_) => {
                proof {
                    assert(false);
                }
            },
            Node::FootnoteReference(_) => {
                proof {
                    assert(false);
                }
            },
            Node::List(_) => {
                proof {
                    assert(false);
                }
            },
            Node::ThematicBreak => {
                proof {
                    assert(false);
                }
            },
        }
    }
}

/// Append the renderings of a node list to `out`.
pub fn write_md_nodes(nodes: &Vec<Node>, out: &mut Vec<u8>)
    requires
        writable_nodes(nodes_view(nodes@)),
    ensures
        final(out)@ == old(out)@ + md_ser_nodes(nodes_view(nodes@)),
    decreases nodes, 0int,
{
    proof {
        lemma_nodes_view_len(nodes@);
        assert(nodes@.subrange(0, 0) =~= Seq::<Node>::empty());
        assert(nodes_view(Seq::<Node>::empty()) =~= Seq::<NodeV>::empty());
        assert(out@ =~= old(out)@ + md_ser_nodes(nodes_view(nodes@.subrange(0, 0))));
    }
    let mut i: usize = 0;
    while i < nodes.len()
        invariant
            i <= nodes@.len(),
            writable_nodes(nodes_view(nodes@)),
            nodes_view(nodes@).len() == nodes@.len(),
            out@ == old(out)@ + md_ser_nodes(nodes_view(nodes@.subrange(0, i as int))),
        decreases nodes@.len() - i,
    {
        proof {
            lemma_nodes_view_index(nodes@, i as int);
            lemma_writable_index(nodes_view(nodes@), i as int);
        }
        nodes[i].write(out);
        proof {
            assert(nodes@.subrange(0, i + 1 as int) =~= nodes@.subrange(0, i as int).push(
                nodes@[i as int],
            ));
            lemma_nodes_view_push_md(nodes@.subrange(0, i as int), nodes@[i as int]);
            lemma_md_ser_nodes_push(
                nodes_view(nodes@.subrange(0, i as int)),
                node_view(nodes@[i as int]),
            );
            assert(out@ =~= old(out)@ + md_ser_nodes(nodes_view(nodes@.subrange(0, i + 1 as int))));
        }
        i = i + 1;
    }
    proof {
        assert(nodes@.subrange(0, nodes.len() as int) =~= nodes@);
    }
}

pub proof fn lemma_nodes_view_push_md(ns: Seq<Node>, n: Node)
    ensures
        nodes_view(ns.push(n)) == nodes_view(ns).push(node_view(n)),
{
    assert(ns.push(n).drop_last() =~= ns);
}

// --- Executable parser -----------------------------------------------------------------

fn space_end_x(s: &Vec<u8>, i: usize) -> (r: usize)
    requires
        i <= s@.len(),
    ensures
        r as int == space_end(s@, i as int),
        i <= r <= s@.len(),
    decreases s@.len() - i,
{
    if i >= s.len() {
        s.len()
    } else {
        let b = s[i];
        if b == 32 || b == 9 {
            space_end_x(s, i + 1)
        } else {
            i
        }
    }
}

fn line_ending_x(s: &Vec<u8>, i: usize) -> (r: Option<usize>)
    requires
        i <= s@.len(),
    ensures
        match r {
            Some(e) => sp_line_ending(s@, i as int) == Some(e as int) && i < e <= s@.len(),
            None => sp_line_ending(s@, i as int) is None,
        },
{
    if i < s.len() && s[i] == 10 {
        Some(i + 1)
    } else if i < s.len() && s[i] == 13 && i + 1 < s.len() && s[i + 1] == 10 {
        Some(i + 2)
    } else {
        None
    }
}

fn fence_x(s: &Vec<u8>, i: usize, f: &Vec<u8>) -> (r: Option<usize>)
    requires
        i <= s@.len(),
    ensures
        match r {
            Some(e) => sp_fence(s@, i as int, f@) == Some(e as int) && i < e <= s@.len(),
            None => sp_fence(s@, i as int, f@) is None,
        },
{
    let n = s.len();
    if crate::parse::match_at(s, i, f) {
        let j = space_end_x(s, i + f.len());
        line_ending_x(s, j)
    } else {
        None
    }
}

fn find_fence_x(s: &Vec<u8>, i: usize, f: &Vec<u8>) -> (r: Option<(usize, usize)>)
    requires
        i <= s@.len(),
    ensures
        match r {
            Some(p) => find_fence(s@, i as int, f@) matches Some(p2) && p2.0 == p.0 as int && p2.1
                == p.1 as int && i <= p.0 < p.1 <= s@.len(),
            None => find_fence(s@, i as int, f@) is None,
        },
    decreases s@.len() - i,
{
    if i >= s.len() {
        None
    } else {
        match fence_x(s, i, f) {
            Some(e) => Some((i, e)),
            None => find_fence_x(s, i + 1, f),
        }
    }
}

fn md_dashes_x() -> (v: Vec<u8>)
    ensures
        v@ == md_dashes(),
{
    let mut v: Vec<u8> = Vec::new();
    v.push(45);
    v.push(45);
    v.push(45);
    proof {
        assert(v@ =~= md_dashes());
    }
    v
}

fn md_ticks_x() -> (v: Vec<u8>)
    ensures
        v@ == md_ticks(),
{
    let mut v: Vec<u8> = Vec::new();
    v.push(96);
    v.push(96);
    v.push(96);
    proof {
        assert(v@ =~= md_ticks());
    }
    v
}

fn md_tildes_x() -> (v: Vec<u8>)
    ensures
        v@ == md_tildes(),
{
    let mut v: Vec<u8> = Vec::new();
    v.push(126);
    v.push(126);
    v.push(126);
    proof {
        assert(v@ =~= md_tildes());
    }
    v
}

fn md_dollars_x() -> (v: Vec<u8>)
    ensures
        v@ == md_dollars(),
{
    let mut v: Vec<u8> = Vec::new();
    v.push(36);
    v.push(36);
    proof {
        assert(v@ =~= md_dollars());
    }
    v
}

fn md_yaml_x(s: &Vec<u8>, i: usize) -> (r: Parsed<Node>)
    requires
        i <= s@.len(),
    ensures
        match r {
            Parsed::Val(n, k) => sp_md_yaml(s@, i as int) matches SpRes::Val(n2, k2) && n2
                == node_view(n) && k2 == k as int && i < k <= s@.len(),
            Parsed::Back => sp_md_yaml(s@, i as int) is Back,
            Parsed::Fail(e) => sp_md_yaml(s@, i as int) is Fail && e.offset <= s@.len(),
        },
{
    let dash = md_dashes_x();
    match fence_x(s, i, &dash) {
        Some(j) => match find_fence_x(s, j, &dash) {
            Some(p) => Parsed::Val(Node::Yaml(subrange_vec(s, j, p.0)), p.1),
            None => Parsed::Fail(
                ParseError { offset: j, expected: String::from_str("ending pattern") },
            ),
        },
        None => Parsed::Back,
    }
}

fn md_math_x(s: &Vec<u8>, i: usize) -> (r: Parsed<Node>)
    requires
        i <= s@.len(),
    ensures
        match r {
            Parsed::Val(n, k) => sp_md_math(s@, i as int) matches SpRes::Val(n2, k2) && n2
                == node_view(n) && k2 == k as int && i < k <= s@.len(),
            Parsed::Back => sp_md_math(s@, i as int) is Back,
            Parsed::Fail(e) => sp_md_math(s@, i as int) is Fail && e.offset <= s@.len(),
        },
{
    let doll = md_dollars_x();
    match fence_x(s, i, &doll) {
        Some(j) => match find_fence_x(s, j, &doll) {
            Some(p) => Parsed::Val(
                Node::Math(Math { value: subrange_vec(s, j, p.0), meta: None }),
                p.1,
            ),
            None => Parsed::Fail(
                ParseError { offset: j, expected: String::from_str("ending pattern") },
            ),
        },
        None => Parsed::Back,
    }
}

fn md_code_x(s: &Vec<u8>, i: usize, f: &Vec<u8>) -> (r: Parsed<Node>)
    requires
        i <= s@.len(),
    ensures
        match r {
            Parsed::Val(n, k) => sp_md_code(s@, i as int, f@) matches SpRes::Val(n2, k2) && n2
                == node_view(n) && k2 == k as int && i < k <= s@.len(),
            Parsed::Back => sp_md_code(s@, i as int, f@) is Back,
            Parsed::Fail(e) => sp_md_code(s@, i as int, f@) is Fail && e.offset <= s@.len(),
        },
{
    let n = s.len();
    if !crate::parse::match_at(s, i, f) {
        return Parsed::Back;
    }
    let j = i + f.len();
    let se = space_end_x(s, j);
    let langp: (Option<Vec<u8>>, usize) = match crate::parse::identifier(s, se) {
        Parsed::Val(nm, p) => (Some(nm), p),
        _ => (None, j),
    };
    let q = space_end_x(s, langp.1);
    match line_ending_x(s, q) {
        Some(b) => match find_fence_x(s, b, f) {
            Some(p) => Parsed::Val(
                Node::Code(Code { value: subrange_vec(s, b, p.0), lang: langp.0, meta: None }),
                p.1,
            ),
            None => Parsed::Fail(
                ParseError { offset: b, expected: String::from_str("ending pattern") },
            ),
        },
        None => Parsed::Back,
    }
}

fn md_term_at(s: &Vec<u8>, i: usize, t: MdTerm) -> (r: bool)
    requires
        i <= s@.len(),
    ensures
        r == md_term_byte(s@, i as int, t),
{
    if i >= s.len() {
        return false;
    }
    let b = s[i];
    match t {
        MdTerm::Line => b == 10 || b == 13,
        MdTerm::Star => b == 42,
        MdTerm::Under => b == 95,
        MdTerm::Bracket => b == 93,
        MdTerm::Tilde => b == 126,
    }
}

/// One inline construct at `i`.
fn md_inline_x(s: &Vec<u8>, i: usize) -> (r: Parsed<Node>)
    requires
        i <= s@.len(),
    ensures
        match r {
            Parsed::Val(n, k) => sp_md_inline(s@, i as int) matches SpRes::Val(n2, k2) && n2
                == node_view(n) && k2 == k as int && i < k <= s@.len(),
            Parsed::Back => sp_md_inline(s@, i as int) is Back,
            Parsed::Fail(e) => sp_md_inline(s@, i as int) is Fail && e.offset <= s@.len(),
        },
    decreases s@.len() - i, 0int,
{
    if i >= s.len() {
        return Parsed::Back;
    }
    let b = s[i];
    if b == 42 {
        if i + 1 < s.len() && s[i + 1] == 42 {
            match md_paragraph_x(s, i + 2, MdTerm::Star) {
                Parsed::Val(ns, p) => {
                    if p < s.len() && s[p] == 42 && p + 1 < s.len() && s[p + 1] == 42 {
                        Parsed::Val(Node::Strong(ns), p + 2)
                    } else {
                        Parsed::Back
                    }
                },
                Parsed::Back => Parsed::Back,
                Parsed::Fail(e) => Parsed::Fail(e),
            }
        } else {
            Parsed::Back
        }
    } else if b == 95 {
        match md_paragraph_x(s, i + 1, MdTerm::Under) {
            Parsed::Val(ns, p) => {
                if p < s.len() && s[p] == 95 {
                    Parsed::Val(Node::Emphasis(ns), p + 1)
                } else {
                    Parsed::Back
                }
            },
            Parsed::Back => Parsed::Back,
            Parsed::Fail(e) => Parsed::Fail(e),
        }
    } else if b == 91 {
        match md_paragraph_x(s, i + 1, MdTerm::Bracket) {
            Parsed::Val(ns, p) => {
                if p < s.len() && s[p] == 93 && p + 1 < s.len() && s[p + 1] == 40 {
                    let u = crate::visitor::find_byte_x_pub(s, p + 2, 41);
                    if u < s.len() {
                        Parsed::Val(
                            Node::Link(
                                Link { children: ns, url: subrange_vec(s, p + 2, u), title: None },
                            ),
                            u + 1,
                        )
                    } else {
                        Parsed::Back
                    }
                } else {
                    Parsed::Back
                }
            },
            Parsed::Back => Parsed::Back,
            Parsed::Fail(e) => Parsed::Fail(e),
        }
    } else if b == 33 {
        if i + 1 < s.len() && s[i + 1] == 91 {
            let a = crate::visitor::find_byte_x_pub(s, i + 2, 93);
            if a < s.len() && a + 1 < s.len() && s[a + 1] == 40 {
                let u = crate::visitor::find_byte_x_pub(s, a + 2, 41);
                if u < s.len() {
                    Parsed::Val(
                        Node::Image(
                            Image {
                                alt: subrange_vec(s, i + 2, a),
                                url: subrange_vec(s, a + 2, u),
                                title: None,
                            },
                        ),
                        u + 1,
                    )
                } else {
                    Parsed::Back
                }
            } else {
                proof {
                    assert(sp_md_inline(s@, i as int) is Back);
                }
                Parsed::Back
            }
        } else {
            Parsed::Back
        }
    } else if b == 126 {
        if i + 1 < s.len() && s[i + 1] == 126 {
            match md_paragraph_x(s, i + 2, MdTerm::Tilde) {
                Parsed::Val(ns, p) => {
                    if p < s.len() && s[p] == 126 && p + 1 < s.len() && s[p + 1] == 126 {
                        Parsed::Val(Node::Delete(ns), p + 2)
                    } else {
                        Parsed::Back
                    }
                },
                Parsed::Back => Parsed::Back,
                Parsed::Fail(e) => Parsed::Fail(e),
            }
        } else {
            Parsed::Back
        }
    } else if b == 36 {
        let u = crate::visitor::find_byte_x_pub(s, i + 1, 36);
        if u < s.len() {
            Parsed::Val(Node::InlineMath(subrange_vec(s, i + 1, u)), u + 1)
        } else {
            Parsed::Back
        }
    } else if b == 96 {
        let u = crate::visitor::find_byte_x_pub(s, i + 1, 96);
        if u < s.len() {
            Parsed::Val(Node::InlineCode(subrange_vec(s, i + 1, u)), u + 1)
        } else {
            Parsed::Back
        }
    } else {
        Parsed::Back
    }
}

fn md_special_at(s: &Vec<u8>, i: usize) -> (r: bool)
    requires
        i < s@.len(),
    ensures
        r == md_special(s@[i as int]),
{
    let b = s[i];
    b == 42 || b == 91 || b == 33 || b == 126 || b == 36 || b == 96 || b == 95
}

/// The inline scan with its text segmentation.
fn md_par_x(s: &Vec<u8>, seg: usize, i: usize, t: MdTerm) -> (r: Parsed<Vec<Node>>)
    requires
        seg <= i <= s@.len(),
    ensures
        match r {
            Parsed::Val(v, k) => sp_md_par(s@, seg as int, i as int, t) matches SpRes::Val(p, e)
                && p.0 == nodes_view(v@) && p.1 == k as int && e == k as int && i <= k <= s@.len(),
            Parsed::Back => sp_md_par(s@, seg as int, i as int, t) is Back,
            Parsed::Fail(e) => sp_md_par(s@, seg as int, i as int, t) is Fail && e.offset <= s@.len(),
        },
    decreases s@.len() - i, 1int,
{
    if i >= s.len() {
        let mut v: Vec<Node> = Vec::new();
        if i > seg {
            v.push(Node::Text(subrange_vec(s, seg, s.len())));
            proof {
                assert(v@ =~= seq![v@[0]]);
                lemma_nodes_view_one(v@[0]);
                assert(nodes_view(v@) =~= seq![NodeV::Text(s@.subrange(seg as int, s@.len() as int))]);
            }
        } else {
            proof {
                assert(nodes_view(v@) =~= Seq::<NodeV>::empty());
            }
        }
        return Parsed::Val(v, s.len());
    }
    if md_term_at(s, i, t) {
        let mut v: Vec<Node> = Vec::new();
        if i > seg {
            v.push(Node::Text(subrange_vec(s, seg, i)));
            proof {
                assert(v@ =~= seq![v@[0]]);
                lemma_nodes_view_one(v@[0]);
                assert(nodes_view(v@) =~= seq![NodeV::Text(s@.subrange(seg as int, i as int))]);
            }
        } else {
            proof {
                assert(nodes_view(v@) =~= Seq::<NodeV>::empty());
            }
        }
        return Parsed::Val(v, i);
    }
    if md_special_at(s, i) {
        match md_inline_x(s, i) {
            Parsed::Val(n, k) => {
                match md_par_x(s, k, k, t) {
                    Parsed::Val(mut rest, e) => {
                        let ghost r0 = rest@;
                        let ghost nv = node_view(n);
                        rest.insert(0, n);
                        proof {
                            lemma_nodes_view_insert0(r0, rest@[0]);
                            assert(rest@ == r0.insert(0, rest@[0]));
                            assert(node_view(rest@[0]) == nv);
                        }
                        if i > seg {
                            let txt = Node::Text(subrange_vec(s, seg, i));
                            let ghost r1 = rest@;
                            let ghost tv = node_view(txt);
                            rest.insert(0, txt);
                            proof {
                                lemma_nodes_view_insert0(r1, rest@[0]);
                                assert(rest@ == r1.insert(0, rest@[0]));
                                assert(node_view(rest@[0]) == tv);
                                assert(nodes_view(rest@) =~= seq![
                                    NodeV::Text(s@.subrange(seg as int, i as int)),
                                    nv,
                                ] + nodes_view(r0));
                            }
                        } else {
                            proof {
                                assert(nodes_view(rest@) =~= seq![nv] + nodes_view(r0));
                            }
                        }
                        Parsed::Val(rest, e)
                    },
                    Parsed::Back => Parsed::Back,
                    Parsed::Fail(e) => Parsed::Fail(e),
                }
            },
            Parsed::Back => md_par_x(s, seg, i + 1, t),
            Parsed::Fail(e) => Parsed::Fail(e),
        }
    } else {
        md_par_x(s, seg, i + 1, t)
    }
}

/// A nonempty inline run.
fn md_paragraph_x(s: &Vec<u8>, i: usize, t: MdTerm) -> (r: Parsed<Vec<Node>>)
    requires
        i <= s@.len(),
    ensures
        match r {
            Parsed::Val(v, k) => sp_md_paragraph(s@, i as int, t) matches SpRes::Val(ns, k2) && ns
                == nodes_view(v@) && k2 == k as int && i <= k <= s@.len() && v@.len() > 0,
            Parsed::Back => sp_md_paragraph(s@, i as int, t) is Back,
            Parsed::Fail(e) => sp_md_paragraph(s@, i as int, t) is Fail && e.offset <= s@.len(),
        },
    decreases s@.len() - i, 2int,
{
    match md_par_x(s, i, i, t) {
        Parsed::Val(v, k) => {
            proof {
                lemma_nodes_view_len(v@);
            }
            if v.len() == 0 {
                Parsed::Back
            } else {
                Parsed::Val(v, k)
            }
        },
        Parsed::Back => Parsed::Back,
        Parsed::Fail(e) => Parsed::Fail(e),
    }
}

/// A heading.
fn md_heading_x(s: &Vec<u8>, i: usize) -> (r: Parsed<Node>)
    requires
        i <= s@.len(),
    ensures
        match r {
            Parsed::Val(n, k) => sp_md_heading(s@, i as int) matches SpRes::Val(n2, k2) && n2
                == node_view(n) && k2 == k as int && i < k <= s@.len(),
            Parsed::Back => sp_md_heading(s@, i as int) is Back,
            Parsed::Fail(e) => sp_md_heading(s@, i as int) is Fail && e.offset <= s@.len(),
        },
{
    if i >= s.len() || s[i] != 35 {
        return Parsed::Back;
    }
    let run = crate::visitor::hash_end_x(s, i + 1);
    let take = if run - i > 255 {
        255
    } else {
        run - i
    };
    let pos = i + take;
    let d = #[verifier::truncate] (take as u8);
    match md_paragraph_x(s, pos, MdTerm::Line) {
        Parsed::Val(ns, p) => match line_ending_x(s, p) {
            Some(q) => Parsed::Val(Node::Heading(Heading { children: ns, depth: d }), q),
            None => Parsed::Back,
        },
        Parsed::Back => Parsed::Back,
        Parsed::Fail(e) => Parsed::Fail(e),
    }
}

fn md_break_at(s: &Vec<u8>, i: usize) -> (r: bool)
    requires
        i <= s@.len(),
    ensures
        r == md_break_here(s@, i as int),
{
    if i >= s.len() {
        return true;
    }
    let ti = md_tildes_x();
    let da = md_dashes_x();
    let tk = md_ticks_x();
    let dl = md_dollars_x();
    if crate::parse::match_at(s, i, &ti) || crate::parse::match_at(s, i, &da)
        || crate::parse::match_at(s, i, &tk) {
        return true;
    }
    if s[i] == 35 {
        return true;
    }
    if crate::parse::match_at(s, i, &dl) {
        return true;
    }
    match line_ending_x(s, i) {
        Some(_) => true,
        None => false,
    }
}

/// A paragraph group.
fn md_top_paragraph_x(s: &Vec<u8>, i: usize) -> (r: Parsed<Vec<Node>>)
    requires
        i <= s@.len(),
    ensures
        match r {
            Parsed::Val(v, k) => sp_md_top_paragraph(s@, i as int) matches SpRes::Val(ns, k2) && ns
                == nodes_view(v@) && k2 == k as int && i <= k <= s@.len(),
            Parsed::Back => sp_md_top_paragraph(s@, i as int) is Back,
            Parsed::Fail(e) => sp_md_top_paragraph(s@, i as int) is Fail && e.offset <= s@.len(),
        },
    decreases s@.len() - i,
{
    match md_paragraph_x(s, i, MdTerm::Line) {
        Parsed::Val(mut ns, p) => {
            let p2 = match line_ending_x(s, p) {
                Some(q) => q,
                None => p,
            };
            if md_break_at(s, p2) {
                Parsed::Val(ns, p2)
            } else if p2 <= i {
                Parsed::Fail(ParseError { offset: p2, expected: String::from_str("text") })
            } else {
                match md_top_paragraph_x(s, p2) {
                    Parsed::Val(mut rest, e) => {
                        let ghost n0 = ns@;
                        let ghost r0 = rest@;
                        ns.append(&mut rest);
                        proof {
                            assert(ns@ == n0 + r0);
                            lemma_nodes_view_concat(n0, r0);
                        }
                        Parsed::Val(ns, e)
                    },
                    Parsed::Back => Parsed::Back,
                    Parsed::Fail(e) => Parsed::Fail(e),
                }
            }
        },
        Parsed::Back => Parsed::Back,
        Parsed::Fail(e) => Parsed::Fail(e),
    }
}

/// One top-level block, with trailing whitespace consumed.
fn md_top_x(s: &Vec<u8>, i: usize) -> (r: Parsed<Node>)
    requires
        i <= s@.len(),
    ensures
        match r {
            Parsed::Val(n, k) => sp_md_top(s@, i as int) matches SpRes::Val(n2, k2) && n2
                == node_view(n) && k2 == k as int && i <= k <= s@.len(),
            Parsed::Back => sp_md_top(s@, i as int) is Back,
            Parsed::Fail(e) => sp_md_top(s@, i as int) is Fail && e.offset <= s@.len(),
        },
{
    if i >= s.len() {
        return Parsed::Back;
    }
    let b = s[i];
    let d: Parsed<Node> = if b == 45 {
        md_yaml_x(s, i)
    } else if b == 60 {
        match crate::parse::element(s, i) {
            Parsed::Val(e, k) => Parsed::Val(Node::Html(e), k),
            Parsed::Back => Parsed::Back,
            Parsed::Fail(e) => Parsed::Fail(e),
        }
    } else if b == 96 {
        let tk = md_ticks_x();
        md_code_x(s, i, &tk)
    } else if b == 126 {
        let ti = md_tildes_x();
        md_code_x(s, i, &ti)
    } else if b == 36 {
        md_math_x(s, i)
    } else if b == 35 {
        md_heading_x(s, i)
    } else {
        Parsed::Back
    };
    match d {
        Parsed::Val(n, k) => Parsed::Val(n, crate::parse::skip_ws_x(s, k)),
        Parsed::Fail(e) => Parsed::Fail(e),
        Parsed::Back => match md_top_paragraph_x(s, i) {
            Parsed::Val(ns, p) => Parsed::Val(Node::Paragraph(ns), crate::parse::skip_ws_x(s, p)),
            Parsed::Back => Parsed::Back,
            Parsed::Fail(e) => Parsed::Fail(e),
        },
    }
}

/// Zero or more top-level blocks.
fn md_tops_x(s: &Vec<u8>, i: usize) -> (r: Parsed<Vec<Node>>)
    requires
        i <= s@.len(),
    ensures
        match r {
            Parsed::Val(v, k) => sp_md_tops(s@, i as int) matches SpRes::Val(ns, k2) && ns
                == nodes_view(v@) && k2 == k as int && i <= k <= s@.len(),
            Parsed::Back => sp_md_tops(s@, i as int) is Back,
            Parsed::Fail(e) => sp_md_tops(s@, i as int) is Fail && e.offset <= s@.len(),
        },
    decreases s@.len() - i,
{
    match md_top_x(s, i) {
        Parsed::Val(n, k) => {
            if k <= i {
                return Parsed::Fail(
                    ParseError { offset: k, expected: String::from_str("progress") },
                );
            }
            match md_tops_x(s, k) {
                Parsed::Val(mut rest, e) => {
                    let ghost r0 = rest@;
                    let ghost nv = node_view(n);
                    rest.insert(0, n);
                    proof {
                        lemma_nodes_view_insert0(r0, rest@[0]);
                        assert(rest@ == r0.insert(0, rest@[0]));
                        assert(node_view(rest@[0]) == nv);
                        assert(nodes_view(rest@) =~= seq![nv] + nodes_view(r0));
                    }
                    Parsed::Val(rest, e)
                },
                Parsed::Back => Parsed::Back,
                Parsed::Fail(e) => Parsed::Fail(e),
            }
        },
        Parsed::Back => {
            let v: Vec<Node> = Vec::new();
            proof {
                assert(nodes_view(v@) =~= Seq::<NodeV>::empty());
            }
            Parsed::Val(v, i)
        },
        Parsed::Fail(e) => Parsed::Fail(e),
    }
}

/// Parse a whole markdown document: leading whitespace, top-level blocks,
/// the end of input. Anything else is an error.
pub fn document(s: &Vec<u8>) -> (r: Result<Vec<Node>, ParseError>)
    ensures
        match r {
            Ok(ns) => sp_md_document(s@) == Some(nodes_view(ns@)),
            Err(e) => sp_md_document(s@) is None && e.offset <= s@.len(),
        },
{
    let j = crate::parse::skip_ws_x(s, 0);
    match md_tops_x(s, j) {
        Parsed::Val(ns, k) => {
            if k == s.len() {
                Ok(ns)
            } else {
                Err(ParseError { offset: k, expected: String::from_str("end of input") })
            }
        },
        Parsed::Back => Err(ParseError { offset: j, expected: String::from_str("block") }),
        Parsed::Fail(e) => Err(e),
    }
}

} // verus!
