//! The markup parser.
//!
//! The grammar is stated as a family of specification-level parsing
//! functions over a byte sequence and a position (`sp_*`); the executable
//! parser returns exactly what those functions describe. A parse step either
//! yields a value and the position after it (`Val`), declines so that the
//! caller may try another alternative (`Back`), or fails the whole parse
//! after a committing token was seen (`Fail`): an unterminated quoted value,
//! a missing closing tag, an unterminated comment or raw-text body.
//!
//! Raw-text elements (`script`, `style`) take their body verbatim up to the
//! first position where a matching closing tag actually parses, so a literal
//! `<` inside the body does not start a new tag. Void elements (`hr`,
//! `input`, `link`, `img`) never consume children or a closing tag.

use vstd::prelude::*;

use crate::element::AttrV;
use crate::element::Attribute;
use crate::element::ElemV;
use crate::element::Element;
use crate::element::Node;
use crate::element::NodeV;
use crate::element::attrs_view;
use crate::element::node_view;
use crate::element::nodes_view;
use crate::element::subrange_vec;

verus! {

broadcast use vstd::std_specs::vec::group_vec_axioms, vstd::seq::group_seq_axioms;

/// The outcome of one specification-level parse step.
#[verifier::ext_equal]
pub enum SpRes<T> {
    /// The construct matched; the position is the first byte after it.
    Val(T, int),
    /// The construct did not begin here; the caller may try the next one.
    Back,
    /// The construct began but cannot be completed: the whole parse fails.
    Fail,
}

/// A parse error, carrying the byte offset where parsing stopped and a
/// label for the construct that was expected there.
#[derive(Debug)]
pub struct ParseError {
    pub offset: usize,
    pub expected: String,
}

/// The outcome of one executable parse step.
pub enum Parsed<T> {
    Val(T, usize),
    Back,
    Fail(ParseError),
}

// --- Byte classes and reserved names --------------------------------------

pub open spec fn is_alpha(b: u8) -> bool {
    (65 <= b <= 90) || (97 <= b <= 122)
}

pub open spec fn is_ident_byte(b: u8) -> bool {
    is_alpha(b) || (48 <= b <= 57) || b == 95 || b == 45
}

pub open spec fn is_space(b: u8) -> bool {
    b == 32 || b == 9 || b == 10 || b == 13
}

pub open spec fn script_name() -> Seq<u8> {
    seq![115u8, 99u8, 114u8, 105u8, 112u8, 116u8]
}

pub open spec fn style_name() -> Seq<u8> {
    seq![115u8, 116u8, 121u8, 108u8, 101u8]
}

pub open spec fn hr_name() -> Seq<u8> {
    seq![104u8, 114u8]
}

pub open spec fn input_name() -> Seq<u8> {
    seq![105u8, 110u8, 112u8, 117u8, 116u8]
}

pub open spec fn link_name() -> Seq<u8> {
    seq![108u8, 105u8, 110u8, 107u8]
}

pub open spec fn img_name() -> Seq<u8> {
    seq![105u8, 109u8, 103u8]
}

/// Raw-text elements: their body is taken verbatim up to the first parsable
/// matching closing tag.
pub open spec fn is_raw_text_name(n: Seq<u8>) -> bool {
    n == script_name() || n == style_name()
}

/// Void elements: they never consume children or a closing tag.
pub open spec fn is_void_name(n: Seq<u8>) -> bool {
    n == hr_name() || n == input_name() || n == link_name() || n == img_name()
}

// --- Position helpers ------------------------------------------------------

/// The first position at or after `i` holding a byte that is not ASCII
/// whitespace.
pub open spec fn skip_ws(s: Seq<u8>, i: int) -> int
    decreases s.len() - i,
{
    if i < 0 || i >= s.len() {
        i
    } else if is_space(s[i]) {
        skip_ws(s, i + 1)
    } else {
        i
    }
}

pub proof fn lemma_skip_ws(s: Seq<u8>, i: int)
    requires
        0 <= i <= s.len(),
    ensures
        i <= skip_ws(s, i) <= s.len(),
    decreases s.len() - i,
{
    if i < s.len() && is_space(s[i]) {
        lemma_skip_ws(s, i + 1);
    }
}

/// The first position at or after `i` holding a byte that cannot continue an
/// identifier.
pub open spec fn ident_end(s: Seq<u8>, i: int) -> int
    decreases s.len() - i,
{
    if i < 0 || i >= s.len() {
        i
    } else if is_ident_byte(s[i]) {
        ident_end(s, i + 1)
    } else {
        i
    }
}

pub proof fn lemma_ident_end(s: Seq<u8>, i: int)
    requires
        0 <= i <= s.len(),
    ensures
        i <= ident_end(s, i) <= s.len(),
        i < s.len() && is_ident_byte(s[i]) ==> i < ident_end(s, i),
    decreases s.len() - i,
{
    if i < s.len() && is_ident_byte(s[i]) {
        lemma_ident_end(s, i + 1);
    }
}

/// The position of the closing quote of a quoted value scanned from `i`,
/// where `last` is the byte before `i`: a quote preceded by a backslash does
/// not close the value. `s.len()` means no closing quote exists.
pub open spec fn string_end(s: Seq<u8>, i: int, last: u8) -> int
    decreases s.len() - i,
{
    if i < 0 || i >= s.len() {
        s.len() as int
    } else if s[i] == 34 && last != 92 {
        i
    } else {
        string_end(s, i + 1, s[i])
    }
}

pub proof fn lemma_string_end(s: Seq<u8>, i: int, last: u8)
    requires
        0 <= i <= s.len(),
    ensures
        string_end(s, i, last) == s.len() || i <= string_end(s, i, last) < s.len(),
    decreases s.len() - i,
{
    if i < s.len() && !(s[i] == 34 && last != 92) {
        lemma_string_end(s, i + 1, s[i]);
    }
}

// --- Leaf parsers -----------------------------------------------------------

/// `identifier := alphabetic, then (alphanumeric | '_' | '-')*`.
pub open spec fn sp_ident(s: Seq<u8>, i: int) -> SpRes<Seq<u8>> {
    if 0 <= i < s.len() && is_alpha(s[i]) {
        SpRes::Val(s.subrange(i, ident_end(s, i)), ident_end(s, i))
    } else {
        SpRes::Back
    }
}

pub proof fn lemma_sp_ident(s: Seq<u8>, i: int)
    ensures
        sp_ident(s, i) matches SpRes::Val(v, k) ==> 0 <= i < k <= s.len(),
{
    if 0 <= i < s.len() && is_alpha(s[i]) {
        lemma_ident_end(s, i);
    }
}

/// A quoted value: `"` up to the first `"` not preceded by `\`. A missing
/// opening quote declines; a missing closing quote fails the parse.
pub open spec fn sp_string(s: Seq<u8>, i: int) -> SpRes<Seq<u8>> {
    if 0 <= i < s.len() && s[i] == 34 {
        if string_end(s, i + 1, 34) < s.len() {
            SpRes::Val(s.subrange(i + 1, string_end(s, i + 1, 34)), string_end(s, i + 1, 34) + 1)
        } else {
            SpRes::Fail
        }
    } else {
        SpRes::Back
    }
}

pub proof fn lemma_sp_string(s: Seq<u8>, i: int)
    ensures
        sp_string(s, i) matches SpRes::Val(v, k) ==> 0 <= i < k <= s.len(),
{
    if 0 <= i < s.len() && s[i] == 34 {
        lemma_string_end(s, i + 1, 34);
    }
}

/// `attribute := identifier ['=' quoted-value]`, with whitespace allowed
/// around `=`. When no `=` follows the name, the attribute has no value.
pub open spec fn sp_attr(s: Seq<u8>, i: int) -> SpRes<AttrV> {
    match sp_ident(s, i) {
        SpRes::Val(name, j) => {
            let k = skip_ws(s, j);
            if k < s.len() && s[k] == 61 {
                match sp_string(s, skip_ws(s, k + 1)) {
                    SpRes::Val(v, e) => SpRes::Val(AttrV { name, value: Some(v) }, e),
                    SpRes::Back => SpRes::Val(AttrV { name, value: None }, j),
                    SpRes::Fail => SpRes::Fail,
                }
            } else {
                SpRes::Val(AttrV { name, value: None }, j)
            }
        },
        SpRes::Back => SpRes::Back,
        SpRes::Fail => SpRes::Fail,
    }
}

pub proof fn lemma_sp_attr(s: Seq<u8>, i: int)
    ensures
        sp_attr(s, i) matches SpRes::Val(a, k) ==> 0 <= i < k <= s.len(),
{
    lemma_sp_ident(s, i);
    match sp_ident(s, i) {
        SpRes::Val(name, j) => {
            lemma_skip_ws(s, j);
            let k = skip_ws(s, j);
            if k < s.len() && s[k] == 61 {
                lemma_skip_ws(s, k + 1);
                lemma_sp_string(s, skip_ws(s, k + 1));
            }
        },
        _ => {},
    }
}

/// Zero or more attributes, each preceded by optional whitespace.
pub open spec fn sp_attrs(s: Seq<u8>, i: int) -> SpRes<Seq<AttrV>>
    decreases s.len() - i,
    via sp_attrs_dec
{
    match sp_attr(s, skip_ws(s, i)) {
        SpRes::Val(a, k) => if k <= i {
            SpRes::Fail
        } else {
            match sp_attrs(s, k) {
                SpRes::Val(rest, e) => SpRes::Val(seq![a] + rest, e),
                SpRes::Back => SpRes::Back,
                SpRes::Fail => SpRes::Fail,
            }
        },
        SpRes::Back => SpRes::Val(Seq::empty(), i),
        SpRes::Fail => SpRes::Fail,
    }
}

#[via_fn]
proof fn sp_attrs_dec(s: Seq<u8>, i: int) {
    lemma_sp_attr(s, skip_ws(s, i));
}

pub proof fn lemma_sp_attrs(s: Seq<u8>, i: int)
    requires
        0 <= i <= s.len(),
    ensures
        sp_attrs(s, i) matches SpRes::Val(a, k) ==> i <= k <= s.len() && 0 <= k,
    decreases s.len() - i,
{
    lemma_skip_ws(s, i);
    lemma_sp_attr(s, skip_ws(s, i));
    match sp_attr(s, skip_ws(s, i)) {
        SpRes::Val(a, k) => {
            if i < k {
                lemma_sp_attrs(s, k);
            }
        },
        _ => {},
    }
}

/// A closing tag `</ name >` at `i`, with whitespace allowed around the
/// name; the result is the position after `>`.
pub open spec fn sp_closing(s: Seq<u8>, i: int, name: Seq<u8>) -> Option<int> {
    if 0 <= i && i + 2 <= s.len() && s[i] == 60 && s[i + 1] == 47 {
        let j = skip_ws(s, i + 2);
        if j + name.len() <= s.len() && s.subrange(j, j + name.len() as int) == name {
            let k = skip_ws(s, j + name.len());
            if k < s.len() && s[k] == 62 {
                Some(k + 1)
            } else {
                None
            }
        } else {
            None
        }
    } else {
        None
    }
}

pub proof fn lemma_sp_closing(s: Seq<u8>, i: int, name: Seq<u8>)
    ensures
        sp_closing(s, i, name) matches Some(e) ==> 0 <= i < e <= s.len(),
{
    if 0 <= i && i + 2 <= s.len() && s[i] == 60 && s[i + 1] == 47 {
        lemma_skip_ws(s, i + 2);
        let j = skip_ws(s, i + 2);
        if j + name.len() <= s.len() && s.subrange(j, j + name.len() as int) == name {
            lemma_skip_ws(s, j + name.len());
        }
    }
}

/// The first position at or after `i` where a matching closing tag parses;
/// the raw-text body runs up to it. `None` when no such position exists.
pub open spec fn find_close(s: Seq<u8>, i: int, name: Seq<u8>) -> Option<(int, int)>
    decreases s.len() - i,
{
    if i < 0 || i >= s.len() {
        None
    } else if s[i] == 60 && sp_closing(s, i, name) is Some {
        match sp_closing(s, i, name) {
            Some(e) => Some((i, e)),
            None => None,
        }
    } else {
        find_close(s, i + 1, name)
    }
}

pub proof fn lemma_find_close(s: Seq<u8>, i: int, name: Seq<u8>)
    requires
        0 <= i <= s.len(),
    ensures
        find_close(s, i, name) matches Some(p) ==> i <= p.0 < p.1 <= s.len(),
    decreases s.len() - i,
{
    if i < s.len() {
        if s[i] == 60 && sp_closing(s, i, name) is Some {
            lemma_sp_closing(s, i, name);
        } else {
            lemma_find_close(s, i + 1, name);
        }
    }
}

/// The first position at or after `i` where the comment terminator `-->`
/// begins.
pub open spec fn find_dashes(s: Seq<u8>, i: int) -> Option<int>
    decreases s.len() - i,
{
    if i < 0 || i + 3 > s.len() {
        None
    } else if s[i] == 45 && s[i + 1] == 45 && s[i + 2] == 62 {
        Some(i)
    } else {
        find_dashes(s, i + 1)
    }
}

pub proof fn lemma_find_dashes(s: Seq<u8>, i: int)
    requires
        0 <= i <= s.len(),
    ensures
        find_dashes(s, i) matches Some(d) ==> i <= d && d + 3 <= s.len(),
    decreases s.len() - i,
{
    if i + 3 <= s.len() && !(s[i] == 45 && s[i + 1] == 45 && s[i + 2] == 62) {
        lemma_find_dashes(s, i + 1);
    }
}

/// The first position at or after `i` holding `<`.
pub open spec fn find_lt(s: Seq<u8>, i: int) -> Option<int>
    decreases s.len() - i,
{
    if i < 0 || i >= s.len() {
        None
    } else if s[i] == 60 {
        Some(i)
    } else {
        find_lt(s, i + 1)
    }
}

pub proof fn lemma_find_lt(s: Seq<u8>, i: int)
    requires
        0 <= i <= s.len(),
    ensures
        find_lt(s, i) matches Some(d) ==> i <= d < s.len() && s[d] == 60,
    decreases s.len() - i,
{
    if i < s.len() && s[i] != 60 {
        lemma_find_lt(s, i + 1);
    }
}

pub open spec fn comment_open() -> Seq<u8> {
    seq![60u8, 33u8, 45u8, 45u8]
}

// --- The element grammar ----------------------------------------------------

/// `element := '<' identifier attribute* ('/>' | '>' body)`, where the body
/// of a raw-text element is a verbatim text run, a void element has no body,
/// and any other element holds child nodes followed by a mandatory closing
/// tag whose absence fails the parse.
pub open spec fn sp_element(s: Seq<u8>, i: int) -> SpRes<ElemV>
    decreases s.len() - i, 0int,
    via sp_element_dec
{
    if !(0 <= i < s.len() && s[i] == 60) {
        SpRes::Back
    } else {
        match sp_ident(s, i + 1) {
            SpRes::Val(name, j) => match sp_attrs(s, j) {
                SpRes::Val(attrs, k0) => {
                    let k = skip_ws(s, k0);
                    if k + 2 <= s.len() && s[k] == 47 && s[k + 1] == 62 {
                        SpRes::Val(
                            ElemV { name, attributes: attrs, children: Seq::empty() },
                            k + 2,
                        )
                    } else if k < s.len() && s[k] == 62 {
                        if is_raw_text_name(name) {
                            match find_close(s, k + 1, name) {
                                Some(p) => SpRes::Val(
                                    ElemV {
                                        name,
                                        attributes: attrs,
                                        children: seq![NodeV::Text(s.subrange(k + 1, p.0))],
                                    },
                                    p.1,
                                ),
                                None => SpRes::Fail,
                            }
                        } else if is_void_name(name) {
                            SpRes::Val(
                                ElemV { name, attributes: attrs, children: Seq::empty() },
                                k + 1,
                            )
                        } else if k + 1 <= i {
                            SpRes::Fail
                        } else {
                            match sp_nodes(s, k + 1) {
                                SpRes::Val(children, p) => match sp_closing(
                                    s,
                                    skip_ws(s, p),
                                    name,
                                ) {
                                    Some(end) => SpRes::Val(
                                        ElemV { name, attributes: attrs, children },
                                        end,
                                    ),
                                    None => SpRes::Fail,
                                },
                                SpRes::Back => SpRes::Fail,
                                SpRes::Fail => SpRes::Fail,
                            }
                        }
                    } else {
                        SpRes::Back
                    }
                },
                SpRes::Back => SpRes::Back,
                SpRes::Fail => SpRes::Fail,
            },
            SpRes::Back => SpRes::Back,
            SpRes::Fail => SpRes::Fail,
        }
    }
}

#[via_fn]
proof fn sp_element_dec(s: Seq<u8>, i: int) {
}

/// `content := comment | element | text-run`; a text run is the longest run
/// not starting with `<`: it ends at the next `<` or at the end of input.
pub open spec fn sp_node(s: Seq<u8>, i: int) -> SpRes<NodeV>
    decreases s.len() - i, 1int,
{
    if !(0 <= i < s.len()) {
        SpRes::Back
    } else if s[i] == 60 {
        if i + 4 <= s.len() && s.subrange(i, i + 4) == comment_open() {
            match find_dashes(s, i + 4) {
                Some(d) => SpRes::Val(NodeV::Comment(s.subrange(i + 4, d)), d + 3),
                None => SpRes::Fail,
            }
        } else {
            match sp_element(s, i) {
                SpRes::Val(e, k) => SpRes::Val(NodeV::Element(e), k),
                SpRes::Back => SpRes::Back,
                SpRes::Fail => SpRes::Fail,
            }
        }
    } else {
        match find_lt(s, i) {
            Some(d) => SpRes::Val(NodeV::Text(s.subrange(i, d)), d),
            None => SpRes::Val(NodeV::Text(s.subrange(i, s.len() as int)), s.len() as int),
        }
    }
}

/// Zero or more content nodes; stops at the first position where none of
/// the alternatives begins.
pub open spec fn sp_nodes(s: Seq<u8>, i: int) -> SpRes<Seq<NodeV>>
    decreases s.len() - i, 2int,
{
    match sp_node(s, i) {
        SpRes::Val(n, k) => if k <= i || k > s.len() {
            SpRes::Fail
        } else {
            match sp_nodes(s, k) {
                SpRes::Val(rest, e) => SpRes::Val(seq![n] + rest, e),
                SpRes::Back => SpRes::Back,
                SpRes::Fail => SpRes::Fail,
            }
        },
        SpRes::Back => SpRes::Val(Seq::empty(), i),
        SpRes::Fail => SpRes::Fail,
    }
}


/// Bounds and progress of the mutually recursive grammar functions: a
/// matched construct ends after where it began and within the input.
pub proof fn lemma_grammar_bounds(s: Seq<u8>, i: int, rank: int)
    requires
        0 <= i <= s.len(),
    ensures
        rank == 0 ==> (sp_element(s, i) matches SpRes::Val(e, k) ==> 0 <= i < k <= s.len()),
        rank == 1 ==> (sp_node(s, i) matches SpRes::Val(n, k) ==> 0 <= i < k <= s.len()),
        rank >= 2 ==> (sp_nodes(s, i) matches SpRes::Val(ns, k) ==> 0 <= i <= k <= s.len()),
    decreases s.len() - i, rank,
{
    if rank == 0 {
        if 0 <= i < s.len() && s[i] == 60 {
            lemma_sp_ident(s, i + 1);
            match sp_ident(s, i + 1) {
                SpRes::Val(name, j) => {
                    lemma_sp_attrs(s, j);
                    match sp_attrs(s, j) {
                        SpRes::Val(attrs, k0) => {
                            lemma_skip_ws(s, k0);
                            let k = skip_ws(s, k0);
                            if k + 2 <= s.len() && s[k] == 47 && s[k + 1] == 62 {
                            } else if k < s.len() && s[k] == 62 {
                                if is_raw_text_name(name) {
                                    lemma_find_close(s, k + 1, name);
                                } else if is_void_name(name) {
                                } else if k + 1 > i {
                                    lemma_grammar_bounds(s, k + 1, 2);
                                    match sp_nodes(s, k + 1) {
                                        SpRes::Val(children, p) => {
                                            lemma_skip_ws(s, p);
                                            lemma_sp_closing(s, skip_ws(s, p), name);
                                        },
                                        _ => {},
                                    }
                                }
                            }
                        },
                        _ => {},
                    }
                },
                _ => {},
            }
        }
    } else if rank == 1 {
        if 0 <= i < s.len() {
            if s[i] == 60 {
                if i + 4 <= s.len() && s.subrange(i, i + 4) == comment_open() {
                    lemma_find_dashes(s, i + 4);
                } else {
                    lemma_grammar_bounds(s, i, 0);
                }
            } else {
                lemma_find_lt(s, i);
                match find_lt(s, i) {
                    Some(d) => {
                        assert(s[i] != 60);
                    },
                    None => {},
                }
            }
        }
    } else if rank >= 2 {
        lemma_grammar_bounds(s, i, 1);
        match sp_node(s, i) {
            SpRes::Val(n, k) => {
                if k > i {
                    lemma_grammar_bounds(s, k, 2);
                }
            },
            _ => {},
        }
    }
}

/// A whole document: top-level nodes, then optional trailing whitespace,
/// then the end of input.
pub open spec fn sp_document(s: Seq<u8>) -> Option<Seq<NodeV>> {
    match sp_nodes(s, 0) {
        SpRes::Val(ns, k) => if skip_ws(s, k) == s.len() {
            Some(ns)
        } else {
            None
        },
        SpRes::Back => None,
        SpRes::Fail => None,
    }
}

/// A component source: optional whitespace, a single root element, optional
/// whitespace, then the end of input.
pub open spec fn sp_component(s: Seq<u8>) -> Option<ElemV> {
    match sp_element(s, skip_ws(s, 0)) {
        SpRes::Val(e, k) => if skip_ws(s, k) == s.len() {
            Some(e)
        } else {
            None
        },
        SpRes::Back => None,
        SpRes::Fail => None,
    }
}

// --- Executable parser -------------------------------------------------------

fn perr(offset: usize, what: &str) -> (r: ParseError)
    ensures
        r.offset == offset,
        r.expected@ == what@,
{
    ParseError { offset, expected: String::from_str(what) }
}

fn space_at(s: &Vec<u8>, r: usize) -> (b: bool)
    requires
        r < s@.len(),
    ensures
        b == is_space(s@[r as int]),
{
    let c = s[r];
    c == 32 || c == 9 || c == 10 || c == 13
}

fn ident_at(s: &Vec<u8>, r: usize) -> (b: bool)
    requires
        r < s@.len(),
    ensures
        b == is_ident_byte(s@[r as int]),
{
    let c = s[r];
    (65 <= c && c <= 90) || (97 <= c && c <= 122) || (48 <= c && c <= 57) || c == 95 || c == 45
}

fn alpha_at(s: &Vec<u8>, r: usize) -> (b: bool)
    requires
        r < s@.len(),
    ensures
        b == is_alpha(s@[r as int]),
{
    let c = s[r];
    (65 <= c && c <= 90) || (97 <= c && c <= 122)
}

pub fn skip_ws_x(s: &Vec<u8>, i: usize) -> (r: usize)
    requires
        i <= s@.len(),
    ensures
        r as int == skip_ws(s@, i as int),
        i <= r <= s@.len(),
    decreases s@.len() - i,
{
    if i < s.len() && space_at(s, i) {
        skip_ws_x(s, i + 1)
    } else {
        i
    }
}

fn ident_end_x(s: &Vec<u8>, i: usize) -> (r: usize)
    requires
        i <= s@.len(),
    ensures
        r as int == ident_end(s@, i as int),
        i <= r <= s@.len(),
    decreases s@.len() - i,
{
    if i < s.len() && ident_at(s, i) {
        ident_end_x(s, i + 1)
    } else {
        i
    }
}

fn string_end_x(s: &Vec<u8>, i: usize, last: u8) -> (r: usize)
    requires
        i <= s@.len(),
    ensures
        r as int == string_end(s@, i as int, last),
        i <= r <= s@.len(),
    decreases s@.len() - i,
{
    if i >= s.len() {
        s.len()
    } else {
        let b = s[i];
        if b == 34 && last != 92 {
            i
        } else {
            string_end_x(s, i + 1, b)
        }
    }
}

/// Whether the bytes of `name` occur at position `j` of `s`.
pub(crate) fn match_at(s: &Vec<u8>, j: usize, name: &Vec<u8>) -> (r: bool)
    requires
        j <= s@.len(),
    ensures
        r == (j + name@.len() <= s@.len() && s@.subrange(
            j as int,
            j as int + name@.len() as int,
        ) == name@),
{
    if name.len() > s.len() - j {
        proof {
            assert(!(j + name@.len() <= s@.len()));
        }
        return false;
    }
    let mut t: usize = 0;
    while t < name.len()
        invariant
            t <= name@.len(),
            j + name@.len() <= s@.len(),
            s@.len() <= usize::MAX,
            forall|u: int| 0 <= u < t ==> s@[j + u] == name@[u],
        decreases name@.len() - t,
    {
        proof {
            assert(j + t < s@.len());
        }
        if s[j + t] != name[t] {
            proof {
                let sub = s@.subrange(j as int, j as int + name@.len() as int);
                assert(sub[t as int] == s@[j + t]);
                assert(sub != name@);
            }
            return false;
        }
        t = t + 1;
    }
    proof {
        assert(s@.subrange(j as int, j as int + name@.len() as int) =~= name@);
    }
    true
}

/// Whether two byte vectors hold the same bytes.
pub fn vec_eq(a: &Vec<u8>, b: &Vec<u8>) -> (r: bool)
    ensures
        r == (a@ == b@),
{
    if a.len() != b.len() {
        proof {
            assert(a@ != b@);
        }
        return false;
    }
    let mut t: usize = 0;
    while t < a.len()
        invariant
            t <= a@.len(),
            a@.len() == b@.len(),
            forall|u: int| 0 <= u < t ==> a@[u] == b@[u],
        decreases a@.len() - t,
    {
        if a[t] != b[t] {
            return false;
        }
        t = t + 1;
    }
    proof {
        assert(a@ =~= b@);
    }
    true
}

fn script_vec() -> (v: Vec<u8>)
    ensures
        v@ == script_name(),
{
    let mut v: Vec<u8> = Vec::new();
    v.push(115);
    v.push(99);
    v.push(114);
    v.push(105);
    v.push(112);
    v.push(116);
    proof {
        assert(v@ =~= script_name());
    }
    v
}

fn style_vec() -> (v: Vec<u8>)
    ensures
        v@ == style_name(),
{
    let mut v: Vec<u8> = Vec::new();
    v.push(115);
    v.push(116);
    v.push(121);
    v.push(108);
    v.push(101);
    proof {
        assert(v@ =~= style_name());
    }
    v
}

fn hr_vec() -> (v: Vec<u8>)
    ensures
        v@ == hr_name(),
{
    let mut v: Vec<u8> = Vec::new();
    v.push(104);
    v.push(114);
    proof {
        assert(v@ =~= hr_name());
    }
    v
}

fn input_vec() -> (v: Vec<u8>)
    ensures
        v@ == input_name(),
{
    let mut v: Vec<u8> = Vec::new();
    v.push(105);
    v.push(110);
    v.push(112);
    v.push(117);
    v.push(116);
    proof {
        assert(v@ =~= input_name());
    }
    v
}

fn link_vec() -> (v: Vec<u8>)
    ensures
        v@ == link_name(),
{
    let mut v: Vec<u8> = Vec::new();
    v.push(108);
    v.push(105);
    v.push(110);
    v.push(107);
    proof {
        assert(v@ =~= link_name());
    }
    v
}

fn img_vec() -> (v: Vec<u8>)
    ensures
        v@ == img_name(),
{
    let mut v: Vec<u8> = Vec::new();
    v.push(105);
    v.push(109);
    v.push(103);
    proof {
        assert(v@ =~= img_name());
    }
    v
}

fn is_raw_text_x(name: &Vec<u8>) -> (r: bool)
    ensures
        r == is_raw_text_name(name@),
{
    let sc = script_vec();
    let st = style_vec();
    vec_eq(name, &sc) || vec_eq(name, &st)
}

fn is_void_x(name: &Vec<u8>) -> (r: bool)
    ensures
        r == is_void_name(name@),
{
    let a = hr_vec();
    let b = input_vec();
    let c = link_vec();
    let d = img_vec();
    vec_eq(name, &a) || vec_eq(name, &b) || vec_eq(name, &c) || vec_eq(name, &d)
}

/// Parse an identifier at `i`.
pub fn identifier(s: &Vec<u8>, i: usize) -> (r: Parsed<Vec<u8>>)
    requires
        i <= s@.len(),
    ensures
        match r {
            Parsed::Val(v, k) => sp_ident(s@, i as int) matches SpRes::Val(v2, k2) && v2 == v@ && k2
                == k as int && i < k <= s@.len(),
            Parsed::Back => sp_ident(s@, i as int) is Back,
            Parsed::Fail(_) => sp_ident(s@, i as int) is Fail,
        },
{
    if i < s.len() && alpha_at(s, i) {
        let e = ident_end_x(s, i);
        proof {
            lemma_ident_end(s@, i as int);
        }
        Parsed::Val(subrange_vec(s, i, e), e)
    } else {
        Parsed::Back
    }
}

/// Parse a quoted attribute value at `i`.
pub fn parse_string(s: &Vec<u8>, i: usize) -> (r: Parsed<Vec<u8>>)
    requires
        i <= s@.len(),
    ensures
        match r {
            Parsed::Val(v, k) => sp_string(s@, i as int) matches SpRes::Val(v2, k2) && v2 == v@ && k2
                == k as int && i < k <= s@.len(),
            Parsed::Back => sp_string(s@, i as int) is Back,
            Parsed::Fail(e) => sp_string(s@, i as int) is Fail && e.offset == i && e.expected@
                == "\""@,
        },
{
    if i < s.len() && s[i] == 34 {
        let e = string_end_x(s, i + 1, 34);
        if e < s.len() {
            Parsed::Val(subrange_vec(s, i + 1, e), e + 1)
        } else {
            Parsed::Fail(perr(i, "\""))
        }
    } else {
        Parsed::Back
    }
}

/// Parse one attribute at `i`.
pub fn attribute(s: &Vec<u8>, i: usize) -> (r: Parsed<Attribute>)
    requires
        i <= s@.len(),
    ensures
        match r {
            Parsed::Val(a, k) => sp_attr(s@, i as int) matches SpRes::Val(a2, k2) && a2 == a@ && k2
                == k as int && i < k <= s@.len(),
            Parsed::Back => sp_attr(s@, i as int) is Back,
            Parsed::Fail(e) => sp_attr(s@, i as int) is Fail && e.offset <= s@.len(),
        },
{
    match identifier(s, i) {
        Parsed::Val(name, j) => {
            let k = skip_ws_x(s, j);
            if k < s.len() && s[k] == 61 {
                let m = skip_ws_x(s, k + 1);
                match parse_string(s, m) {
                    Parsed::Val(v, e) => {
                        let a = Attribute { name, value: Some(v) };
                        proof {
                            assert(sp_attr(s@, i as int) matches SpRes::Val(a2, k2) && a2 =~~= a@);
                        }
                        Parsed::Val(a, e)
                    },
                    Parsed::Back => {
                        let a = Attribute { name, value: None };
                        proof {
                            assert(sp_attr(s@, i as int) matches SpRes::Val(a2, k2) && a2 =~~= a@);
                        }
                        Parsed::Val(a, j)
                    },
                    Parsed::Fail(e) => Parsed::Fail(e),
                }
            } else {
                let a = Attribute { name, value: None };
                proof {
                    assert(sp_attr(s@, i as int) matches SpRes::Val(a2, k2) && a2 =~~= a@);
                }
                Parsed::Val(a, j)
            }
        },
        Parsed::Back => Parsed::Back,
        Parsed::Fail(e) => Parsed::Fail(e),
    }
}

/// Parse zero or more whitespace-led attributes at `i`.
pub fn attributes(s: &Vec<u8>, i: usize) -> (r: Parsed<Vec<Attribute>>)
    requires
        i <= s@.len(),
    ensures
        match r {
            Parsed::Val(v, k) => sp_attrs(s@, i as int) matches SpRes::Val(a2, k2) && a2
                == attrs_view(v@) && k2 == k as int && i <= k <= s@.len(),
            Parsed::Back => sp_attrs(s@, i as int) is Back,
            Parsed::Fail(e) => sp_attrs(s@, i as int) is Fail && e.offset <= s@.len(),
        },
    decreases s@.len() - i,
{
    let j = skip_ws_x(s, i);
    match attribute(s, j) {
        Parsed::Val(a, k) => {
            match attributes(s, k) {
                Parsed::Val(mut rest, e) => {
                    let ghost rold = rest@;
                    let ghost av = a@;
                    rest.insert(0, a);
                    proof {
                        assert(attrs_view(rest@) =~= seq![av] + attrs_view(rold)) by {
                            assert forall|t: int| 0 <= t < rest@.len() implies attrs_view(rest@)[t]
                                == (seq![av] + attrs_view(rold))[t] by {
                                if t > 0 {
                                    assert(rest@[t] == rold[t - 1]);
                                }
                            }
                        }
                    }
                    Parsed::Val(rest, e)
                },
                Parsed::Back => Parsed::Back,
                Parsed::Fail(e) => Parsed::Fail(e),
            }
        },
        Parsed::Back => {
            let v: Vec<Attribute> = Vec::new();
            proof {
                assert(attrs_view(v@) =~= Seq::<AttrV>::empty());
            }
            Parsed::Val(v, i)
        },
        Parsed::Fail(e) => Parsed::Fail(e),
    }
}

/// Parse a closing tag for `name` at `q`; the result is the position after
/// its `>`.
fn closing_x(s: &Vec<u8>, q: usize, name: &Vec<u8>) -> (r: Option<usize>)
    requires
        q <= s@.len(),
    ensures
        match r {
            Some(e) => sp_closing(s@, q as int, name@) matches Some(e2) && e2 == e as int && q < e
                <= s@.len(),
            None => sp_closing(s@, q as int, name@) is None,
        },
{
    if q < s.len() && s[q] == 60 && q + 1 < s.len() && s[q + 1] == 47 {
        let j = skip_ws_x(s, q + 2);
        if match_at(s, j, name) {
            let k = skip_ws_x(s, j + name.len());
            if k < s.len() && s[k] == 62 {
                Some(k + 1)
            } else {
                None
            }
        } else {
            None
        }
    } else {
        None
    }
}

fn find_close_x(s: &Vec<u8>, i: usize, name: &Vec<u8>) -> (r: Option<(usize, usize)>)
    requires
        i <= s@.len(),
    ensures
        match r {
            Some(p) => find_close(s@, i as int, name@) matches Some(p2) && p2.0 == p.0 as int
                && p2.1 == p.1 as int && i <= p.0 && p.0 < p.1 <= s@.len(),
            None => find_close(s@, i as int, name@) is None,
        },
    decreases s@.len() - i,
{
    if i >= s.len() {
        None
    } else if s[i] == 60 {
        match closing_x(s, i, name) {
            Some(e) => Some((i, e)),
            None => find_close_x(s, i + 1, name),
        }
    } else {
        find_close_x(s, i + 1, name)
    }
}

fn find_dashes_x(s: &Vec<u8>, i: usize) -> (r: Option<usize>)
    requires
        i <= s@.len(),
    ensures
        match r {
            Some(d) => find_dashes(s@, i as int) matches Some(d2) && d2 == d as int && i <= d && d
                + 3 <= s@.len(),
            None => find_dashes(s@, i as int) is None,
        },
    decreases s@.len() - i,
{
    if i >= s.len() || s.len() - i < 3 {
        None
    } else if s[i] == 45 && s[i + 1] == 45 && s[i + 2] == 62 {
        Some(i)
    } else {
        find_dashes_x(s, i + 1)
    }
}

fn find_lt_x(s: &Vec<u8>, i: usize) -> (r: Option<usize>)
    requires
        i <= s@.len(),
    ensures
        match r {
            Some(d) => find_lt(s@, i as int) matches Some(d2) && d2 == d as int && i <= d < s@.len(),
            None => find_lt(s@, i as int) is None,
        },
    decreases s@.len() - i,
{
    if i >= s.len() {
        None
    } else if s[i] == 60 {
        Some(i)
    } else {
        find_lt_x(s, i + 1)
    }
}

fn comment_at(s: &Vec<u8>, i: usize) -> (r: bool)
    requires
        i < s@.len(),
    ensures
        r == (i + 4 <= s@.len() && s@.subrange(i as int, i as int + 4) == comment_open()),
{
    if s.len() - i >= 4 && s[i] == 60 && s[i + 1] == 33 && s[i + 2] == 45 && s[i + 3] == 45 {
        proof {
            assert(s@.subrange(i as int, i as int + 4) =~= comment_open());
        }
        true
    } else {
        proof {
            if i + 4 <= s@.len() {
                let sub = s@.subrange(i as int, i as int + 4);
                assert(sub[0] == s@[i as int] && sub[1] == s@[i as int + 1] && sub[2] == s@[
                    i as int + 2
                ] && sub[3] == s@[i as int + 3]);
            }
        }
        false
    }
}

/// Parse an element at `i`: name, attributes, then a self-closing `/>` or a
/// `>` with the body that the element's class calls for.
pub fn element(s: &Vec<u8>, i: usize) -> (r: Parsed<Element>)
    requires
        i <= s@.len(),
    ensures
        match r {
            Parsed::Val(e, k) => sp_element(s@, i as int) matches SpRes::Val(e2, k2) && e2 == e@
                && k2 == k as int && i < k <= s@.len(),
            Parsed::Back => sp_element(s@, i as int) is Back,
            Parsed::Fail(e) => sp_element(s@, i as int) is Fail && e.offset <= s@.len(),
        },
    decreases s@.len() - i, 0int,
{
    if i >= s.len() || s[i] != 60 {
        return Parsed::Back;
    }
    match identifier(s, i + 1) {
        Parsed::Val(name, j) => {
            match attributes(s, j) {
                Parsed::Val(attrs, k0) => {
                    let k = skip_ws_x(s, k0);
                    if k < s.len() && s[k] == 47 && k + 1 < s.len() && s[k + 1] == 62 {
                        let e = Element { name, attributes: attrs, children: Vec::new() };
                        proof {
                            assert(nodes_view(e.children@) =~= Seq::<NodeV>::empty());
                            assert(sp_element(s@, i as int) matches SpRes::Val(e2, k2) && e2 =~~= e@);
                        }
                        Parsed::Val(e, k + 2)
                    } else if k < s.len() && s[k] == 62 {
                        if is_raw_text_x(&name) {
                            match find_close_x(s, k + 1, &name) {
                                Some(p) => {
                                    let text = subrange_vec(s, k + 1, p.0);
                                    let mut children: Vec<Node> = Vec::new();
                                    children.push(Node::Text(text));
                                    let e = Element { name, attributes: attrs, children };
                                    proof {
                                        assert(e.children@.drop_last() =~= Seq::<Node>::empty());
                                        assert(nodes_view(Seq::<Node>::empty()) =~= Seq::<
                                            NodeV,
                                        >::empty());
                                        assert(e.children@.len() == 1);
                                        assert(e.children@.last() == Node::Text(text));
                                        assert(text@ == s@.subrange(k + 1 as int, p.0 as int));
                                        assert(node_view(Node::Text(text)) == NodeV::Text(text@));
                                        assert(nodes_view(e.children@) == nodes_view(
                                            e.children@.drop_last(),
                                        ).push(node_view(e.children@.last())));
                                        assert(nodes_view(e.children@) =~= seq![
                                            NodeV::Text(s@.subrange(k + 1 as int, p.0 as int)),
                                        ]);
                                        assert(sp_element(s@, i as int) matches SpRes::Val(e2, k2)
                                            && e2 =~~= e@);
                                    }
                                    Parsed::Val(e, p.1)
                                },
                                None => Parsed::Fail(perr(k + 1, "ending pattern")),
                            }
                        } else if is_void_x(&name) {
                            let e = Element { name, attributes: attrs, children: Vec::new() };
                            proof {
                                assert(nodes_view(e.children@) =~= Seq::<NodeV>::empty());
                                assert(sp_element(s@, i as int) matches SpRes::Val(e2, k2) && e2
                                    =~~= e@);
                            }
                            Parsed::Val(e, k + 1)
                        } else {
                            match nodes(s, k + 1) {
                                Parsed::Val(children, p) => {
                                    let q = skip_ws_x(s, p);
                                    match closing_x(s, q, &name) {
                                        Some(end) => {
                                            let e = Element { name, attributes: attrs, children };
                                            proof {
                                                assert(sp_element(s@, i as int) matches SpRes::Val(
                                                    e2,
                                                    k2,
                                                ) && e2 =~~= e@);
                                            }
                                            Parsed::Val(e, end)
                                        },
                                        None => Parsed::Fail(perr(q, "closing tag")),
                                    }
                                },
                                Parsed::Back => Parsed::Fail(perr(k + 1, "content")),
                                Parsed::Fail(e) => Parsed::Fail(e),
                            }
                        }
                    } else {
                        Parsed::Back
                    }
                },
                Parsed::Back => Parsed::Back,
                Parsed::Fail(e) => Parsed::Fail(e),
            }
        },
        Parsed::Back => Parsed::Back,
        Parsed::Fail(e) => Parsed::Fail(e),
    }
}

/// Parse one content node at `i`: a comment, an element, or a text run up to
/// the next `<`.
pub fn node(s: &Vec<u8>, i: usize) -> (r: Parsed<Node>)
    requires
        i <= s@.len(),
    ensures
        match r {
            Parsed::Val(n, k) => sp_node(s@, i as int) matches SpRes::Val(n2, k2) && n2 == n@ && k2
                == k as int && i < k <= s@.len(),
            Parsed::Back => sp_node(s@, i as int) is Back,
            Parsed::Fail(e) => sp_node(s@, i as int) is Fail && e.offset <= s@.len(),
        },
    decreases s@.len() - i, 1int,
{
    if i >= s.len() {
        return Parsed::Back;
    }
    if s[i] == 60 {
        if comment_at(s, i) {
            match find_dashes_x(s, i + 4) {
                Some(d) => {
                    let text = subrange_vec(s, i + 4, d);
                    Parsed::Val(Node::Comment(text), d + 3)
                },
                None => Parsed::Fail(perr(i, "comment end")),
            }
        } else {
            match element(s, i) {
                Parsed::Val(e, k) => Parsed::Val(Node::Element(e), k),
                Parsed::Back => Parsed::Back,
                Parsed::Fail(e) => Parsed::Fail(e),
            }
        }
    } else {
        match find_lt_x(s, i) {
            Some(d) => {
                proof {
                    lemma_find_lt(s@, i as int);
                }
                Parsed::Val(Node::Text(subrange_vec(s, i, d)), d)
            },
            None => Parsed::Val(Node::Text(subrange_vec(s, i, s.len())), s.len()),
        }
    }
}

/// Parse zero or more content nodes starting at `i`.
pub fn nodes(s: &Vec<u8>, i: usize) -> (r: Parsed<Vec<Node>>)
    requires
        i <= s@.len(),
    ensures
        match r {
            Parsed::Val(v, k) => sp_nodes(s@, i as int) matches SpRes::Val(ns2, k2) && ns2
                == nodes_view(v@) && k2 == k as int && i <= k <= s@.len(),
            Parsed::Back => sp_nodes(s@, i as int) is Back,
            Parsed::Fail(e) => sp_nodes(s@, i as int) is Fail && e.offset <= s@.len(),
        },
    decreases s@.len() - i, 2int,
{
    match node(s, i) {
        Parsed::Val(n, k) => {
            match nodes(s, k) {
                Parsed::Val(mut rest, e) => {
                    let ghost rold = rest@;
                    let ghost nv = n@;
                    rest.insert(0, n);
                    proof {
                        crate::element::lemma_nodes_view_len(rest@);
                        crate::element::lemma_nodes_view_len(rold);
                        assert(nodes_view(rest@) =~= seq![nv] + nodes_view(rold)) by {
                            crate::element::lemma_nodes_view_len(rest@);
                            crate::element::lemma_nodes_view_len(rold);
                            assert forall|t: int| 0 <= t < rest@.len() implies nodes_view(rest@)[t]
                                == (seq![nv] + nodes_view(rold))[t] by {
                                crate::element::lemma_nodes_view_index(rest@, t);
                                if t > 0 {
                                    assert(rest@[t] == rold[t - 1]);
                                    crate::element::lemma_nodes_view_index(rold, t - 1);
                                }
                            }
                        }
                    }
                    Parsed::Val(rest, e)
                },
                Parsed::Back => Parsed::Back,
                Parsed::Fail(e) => Parsed::Fail(e),
            }
        },
        Parsed::Back => {
            let v: Vec<Node> = Vec::new();
            proof {
                assert(nodes_view(v@) =~= Seq::<NodeV>::empty());
            }
            Parsed::Val(v, i)
        },
        Parsed::Fail(e) => Parsed::Fail(e),
    }
}

/// Scan from `i` for the first position where a closing tag for `name`
/// parses; the text before it is returned together with the position after
/// the closing tag. This is how raw-text bodies tolerate a literal `<`.
pub fn advance_to(s: &Vec<u8>, i: usize, name: &Vec<u8>) -> (r: Option<(Vec<u8>, usize)>)
    requires
        i <= s@.len(),
    ensures
        match r {
            Some(p) => find_close(s@, i as int, name@) matches Some(p2) && p.0@ == s@.subrange(
                i as int,
                p2.0,
            ) && p2.1 == p.1 as int,
            None => find_close(s@, i as int, name@) is None,
        },
{
    match find_close_x(s, i, name) {
        Some(p) => Some((subrange_vec(s, i, p.0), p.1)),
        None => None,
    }
}

} // verus!
