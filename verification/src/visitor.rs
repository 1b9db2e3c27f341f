//! The markdown streaming visitor: a single forward pass over raw bytes
//! drives paired enter/exit events per construct, and a concrete visitor
//! folds those events into markup output without building a tree.
//!
//! Link bodies are buffered until the link's URL is known (the URL follows
//! the body in `[text](url)`), and footnote-definition bodies are collected
//! into a side buffer that is appended once, after all main content, under a
//! single wrapper. YAML frontmatter is parsed as structured metadata and not
//! written to the output; a malformed frontmatter block fails the whole
//! document.

use vstd::prelude::*;

use crate::element::ElemV;
use crate::element::Element;
use crate::element::append_bytes;
use crate::element::clone_bytes;
use crate::element::ser_elem;
use crate::text::html_encode;
use crate::text::html_encoded;
use crate::text::digits_u8;
use crate::text::push_digits_u8;
use crate::text::trim_of;
use crate::text::trim_ascii_vec;

verus! {

broadcast use vstd::std_specs::vec::group_vec_axioms, vstd::seq::group_seq_axioms;

/// An image reference: alternative text, source URL, optional title.
pub struct Image {
    pub alt: Vec<u8>,
    pub url: Vec<u8>,
    pub title: Option<Vec<u8>>,
}

/// A fenced code block: its body and optional language token.
pub struct Code {
    pub value: Vec<u8>,
    pub lang: Option<Vec<u8>>,
}

/// One token of the streaming pass, in document order.
pub enum Token {
    ParagraphEnter,
    ParagraphExit,
    HeadingEnter(u8),
    HeadingExit(u8),
    StrongEnter,
    StrongExit,
    EmphasisEnter,
    EmphasisExit,
    LinkEnter,
    LinkExit(Vec<u8>),
    FootnoteDefEnter(Vec<u8>),
    FootnoteDefExit,
    FootnoteRef(Vec<u8>),
    Yaml(Vec<u8>),
    InlineCode(Vec<u8>),
    Text(Vec<u8>),
    Image(Image),
    Code(Code),
    Math(Vec<u8>),
    Html(Element),
}

#[verifier::ext_equal]
pub enum TokenV {
    ParagraphEnter,
    ParagraphExit,
    HeadingEnter(u8),
    HeadingExit(u8),
    StrongEnter,
    StrongExit,
    EmphasisEnter,
    EmphasisExit,
    LinkEnter,
    LinkExit(Seq<u8>),
    FootnoteDefEnter(Seq<u8>),
    FootnoteDefExit,
    FootnoteRef(Seq<u8>),
    Yaml(Seq<u8>),
    InlineCode(Seq<u8>),
    Text(Seq<u8>),
    Image(Seq<u8>, Seq<u8>),
    Code(Seq<u8>, Option<Seq<u8>>),
    Math(Seq<u8>),
    Html(ElemV),
}

pub open spec fn token_view(e: Token) -> TokenV {
    match e {
        Token::ParagraphEnter => TokenV::ParagraphEnter,
        Token::ParagraphExit => TokenV::ParagraphExit,
        Token::HeadingEnter(l) => TokenV::HeadingEnter(l),
        Token::HeadingExit(l) => TokenV::HeadingExit(l),
        Token::StrongEnter => TokenV::StrongEnter,
        Token::StrongExit => TokenV::StrongExit,
        Token::EmphasisEnter => TokenV::EmphasisEnter,
        Token::EmphasisExit => TokenV::EmphasisExit,
        Token::LinkEnter => TokenV::LinkEnter,
        Token::LinkExit(u) => TokenV::LinkExit(u@),
        Token::FootnoteDefEnter(i) => TokenV::FootnoteDefEnter(i@),
        Token::FootnoteDefExit => TokenV::FootnoteDefExit,
        Token::FootnoteRef(i) => TokenV::FootnoteRef(i@),
        Token::Yaml(b) => TokenV::Yaml(b@),
        Token::InlineCode(c) => TokenV::InlineCode(c@),
        Token::Text(t) => TokenV::Text(t@),
        Token::Image(im) => TokenV::Image(im.alt@, im.url@),
        Token::Code(c) => TokenV::Code(
            c.value@,
            match c.lang {
                Some(l) => Some(l@),
                None => None,
            },
        ),
        Token::Math(m) => TokenV::Math(m@),
        Token::Html(e) => TokenV::Html(crate::element::elem_view(e)),
    }
}

impl View for Token {
    type V = TokenV;

    open spec fn view(&self) -> TokenV {
        token_view(*self)
    }
}

/// The view of an event list.
pub open spec fn tokens_view(es: Seq<Token>) -> Seq<TokenV>
    decreases es,
{
    if es.len() == 0 {
        Seq::empty()
    } else {
        tokens_view(es.drop_last()).push(token_view(es.last()))
    }
}

pub proof fn lemma_tokens_view_push(es: Seq<Token>, e: Token)
    ensures
        tokens_view(es.push(e)) == tokens_view(es).push(token_view(e)),
{
    assert(es.push(e).drop_last() =~= es);
}

// --- Trusted outside calls -----------------------------------------------------

/// What deserializing a frontmatter block returns: the `title`, `date` and
/// `description` fields when the bytes are a YAML mapping holding all three
/// as strings, and nothing otherwise. The outcome depends on the bytes
/// alone.
pub uninterp spec fn frontmatter_of(b: Seq<u8>) -> Option<(Seq<char>, Seq<char>, Seq<char>)>;

/// Relies on serde_yaml::from_slice and serde_yaml::Value: parses the bytes
/// as YAML and reads the three string fields of the frontmatter schema. A
/// malformed document or a missing or non-string field yields None.
#[verifier::external_body]
pub(crate) fn parse_frontmatter(b: &Vec<u8>) -> (r: Option<(String, String, String)>)
    ensures
        match r {
            Some(f) => frontmatter_of(b@) == Some((f.0@, f.1@, f.2@)),
            None => frontmatter_of(b@) is None,
        },
{
    let v: serde_yaml::Value = serde_yaml::from_slice(b).ok()?;
    let title = v.get("title")?.as_str()?.to_string();
    let date = v.get("date")?.as_str()?.to_string();
    let description = v.get("description")?.as_str()?.to_string();
    Some((title, date, description))
}

/// What highlighting a code block returns: the highlighted markup for the
/// body under the bundled syntax for the language token, and nothing when no
/// bundled syntax matches the token (or the body cannot be highlighted). The
/// outcome depends on the two byte strings alone.
pub uninterp spec fn highlight_of(code: Seq<u8>, lang: Seq<u8>) -> Option<Seq<u8>>;

/// Relies on syntect's bundled syntax and theme sets:
/// SyntaxSet::load_defaults_newlines, find_syntax_by_extension,
/// ThemeSet::load_defaults and highlighted_html_for_string, which compute
/// from their inputs alone.
#[verifier::external_body]
pub(crate) fn highlight(code: &Vec<u8>, lang: &Vec<u8>) -> (r: Option<Vec<u8>>)
    ensures
        match r {
            Some(h) => highlight_of(code@, lang@) == Some(h@),
            None => highlight_of(code@, lang@) is None,
        },
{
    let set = syntect::parsing::SyntaxSet::load_defaults_newlines();
    let syntax = set.find_syntax_by_extension(core::str::from_utf8(lang).ok()?)?;
    let themes = syntect::highlighting::ThemeSet::load_defaults();
    let theme = themes.themes.get("base16-ocean.dark").or_else(|| themes.themes.values().next())?;
    let text = core::str::from_utf8(code).ok()?;
    let html = syntect::html::highlighted_html_for_string(text, &set, syntax, theme).ok()?;
    Some(html.into_bytes())
}

// --- The concrete visitor -------------------------------------------------------

/// Which buffer output goes to: the main stream, the pending link body, or
/// the deferred footnote definitions.
#[derive(Clone, Copy)]
pub enum State {
    Normal,
    Link,
    Footnote,
}

/// The frontmatter schema: all three fields are required.
pub struct Frontmatter {
    pub title: String,
    pub date: String,
    pub description: String,
}

#[verifier::ext_equal]
pub struct FmV {
    pub title: Seq<char>,
    pub date: Seq<char>,
    pub description: Seq<char>,
}

/// A visitor that folds events into markup text.
pub struct SimpleVisitor {
    state: Vec<State>,
    output: Vec<u8>,
    link_buffer: Vec<u8>,
    footnotes: Vec<u8>,
    pub frontmatter: Option<Frontmatter>,
}

/// Indicates malformed YAML frontmatter.
#[derive(Debug)]
pub struct SimpleError;

#[verifier::ext_equal]
pub struct VisV {
    pub state: Seq<State>,
    pub output: Seq<u8>,
    pub link_buffer: Seq<u8>,
    pub footnotes: Seq<u8>,
    pub frontmatter: Option<FmV>,
}

pub closed spec fn vis_view(v: SimpleVisitor) -> VisV {
    VisV {
        state: v.state@,
        output: v.output@,
        link_buffer: v.link_buffer@,
        footnotes: v.footnotes@,
        frontmatter: match v.frontmatter {
            Some(f) => Some(FmV { title: f.title@, date: f.date@, description: f.description@ }),
            None => None,
        },
    }
}

/// The buffer the visitor currently writes to.
pub open spec fn cur_state(v: VisV) -> State {
    if v.state.len() == 0 {
        State::Normal
    } else {
        v.state.last()
    }
}

/// Append bytes to the currently selected buffer.
pub open spec fn sel_push(v: VisV, b: Seq<u8>) -> VisV {
    match cur_state(v) {
        State::Normal => VisV { output: v.output + b, ..v },
        State::Link => VisV { link_buffer: v.link_buffer + b, ..v },
        State::Footnote => VisV { footnotes: v.footnotes + b, ..v },
    }
}

pub open spec fn lit_code_open() -> Seq<u8> {
    seq![60u8, 99u8, 111u8, 100u8, 101u8, 62u8]
}

fn lit_code_open_x() -> (v: Vec<u8>)
    ensures
        v@ == lit_code_open(),
{
    let mut v: Vec<u8> = Vec::new();
    v.push(60);
    v.push(99);
    v.push(111);
    v.push(100);
    v.push(101);
    v.push(62);
    proof {
        assert(v@ =~= lit_code_open());
    }
    v
}

pub open spec fn lit_code_close() -> Seq<u8> {
    seq![60u8, 47u8, 99u8, 111u8, 100u8, 101u8, 62u8]
}

fn lit_code_close_x() -> (v: Vec<u8>)
    ensures
        v@ == lit_code_close(),
{
    let mut v: Vec<u8> = Vec::new();
    v.push(60);
    v.push(47);
    v.push(99);
    v.push(111);
    v.push(100);
    v.push(101);
    v.push(62);
    proof {
        assert(v@ =~= lit_code_close());
    }
    v
}

pub open spec fn lit_strong_open() -> Seq<u8> {
    seq![60u8, 115u8, 116u8, 114u8, 111u8, 110u8, 103u8, 62u8]
}

fn lit_strong_open_x() -> (v: Vec<u8>)
    ensures
        v@ == lit_strong_open(),
{
    let mut v: Vec<u8> = Vec::new();
    v.push(60);
    v.push(115);
    v.push(116);
    v.push(114);
    v.push(111);
    v.push(110);
    v.push(103);
    v.push(62);
    proof {
        assert(v@ =~= lit_strong_open());
    }
    v
}

pub open spec fn lit_strong_close() -> Seq<u8> {
    seq![60u8, 47u8, 115u8, 116u8, 114u8, 111u8, 110u8, 103u8, 62u8]
}

fn lit_strong_close_x() -> (v: Vec<u8>)
    ensures
        v@ == lit_strong_close(),
{
    let mut v: Vec<u8> = Vec::new();
    v.push(60);
    v.push(47);
    v.push(115);
    v.push(116);
    v.push(114);
    v.push(111);
    v.push(110);
    v.push(103);
    v.push(62);
    proof {
        assert(v@ =~= lit_strong_close());
    }
    v
}

pub open spec fn lit_em_open() -> Seq<u8> {
    seq![60u8, 101u8, 109u8, 62u8]
}

fn lit_em_open_x() -> (v: Vec<u8>)
    ensures
        v@ == lit_em_open(),
{
    let mut v: Vec<u8> = Vec::new();
    v.push(60);
    v.push(101);
    v.push(109);
    v.push(62);
    proof {
        assert(v@ =~= lit_em_open());
    }
    v
}

pub open spec fn lit_em_close() -> Seq<u8> {
    seq![60u8, 47u8, 101u8, 109u8, 62u8]
}

fn lit_em_close_x() -> (v: Vec<u8>)
    ensures
        v@ == lit_em_close(),
{
    let mut v: Vec<u8> = Vec::new();
    v.push(60);
    v.push(47);
    v.push(101);
    v.push(109);
    v.push(62);
    proof {
        assert(v@ =~= lit_em_close());
    }
    v
}

pub open spec fn lit_para_open() -> Seq<u8> {
    seq![60u8, 112u8, 62u8]
}

fn lit_para_open_x() -> (v: Vec<u8>)
    ensures
        v@ == lit_para_open(),
{
    let mut v: Vec<u8> = Vec::new();
    v.push(60);
    v.push(112);
    v.push(62);
    proof {
        assert(v@ =~= lit_para_open());
    }
    v
}

pub open spec fn lit_para_close() -> Seq<u8> {
    seq![60u8, 47u8, 112u8, 62u8]
}

fn lit_para_close_x() -> (v: Vec<u8>)
    ensures
        v@ == lit_para_close(),
{
    let mut v: Vec<u8> = Vec::new();
    v.push(60);
    v.push(47);
    v.push(112);
    v.push(62);
    proof {
        assert(v@ =~= lit_para_close());
    }
    v
}

pub open spec fn lit_head_open() -> Seq<u8> {
    seq![60u8, 104u8]
}

fn lit_head_open_x() -> (v: Vec<u8>)
    ensures
        v@ == lit_head_open(),
{
    let mut v: Vec<u8> = Vec::new();
    v.push(60);
    v.push(104);
    proof {
        assert(v@ =~= lit_head_open());
    }
    v
}

pub open spec fn lit_head_close() -> Seq<u8> {
    seq![60u8, 47u8, 104u8]
}

fn lit_head_close_x() -> (v: Vec<u8>)
    ensures
        v@ == lit_head_close(),
{
    let mut v: Vec<u8> = Vec::new();
    v.push(60);
    v.push(47);
    v.push(104);
    proof {
        assert(v@ =~= lit_head_close());
    }
    v
}

pub open spec fn lit_gt() -> Seq<u8> {
    seq![62u8]
}

fn lit_gt_x() -> (v: Vec<u8>)
    ensures
        v@ == lit_gt(),
{
    let mut v: Vec<u8> = Vec::new();
    v.push(62);
    proof {
        assert(v@ =~= lit_gt());
    }
    v
}

pub open spec fn lit_bq_open() -> Seq<u8> {
    seq![60u8, 98u8, 108u8, 111u8, 99u8, 107u8, 113u8, 117u8, 111u8, 116u8, 101u8, 62u8]
}

fn lit_bq_open_x() -> (v: Vec<u8>)
    ensures
        v@ == lit_bq_open(),
{
    let mut v: Vec<u8> = Vec::new();
    v.push(60);
    v.push(98);
    v.push(108);
    v.push(111);
    v.push(99);
    v.push(107);
    v.push(113);
    v.push(117);
    v.push(111);
    v.push(116);
    v.push(101);
    v.push(62);
    proof {
        assert(v@ =~= lit_bq_open());
    }
    v
}

pub open spec fn lit_bq_close() -> Seq<u8> {
    seq![60u8, 47u8, 98u8, 108u8, 111u8, 99u8, 107u8, 113u8, 117u8, 111u8, 116u8, 101u8, 62u8]
}

fn lit_bq_close_x() -> (v: Vec<u8>)
    ensures
        v@ == lit_bq_close(),
{
    let mut v: Vec<u8> = Vec::new();
    v.push(60);
    v.push(47);
    v.push(98);
    v.push(108);
    v.push(111);
    v.push(99);
    v.push(107);
    v.push(113);
    v.push(117);
    v.push(111);
    v.push(116);
    v.push(101);
    v.push(62);
    proof {
        assert(v@ =~= lit_bq_close());
    }
    v
}

pub open spec fn lit_div_open() -> Seq<u8> {
    seq![60u8, 100u8, 105u8, 118u8, 32u8, 99u8, 108u8, 97u8, 115u8, 115u8, 61u8, 34u8, 99u8, 111u8, 100u8, 101u8, 98u8, 108u8, 111u8, 99u8, 107u8, 34u8, 62u8]
}

fn lit_div_open_x() -> (v: Vec<u8>)
    ensures
        v@ == lit_div_open(),
{
    let mut v: Vec<u8> = Vec::new();
    v.push(60);
    v.push(100);
    v.push(105);
    v.push(118);
    v.push(32);
    v.push(99);
    v.push(108);
    v.push(97);
    v.push(115);
    v.push(115);
    v.push(61);
    v.push(34);
    v.push(99);
    v.push(111);
    v.push(100);
    v.push(101);
    v.push(98);
    v.push(108);
    v.push(111);
    v.push(99);
    v.push(107);
    v.push(34);
    v.push(62);
    proof {
        assert(v@ =~= lit_div_open());
    }
    v
}

pub open spec fn lit_div_close() -> Seq<u8> {
    seq![60u8, 47u8, 100u8, 105u8, 118u8, 62u8]
}

fn lit_div_close_x() -> (v: Vec<u8>)
    ensures
        v@ == lit_div_close(),
{
    let mut v: Vec<u8> = Vec::new();
    v.push(60);
    v.push(47);
    v.push(100);
    v.push(105);
    v.push(118);
    v.push(62);
    proof {
        assert(v@ =~= lit_div_close());
    }
    v
}

pub open spec fn lit_img_open() -> Seq<u8> {
    seq![60u8, 73u8, 109u8, 97u8, 103u8, 101u8, 32u8, 115u8, 114u8, 99u8, 61u8, 34u8]
}

fn lit_img_open_x() -> (v: Vec<u8>)
    ensures
        v@ == lit_img_open(),
{
    let mut v: Vec<u8> = Vec::new();
    v.push(60);
    v.push(73);
    v.push(109);
    v.push(97);
    v.push(103);
    v.push(101);
    v.push(32);
    v.push(115);
    v.push(114);
    v.push(99);
    v.push(61);
    v.push(34);
    proof {
        assert(v@ =~= lit_img_open());
    }
    v
}

pub open spec fn lit_img_mid() -> Seq<u8> {
    seq![34u8, 32u8, 97u8, 108u8, 116u8, 61u8, 34u8]
}

fn lit_img_mid_x() -> (v: Vec<u8>)
    ensures
        v@ == lit_img_mid(),
{
    let mut v: Vec<u8> = Vec::new();
    v.push(34);
    v.push(32);
    v.push(97);
    v.push(108);
    v.push(116);
    v.push(61);
    v.push(34);
    proof {
        assert(v@ =~= lit_img_mid());
    }
    v
}

pub open spec fn lit_img_end() -> Seq<u8> {
    seq![34u8, 32u8, 47u8, 62u8]
}

fn lit_img_end_x() -> (v: Vec<u8>)
    ensures
        v@ == lit_img_end(),
{
    let mut v: Vec<u8> = Vec::new();
    v.push(34);
    v.push(32);
    v.push(47);
    v.push(62);
    proof {
        assert(v@ =~= lit_img_end());
    }
    v
}

pub open spec fn lit_link_open() -> Seq<u8> {
    seq![60u8, 97u8, 32u8, 104u8, 114u8, 101u8, 102u8, 61u8, 34u8]
}

fn lit_link_open_x() -> (v: Vec<u8>)
    ensures
        v@ == lit_link_open(),
{
    let mut v: Vec<u8> = Vec::new();
    v.push(60);
    v.push(97);
    v.push(32);
    v.push(104);
    v.push(114);
    v.push(101);
    v.push(102);
    v.push(61);
    v.push(34);
    proof {
        assert(v@ =~= lit_link_open());
    }
    v
}

pub open spec fn lit_quot_gt() -> Seq<u8> {
    seq![34u8, 62u8]
}

fn lit_quot_gt_x() -> (v: Vec<u8>)
    ensures
        v@ == lit_quot_gt(),
{
    let mut v: Vec<u8> = Vec::new();
    v.push(34);
    v.push(62);
    proof {
        assert(v@ =~= lit_quot_gt());
    }
    v
}

pub open spec fn lit_link_close() -> Seq<u8> {
    seq![60u8, 47u8, 97u8, 62u8]
}

fn lit_link_close_x() -> (v: Vec<u8>)
    ensures
        v@ == lit_link_close(),
{
    let mut v: Vec<u8> = Vec::new();
    v.push(60);
    v.push(47);
    v.push(97);
    v.push(62);
    proof {
        assert(v@ =~= lit_link_close());
    }
    v
}

pub open spec fn lit_fdef_open() -> Seq<u8> {
    seq![60u8, 112u8, 62u8, 60u8, 115u8, 112u8, 97u8, 110u8, 32u8, 105u8, 100u8, 61u8, 34u8, 102u8, 110u8]
}

fn lit_fdef_open_x() -> (v: Vec<u8>)
    ensures
        v@ == lit_fdef_open(),
{
    let mut v: Vec<u8> = Vec::new();
    v.push(60);
    v.push(112);
    v.push(62);
    v.push(60);
    v.push(115);
    v.push(112);
    v.push(97);
    v.push(110);
    v.push(32);
    v.push(105);
    v.push(100);
    v.push(61);
    v.push(34);
    v.push(102);
    v.push(110);
    proof {
        assert(v@ =~= lit_fdef_open());
    }
    v
}

pub open spec fn lit_fdef_dot() -> Seq<u8> {
    seq![46u8, 60u8, 47u8, 115u8, 112u8, 97u8, 110u8, 62u8]
}

fn lit_fdef_dot_x() -> (v: Vec<u8>)
    ensures
        v@ == lit_fdef_dot(),
{
    let mut v: Vec<u8> = Vec::new();
    v.push(46);
    v.push(60);
    v.push(47);
    v.push(115);
    v.push(112);
    v.push(97);
    v.push(110);
    v.push(62);
    proof {
        assert(v@ =~= lit_fdef_dot());
    }
    v
}

pub open spec fn lit_fret_open() -> Seq<u8> {
    seq![60u8, 70u8, 111u8, 111u8, 116u8, 110u8, 111u8, 116u8, 101u8, 82u8, 101u8, 116u8, 32u8, 104u8, 114u8, 101u8, 102u8, 61u8, 34u8, 35u8, 114u8, 101u8, 102u8]
}

fn lit_fret_open_x() -> (v: Vec<u8>)
    ensures
        v@ == lit_fret_open(),
{
    let mut v: Vec<u8> = Vec::new();
    v.push(60);
    v.push(70);
    v.push(111);
    v.push(111);
    v.push(116);
    v.push(110);
    v.push(111);
    v.push(116);
    v.push(101);
    v.push(82);
    v.push(101);
    v.push(116);
    v.push(32);
    v.push(104);
    v.push(114);
    v.push(101);
    v.push(102);
    v.push(61);
    v.push(34);
    v.push(35);
    v.push(114);
    v.push(101);
    v.push(102);
    proof {
        assert(v@ =~= lit_fret_open());
    }
    v
}

pub open spec fn lit_fret_end() -> Seq<u8> {
    seq![34u8, 47u8, 62u8]
}

fn lit_fret_end_x() -> (v: Vec<u8>)
    ensures
        v@ == lit_fret_end(),
{
    let mut v: Vec<u8> = Vec::new();
    v.push(34);
    v.push(47);
    v.push(62);
    proof {
        assert(v@ =~= lit_fret_end());
    }
    v
}

pub open spec fn lit_fref_open() -> Seq<u8> {
    seq![60u8, 70u8, 111u8, 111u8, 116u8, 110u8, 111u8, 116u8, 101u8, 82u8, 101u8, 102u8, 32u8, 104u8, 114u8, 101u8, 102u8, 61u8, 34u8, 35u8, 102u8, 110u8]
}

fn lit_fref_open_x() -> (v: Vec<u8>)
    ensures
        v@ == lit_fref_open(),
{
    let mut v: Vec<u8> = Vec::new();
    v.push(60);
    v.push(70);
    v.push(111);
    v.push(111);
    v.push(116);
    v.push(110);
    v.push(111);
    v.push(116);
    v.push(101);
    v.push(82);
    v.push(101);
    v.push(102);
    v.push(32);
    v.push(104);
    v.push(114);
    v.push(101);
    v.push(102);
    v.push(61);
    v.push(34);
    v.push(35);
    v.push(102);
    v.push(110);
    proof {
        assert(v@ =~= lit_fref_open());
    }
    v
}

pub open spec fn lit_fref_mid() -> Seq<u8> {
    seq![34u8, 32u8, 105u8, 100u8, 61u8, 34u8, 114u8, 101u8, 102u8]
}

fn lit_fref_mid_x() -> (v: Vec<u8>)
    ensures
        v@ == lit_fref_mid(),
{
    let mut v: Vec<u8> = Vec::new();
    v.push(34);
    v.push(32);
    v.push(105);
    v.push(100);
    v.push(61);
    v.push(34);
    v.push(114);
    v.push(101);
    v.push(102);
    proof {
        assert(v@ =~= lit_fref_mid());
    }
    v
}

pub open spec fn lit_fref_close() -> Seq<u8> {
    seq![60u8, 47u8, 70u8, 111u8, 111u8, 116u8, 110u8, 111u8, 116u8, 101u8, 82u8, 101u8, 102u8, 62u8]
}

fn lit_fref_close_x() -> (v: Vec<u8>)
    ensures
        v@ == lit_fref_close(),
{
    let mut v: Vec<u8> = Vec::new();
    v.push(60);
    v.push(47);
    v.push(70);
    v.push(111);
    v.push(111);
    v.push(116);
    v.push(110);
    v.push(111);
    v.push(116);
    v.push(101);
    v.push(82);
    v.push(101);
    v.push(102);
    v.push(62);
    proof {
        assert(v@ =~= lit_fref_close());
    }
    v
}

pub open spec fn lit_foots_open() -> Seq<u8> {
    seq![60u8, 70u8, 111u8, 111u8, 116u8, 110u8, 111u8, 116u8, 101u8, 115u8, 62u8]
}

fn lit_foots_open_x() -> (v: Vec<u8>)
    ensures
        v@ == lit_foots_open(),
{
    let mut v: Vec<u8> = Vec::new();
    v.push(60);
    v.push(70);
    v.push(111);
    v.push(111);
    v.push(116);
    v.push(110);
    v.push(111);
    v.push(116);
    v.push(101);
    v.push(115);
    v.push(62);
    proof {
        assert(v@ =~= lit_foots_open());
    }
    v
}

pub open spec fn lit_foots_close() -> Seq<u8> {
    seq![60u8, 47u8, 70u8, 111u8, 111u8, 116u8, 110u8, 111u8, 116u8, 101u8, 115u8, 62u8]
}

fn lit_foots_close_x() -> (v: Vec<u8>)
    ensures
        v@ == lit_foots_close(),
{
    let mut v: Vec<u8> = Vec::new();
    v.push(60);
    v.push(47);
    v.push(70);
    v.push(111);
    v.push(111);
    v.push(116);
    v.push(110);
    v.push(111);
    v.push(116);
    v.push(101);
    v.push(115);
    v.push(62);
    proof {
        assert(v@ =~= lit_foots_close());
    }
    v
}


/// What one event does to the visitor: which bytes it appends to which
/// buffer, how it moves the state stack, and when it fails (a frontmatter
/// block that does not deserialize).
pub open spec fn vis_step(v: VisV, e: TokenV) -> Option<VisV> {
    match e {
        TokenV::Yaml(b) => match frontmatter_of(b) {
            Some(f) => Some(
                VisV {
                    frontmatter: Some(FmV { title: f.0, date: f.1, description: f.2 }),
                    ..v
                },
            ),
            None => None,
        },
        TokenV::ParagraphEnter => Some(sel_push(v, lit_para_open())),
        TokenV::ParagraphExit => Some(sel_push(v, lit_para_close())),
        TokenV::HeadingEnter(l) => Some(sel_push(v, lit_head_open() + digits_u8(l) + lit_gt())),
        TokenV::HeadingExit(l) => Some(sel_push(v, lit_head_close() + digits_u8(l) + lit_gt())),
        TokenV::StrongEnter => Some(sel_push(v, lit_strong_open())),
        TokenV::StrongExit => Some(sel_push(v, lit_strong_close())),
        TokenV::EmphasisEnter => Some(sel_push(v, lit_em_open())),
        TokenV::EmphasisExit => Some(sel_push(v, lit_em_close())),
        TokenV::InlineCode(c) => Some(
            sel_push(v, lit_code_open() + html_encoded(c) + lit_code_close()),
        ),
        TokenV::Text(t) => Some(sel_push(v, html_encoded(t))),
        TokenV::Math(m) => Some(sel_push(v, lit_bq_open() + html_encoded(m) + lit_bq_close())),
        TokenV::Code(value, lang) => match lang {
            Some(l) => match highlight_of(value, l) {
                Some(h) => Some(sel_push(v, lit_div_open() + h + lit_div_close())),
                None => Some(sel_push(v, lit_bq_open() + html_encoded(value) + lit_bq_close())),
            },
            None => Some(sel_push(v, lit_bq_open() + html_encoded(value) + lit_bq_close())),
        },
        TokenV::Html(el) => Some(sel_push(v, ser_elem(el))),
        TokenV::Image(alt, url) => Some(
            sel_push(
                v,
                lit_img_open() + trim_of(url) + lit_img_mid() + trim_of(alt) + lit_img_end(),
            ),
        ),
        TokenV::LinkEnter => Some(VisV { state: v.state.push(State::Link), ..v }),
        TokenV::LinkExit(url) => {
            let popped = VisV {
                state: if v.state.len() > 0 {
                    v.state.drop_last()
                } else {
                    v.state
                },
                ..v
            };
            let bytes = lit_link_open() + trim_of(url) + lit_quot_gt() + v.link_buffer
                + lit_link_close();
            let routed = if cur_state(popped) is Footnote {
                VisV { footnotes: popped.footnotes + bytes, ..popped }
            } else {
                VisV { output: popped.output + bytes, ..popped }
            };
            Some(VisV { link_buffer: Seq::empty(), ..routed })
        },
        TokenV::FootnoteRef(id) => Some(
            sel_push(
                v,
                lit_fref_open() + id + lit_fref_mid() + id + lit_quot_gt() + id
                    + lit_fref_close(),
            ),
        ),
        TokenV::FootnoteDefEnter(id) => {
            let pushed = VisV { state: v.state.push(State::Footnote), ..v };
            Some(
                sel_push(
                    pushed,
                    lit_fdef_open() + id + lit_quot_gt() + id + lit_fdef_dot() + lit_fret_open()
                        + id + lit_fret_end(),
                ),
            )
        },
        TokenV::FootnoteDefExit => {
            let written = sel_push(v, lit_para_close());
            Some(
                VisV {
                    state: if written.state.len() > 0 {
                        written.state.drop_last()
                    } else {
                        written.state
                    },
                    ..written
                },
            )
        },
    }
}

/// Folding a whole event list, from `i` on.
pub open spec fn vis_fold(v: VisV, evs: Seq<TokenV>, i: int) -> Option<VisV>
    decreases evs.len() - i,
{
    if i < 0 || i >= evs.len() {
        Some(v)
    } else {
        match vis_step(v, evs[i]) {
            Some(v2) => vis_fold(v2, evs, i + 1),
            None => None,
        }
    }
}

/// The visitor's starting state: empty buffers, main output selected.
pub open spec fn vis_init() -> VisV {
    VisV {
        state: seq![State::Normal],
        output: Seq::empty(),
        link_buffer: Seq::empty(),
        footnotes: Seq::empty(),
        frontmatter: None,
    }
}

/// The finished document: the main stream, then all deferred footnote
/// definitions at the very end under one wrapper (and nothing when there are
/// none).
pub open spec fn final_output(v: VisV) -> Seq<u8> {
    if v.footnotes.len() > 0 {
        v.output + lit_foots_open() + v.footnotes + lit_foots_close()
    } else {
        v.output
    }
}

impl SimpleVisitor {
    /// Append `bytes` to the buffer the state stack selects.
    fn push_buf(&mut self, bytes: &Vec<u8>)
        ensures
            vis_view(*final(self)) == sel_push(vis_view(*old(self)), bytes@),
    {
        let n = self.state.len();
        let st = if n == 0 {
            State::Normal
        } else {
            self.state[n - 1]
        };
        match st {
            State::Normal => {
                append_bytes(&mut self.output, bytes);
                proof {
                    assert(vis_view(*self) =~~= sel_push(vis_view(*old(self)), bytes@));
                }
            },
            State::Link => {
                append_bytes(&mut self.link_buffer, bytes);
                proof {
                    assert(vis_view(*self) =~~= sel_push(vis_view(*old(self)), bytes@));
                }
            },
            State::Footnote => {
                append_bytes(&mut self.footnotes, bytes);
                proof {
                    assert(vis_view(*self) =~~= sel_push(vis_view(*old(self)), bytes@));
                }
            },
        }
    }

    /// Apply one event.
    fn apply(&mut self, e: &Token) -> (r: Result<(), SimpleError>)
        ensures
            match r {
                Ok(_) => vis_step(vis_view(*old(self)), e@) == Some(vis_view(*final(self))),
                Err(_) => vis_step(vis_view(*old(self)), e@) is None,
            },
    {
        match e {
            Token::Yaml(b) => match parse_frontmatter(b) {
                Some(f) => {
                    self.frontmatter = Some(
                        Frontmatter { title: f.0, date: f.1, description: f.2 },
                    );
                    proof {
                        assert(vis_step(vis_view(*old(self)), e@) matches Some(v2) && v2 =~~=
                            vis_view(*self));
                    }
                    Ok(())
                },
                None => Err(SimpleError),
            },
            Token::ParagraphEnter => {
                let b = lit_para_open_x();
                self.push_buf(&b);
                Ok(())
            },
            Token::ParagraphExit => {
                let b = lit_para_close_x();
                self.push_buf(&b);
                Ok(())
            },
            Token::HeadingEnter(l) => {
                let mut b = lit_head_open_x();
                push_digits_u8(*l, &mut b);
                b.push(62);
                proof {
                    assert(b@ =~= lit_head_open() + digits_u8(*l) + lit_gt());
                }
                self.push_buf(&b);
                Ok(())
            },
            Token::HeadingExit(l) => {
                let mut b = lit_head_close_x();
                push_digits_u8(*l, &mut b);
                b.push(62);
                proof {
                    assert(b@ =~= lit_head_close() + digits_u8(*l) + lit_gt());
                }
                self.push_buf(&b);
                Ok(())
            },
            Token::StrongEnter => {
                let b = lit_strong_open_x();
                self.push_buf(&b);
                Ok(())
            },
            Token::StrongExit => {
                let b = lit_strong_close_x();
                self.push_buf(&b);
                Ok(())
            },
            Token::EmphasisEnter => {
                let b = lit_em_open_x();
                self.push_buf(&b);
                Ok(())
            },
            Token::EmphasisExit => {
                let b = lit_em_close_x();
                self.push_buf(&b);
                Ok(())
            },
            Token::InlineCode(c) => {
                let mut b = lit_code_open_x();
                html_encode(c, &mut b);
                let tail = lit_code_close_x();
                append_bytes(&mut b, &tail);
                proof {
                    assert(b@ =~= lit_code_open() + html_encoded(c@) + lit_code_close());
                }
                self.push_buf(&b);
                Ok(())
            },
            Token::Text(t) => {
                let mut b: Vec<u8> = Vec::new();
                html_encode(t, &mut b);
                proof {
                    assert(b@ =~= html_encoded(t@));
                }
                self.push_buf(&b);
                Ok(())
            },
            Token::Math(m) => {
                let mut b = lit_bq_open_x();
                html_encode(m, &mut b);
                let tail = lit_bq_close_x();
                append_bytes(&mut b, &tail);
                proof {
                    assert(b@ =~= lit_bq_open() + html_encoded(m@) + lit_bq_close());
                }
                self.push_buf(&b);
                Ok(())
            },
            Token::Code(c) => {
                let hl = match &c.lang {
                    Some(l) => highlight(&c.value, l),
                    None => None,
                };
                match hl {
                    Some(h) => {
                        let mut b = lit_div_open_x();
                        append_bytes(&mut b, &h);
                        let tail = lit_div_close_x();
                        append_bytes(&mut b, &tail);
                        proof {
                            assert(b@ =~= lit_div_open() + h@ + lit_div_close());
                        }
                        self.push_buf(&b);
                        Ok(())
                    },
                    None => {
                        let mut b = lit_bq_open_x();
                        html_encode(&c.value, &mut b);
                        let tail = lit_bq_close_x();
                        append_bytes(&mut b, &tail);
                        proof {
                            assert(b@ =~= lit_bq_open() + html_encoded(c.value@) + lit_bq_close());
                        }
                        self.push_buf(&b);
                        Ok(())
                    },
                }
            },
            Token::Html(el) => {
                let mut b: Vec<u8> = Vec::new();
                el.write(&mut b);
                self.push_buf(&b);
                Ok(())
            },
            Token::Image(im) => {
                let mut b = lit_img_open_x();
                let tu = trim_ascii_vec(&im.url);
                append_bytes(&mut b, &tu);
                let mid = lit_img_mid_x();
                append_bytes(&mut b, &mid);
                let ta = trim_ascii_vec(&im.alt);
                append_bytes(&mut b, &ta);
                let tail = lit_img_end_x();
                append_bytes(&mut b, &tail);
                proof {
                    assert(b@ =~= lit_img_open() + trim_of(im.url@) + lit_img_mid() + trim_of(
                        im.alt@,
                    ) + lit_img_end());
                }
                self.push_buf(&b);
                Ok(())
            },
            Token::LinkEnter => {
                self.state.push(State::Link);
                proof {
                    assert(vis_step(vis_view(*old(self)), e@) matches Some(v2) && v2 =~~=
                        vis_view(*self));
                }
                Ok(())
            },
            Token::LinkExit(url) => {
                let _popped = self.state.pop();
                let mut b = lit_link_open_x();
                let tu = trim_ascii_vec(url);
                append_bytes(&mut b, &tu);
                let mid = lit_quot_gt_x();
                append_bytes(&mut b, &mid);
                append_bytes(&mut b, &self.link_buffer);
                let tail = lit_link_close_x();
                append_bytes(&mut b, &tail);
                let n = self.state.len();
                let st = if n == 0 {
                    State::Normal
                } else {
                    self.state[n - 1]
                };
                match st {
                    State::Footnote => append_bytes(&mut self.footnotes, &b),
                    _ => append_bytes(&mut self.output, &b),
                }
                self.link_buffer = Vec::new();
                proof {
                    assert(vis_step(vis_view(*old(self)), e@) matches Some(v2) && v2 =~~=
                        vis_view(*self));
                }
                Ok(())
            },
            Token::FootnoteRef(id) => {
                let mut b = lit_fref_open_x();
                append_bytes(&mut b, id);
                let m1 = lit_fref_mid_x();
                append_bytes(&mut b, &m1);
                append_bytes(&mut b, id);
                let m2 = lit_quot_gt_x();
                append_bytes(&mut b, &m2);
                append_bytes(&mut b, id);
                let tail = lit_fref_close_x();
                append_bytes(&mut b, &tail);
                proof {
                    assert(b@ =~= lit_fref_open() + id@ + lit_fref_mid() + id@ + lit_quot_gt()
                        + id@ + lit_fref_close());
                }
                self.push_buf(&b);
                Ok(())
            },
            Token::FootnoteDefEnter(id) => {
                self.state.push(State::Footnote);
                let mut b = lit_fdef_open_x();
                append_bytes(&mut b, id);
                let m1 = lit_quot_gt_x();
                append_bytes(&mut b, &m1);
                append_bytes(&mut b, id);
                let m2 = lit_fdef_dot_x();
                append_bytes(&mut b, &m2);
                let m3 = lit_fret_open_x();
                append_bytes(&mut b, &m3);
                append_bytes(&mut b, id);
                let tail = lit_fret_end_x();
                append_bytes(&mut b, &tail);
                proof {
                    assert(b@ =~= lit_fdef_open() + id@ + lit_quot_gt() + id@ + lit_fdef_dot()
                        + lit_fret_open() + id@ + lit_fret_end());
                }
                self.push_buf(&b);
                proof {
                    assert(vis_step(vis_view(*old(self)), e@) matches Some(v2) && v2 =~~=
                        vis_view(*self));
                }
                Ok(())
            },
            Token::FootnoteDefExit => {
                let b = lit_para_close_x();
                self.push_buf(&b);
                let _popped = self.state.pop();
                proof {
                    assert(vis_step(vis_view(*old(self)), e@) matches Some(v2) && v2 =~~=
                        vis_view(*self));
                }
                Ok(())
            },
        }
    }

    /// The finished document: main output, then the deferred footnote
    /// definitions, if any, wrapped once.
    pub fn output(self) -> (r: Vec<u8>)
        ensures
            r@ == final_output(vis_view(self)),
    {
        let mut out = self.output;
        if self.footnotes.len() > 0 {
            let o = lit_foots_open_x();
            append_bytes(&mut out, &o);
            append_bytes(&mut out, &self.footnotes);
            let c = lit_foots_close_x();
            append_bytes(&mut out, &c);
        }
        out
    }
}

/// While the visitor is collecting a footnote definition, nothing is written
/// to the main output stream: definition content is deferred to the
/// footnotes buffer, which `output` appends once, after all main content.
pub proof fn lemma_footnote_deferral(v: VisV, e: TokenV)
    requires
        v.state.len() > 0,
        v.state.last() is Footnote,
        !(e is LinkExit),
        !(e is FootnoteDefExit),
    ensures
        vis_step(v, e) matches Some(v2) ==> v2.output == v.output,
{
}

// --- The tokenizer: position helpers --------------------------------------------

pub proof fn lemma_tokens_view_len(es: Seq<Token>)
    ensures
        tokens_view(es).len() == es.len(),
    decreases es,
{
    if es.len() > 0 {
        lemma_tokens_view_len(es.drop_last());
    }
}

pub proof fn lemma_tokens_view_index(es: Seq<Token>, i: int)
    requires
        0 <= i < es.len(),
    ensures
        tokens_view(es)[i] == token_view(es[i]),
    decreases es,
{
    lemma_tokens_view_len(es);
    if i < es.len() - 1 {
        lemma_tokens_view_index(es.drop_last(), i);
    }
}

/// The first position at or after `i` holding `b`; the input's length when
/// there is none.
pub open spec fn find_byte(s: Seq<u8>, i: int, b: u8) -> int
    decreases s.len() - i,
{
    if i < 0 || i >= s.len() {
        s.len() as int
    } else if s[i] == b {
        i
    } else {
        find_byte(s, i + 1, b)
    }
}

/// The first position at or after `i` where `pat` occurs; the input's length
/// when there is none.
pub open spec fn find_seq(s: Seq<u8>, i: int, pat: Seq<u8>) -> int
    decreases s.len() - i,
{
    if i < 0 || i >= s.len() {
        s.len() as int
    } else if i + pat.len() <= s.len() && s.subrange(i, i + pat.len() as int) == pat {
        i
    } else {
        find_seq(s, i + 1, pat)
    }
}

/// The first position at or after `i` holding neither a line feed nor a
/// carriage return.
pub open spec fn nl_end(s: Seq<u8>, i: int) -> int
    decreases s.len() - i,
{
    if i < 0 || i >= s.len() {
        s.len() as int
    } else if s[i] == 10 || s[i] == 13 {
        nl_end(s, i + 1)
    } else {
        i
    }
}

/// The end of a fence's language token: the first space or line break.
pub open spec fn lang_end(s: Seq<u8>, i: int) -> int
    decreases s.len() - i,
{
    if i < 0 || i >= s.len() {
        s.len() as int
    } else if s[i] == 32 || s[i] == 10 || s[i] == 13 {
        i
    } else {
        lang_end(s, i + 1)
    }
}

/// The end of a run of `#`.
pub open spec fn hash_end(s: Seq<u8>, i: int) -> int
    decreases s.len() - i,
{
    if i < 0 || i >= s.len() {
        s.len() as int
    } else if s[i] == 35 {
        hash_end(s, i + 1)
    } else {
        i
    }
}

/// The inline scan's termination condition, chosen by the enclosing
/// construct.
#[derive(Clone, Copy)]
pub enum Term {
    /// A `*` ends the run.
    Star,
    /// A `_` ends the run.
    Under,
    /// A `]` ends the run.
    Bracket,
    /// Any line break ends the run.
    Newline,
    /// A line break followed by a blank line or a heading ends the run.
    Para,
}

pub open spec fn term_holds(s: Seq<u8>, i: int, t: Term) -> bool {
    if i < 0 || i >= s.len() {
        false
    } else {
        match t {
            Term::Star => s[i] == 42,
            Term::Under => s[i] == 95,
            Term::Bracket => s[i] == 93,
            Term::Newline => s[i] == 10 || s[i] == 13,
            Term::Para => (s[i] == 10 || s[i] == 13) && i + 1 < s.len() && (s[i + 1] == 10 || s[i
                + 1] == 35),
        }
    }
}

/// The end of a plain text run started at `i - 1`: the first position at or
/// after `i` holding an inline dispatch byte or meeting the terminator.
pub open spec fn text_end(s: Seq<u8>, i: int, t: Term) -> int
    decreases s.len() - i,
{
    if i < 0 || i >= s.len() {
        s.len() as int
    } else if s[i] == 33 || s[i] == 42 || s[i] == 95 || s[i] == 96 || s[i] == 91 || term_holds(
        s,
        i,
        t,
    ) {
        i
    } else {
        text_end(s, i + 1, t)
    }
}

/// A link or image URL after the body: either wrapped in `<...>`, scanning on
/// to the closing parenthesis, or everything up to the closing parenthesis.
pub open spec fn sp_url(s: Seq<u8>, p: int) -> (Seq<u8>, int) {
    if 0 <= p < s.len() && s[p] == 60 {
        let u = find_byte(s, p + 1, 62);
        (s.subrange(p + 1, u), find_byte(s, u, 41))
    } else {
        let u = find_byte(s, p, 41);
        (s.subrange(p, u), u)
    }
}

// --- The tokenizer: grammar -------------------------------------------------------

/// The inline scan: from `i` up to the terminator (or the end of input),
/// emitting image, strong, emphasis, footnote-reference, link, inline-code
/// and text events. The result carries the position after the scanned run.
pub open spec fn sp_paragraph(s: Seq<u8>, i: int, t: Term) -> (Seq<TokenV>, int)
    decreases s.len() - i,
{
    if i < 0 || i >= s.len() {
        (Seq::empty(), i)
    } else if term_holds(s, i, t) {
        (Seq::empty(), i)
    } else if s[i] == 33 && i + 1 < s.len() && s[i + 1] == 91 {
        let a = find_byte(s, i + 2, 93);
        let alt = s.subrange(i + 2, a);
        let p2 = if a + 2 <= s.len() {
            a + 2
        } else {
            s.len() as int
        };
        let up = sp_url(s, p2);
        let p4 = if up.1 + 1 <= s.len() {
            up.1 + 1
        } else {
            s.len() as int
        };
        let p5 = if p4 <= i {
            i + 1
        } else {
            p4
        };
        let rest = sp_paragraph(s, p5, t);
        (seq![TokenV::Image(alt, up.0)] + rest.0, rest.1)
    } else if s[i] == 42 || s[i] == 95 {
        let inner = sp_paragraph(
            s,
            i + 1,
            if s[i] == 42 {
                Term::Star
            } else {
                Term::Under
            },
        );
        let p = if inner.1 + 1 <= s.len() {
            inner.1 + 1
        } else {
            s.len() as int
        };
        let p2 = if p <= i {
            i + 1
        } else {
            p
        };
        let rest = sp_paragraph(s, p2, t);
        (
            seq![
                if s[i] == 42 {
                    TokenV::StrongEnter
                } else {
                    TokenV::EmphasisEnter
                },
            ] + inner.0 + seq![
                if s[i] == 42 {
                    TokenV::StrongExit
                } else {
                    TokenV::EmphasisExit
                },
            ] + rest.0,
            rest.1,
        )
    } else if s[i] == 91 && i + 1 < s.len() && s[i + 1] == 94 {
        let a = find_byte(s, i + 2, 93);
        let id = s.subrange(i + 2, a);
        let p = if a + 1 <= s.len() {
            a + 1
        } else {
            s.len() as int
        };
        let p2 = if p <= i {
            i + 1
        } else {
            p
        };
        let rest = sp_paragraph(s, p2, t);
        (seq![TokenV::FootnoteRef(id)] + rest.0, rest.1)
    } else if s[i] == 91 {
        let inner = sp_paragraph(s, i + 1, Term::Bracket);
        let p2v = if inner.1 + 2 <= s.len() {
            inner.1 + 2
        } else {
            s.len() as int
        };
        let up = sp_url(s, p2v);
        let p4 = if up.1 + 1 <= s.len() {
            up.1 + 1
        } else {
            s.len() as int
        };
        let p5 = if p4 <= i {
            i + 1
        } else {
            p4
        };
        let rest = sp_paragraph(s, p5, t);
        (seq![TokenV::LinkEnter] + inner.0 + seq![TokenV::LinkExit(up.0)] + rest.0, rest.1)
    } else if s[i] == 96 {
        let c = find_byte(s, i + 1, 96);
        let code = s.subrange(i + 1, c);
        let p = if c + 1 <= s.len() {
            c + 1
        } else {
            s.len() as int
        };
        let p2 = if p <= i {
            i + 1
        } else {
            p
        };
        let rest = sp_paragraph(s, p2, t);
        (seq![TokenV::InlineCode(code)] + rest.0, rest.1)
    } else {
        let stop0 = text_end(s, i + 1, t);
        let stop = if stop0 <= i || stop0 > s.len() {
            i + 1
        } else {
            stop0
        };
        let rest = sp_paragraph(s, stop, t);
        (seq![TokenV::Text(s.subrange(i, stop))] + rest.0, rest.1)
    }
}

pub open spec fn dashes3() -> Seq<u8> {
    seq![45u8, 45u8, 45u8]
}

pub open spec fn ticks3() -> Seq<u8> {
    seq![96u8, 96u8, 96u8]
}

pub open spec fn dollars2() -> Seq<u8> {
    seq![36u8, 36u8]
}

/// A paragraph block: enter, the inline scan up to a paragraph break, exit.
pub open spec fn sp_para_block(s: Seq<u8>, i: int) -> (Seq<TokenV>, int) {
    let par = sp_paragraph(s, i, Term::Para);
    (seq![TokenV::ParagraphEnter] + par.0 + seq![TokenV::ParagraphExit], par.1)
}

/// The block scan: dispatches on the leading bytes of each block in turn.
pub open spec fn sp_simple(s: Seq<u8>, i: int) -> Seq<TokenV>
    decreases s.len() - i,
{
    if i < 0 || i >= s.len() {
        Seq::empty()
    } else if i + 2 <= s.len() && s.subrange(i, i + 2) == seq![91u8, 94u8] {
        let a = find_byte(s, i + 2, 93);
        let id = s.subrange(i + 2, a);
        let p = if a + 2 <= s.len() {
            a + 2
        } else {
            s.len() as int
        };
        let par = sp_paragraph(s, p, Term::Newline);
        let q0 = nl_end(s, par.1);
        let q = if q0 <= i || q0 > s.len() {
            i + 1
        } else {
            q0
        };
        seq![TokenV::FootnoteDefEnter(id)] + par.0 + seq![TokenV::FootnoteDefExit] + sp_simple(
            s,
            q,
        )
    } else if i + 3 <= s.len() && s.subrange(i, i + 3) == dashes3() {
        let y = find_seq(s, i + 3, dashes3());
        let b = s.subrange(i + 3, y);
        let p = if y + 3 <= s.len() {
            y + 3
        } else {
            s.len() as int
        };
        let q0 = nl_end(s, p);
        let q = if q0 <= i || q0 > s.len() {
            i + 1
        } else {
            q0
        };
        seq![TokenV::Yaml(b)] + sp_simple(s, q)
    } else if i + 3 <= s.len() && s.subrange(i, i + 3) == ticks3() {
        let le = lang_end(s, i + 3);
        let lang = s.subrange(i + 3, le);
        let nl = nl_end(s, le);
        let c = find_seq(s, nl, ticks3());
        let value = s.subrange(nl, c);
        let p = if c + 3 <= s.len() {
            c + 3
        } else {
            s.len() as int
        };
        let q0 = nl_end(s, p);
        let q = if q0 <= i || q0 > s.len() {
            i + 1
        } else {
            q0
        };
        seq![
            TokenV::Code(
                value,
                if lang.len() > 0 {
                    Some(lang)
                } else {
                    None
                },
            ),
        ] + sp_simple(s, q)
    } else if i + 2 <= s.len() && s.subrange(i, i + 2) == dollars2() {
        let m = find_seq(s, i + 2, dollars2());
        let value = s.subrange(i + 2, m);
        let p = if m + 2 <= s.len() {
            m + 2
        } else {
            s.len() as int
        };
        let q0 = nl_end(s, p);
        let q = if q0 <= i || q0 > s.len() {
            i + 1
        } else {
            q0
        };
        seq![TokenV::Math(value)] + sp_simple(s, q)
    } else if s[i] == 35 {
        let h = hash_end(s, i + 1);
        let d = (h - i) as u8;
        let par = sp_paragraph(s, h, Term::Newline);
        let q0 = nl_end(s, par.1);
        let q = if q0 <= i || q0 > s.len() {
            i + 1
        } else {
            q0
        };
        seq![TokenV::HeadingEnter(d)] + par.0 + seq![TokenV::HeadingExit(d)] + sp_simple(s, q)
    } else if s[i] == 60 && crate::parse::sp_element(s, i) is Val {
        match crate::parse::sp_element(s, i) {
            crate::parse::SpRes::Val(e, k) => {
                let q = if k <= i || k > s.len() {
                    i + 1
                } else {
                    k
                };
                seq![TokenV::Html(e)] + sp_simple(s, q)
            },
            _ => Seq::empty(),
        }
    } else {
        let pb = sp_para_block(s, i);
        let q0 = nl_end(s, pb.1);
        let q = if q0 <= i || q0 > s.len() {
            i + 1
        } else {
            q0
        };
        pb.0 + sp_simple(s, q)
    }
}

// --- The tokenizer: executable form ------------------------------------------------

pub(crate) fn find_byte_x_pub(s: &Vec<u8>, i: usize, b: u8) -> (r: usize)
    requires
        i <= s@.len(),
    ensures
        r as int == find_byte(s@, i as int, b),
        i <= r <= s@.len(),
    decreases s@.len() - i,
{
    find_byte_x(s, i, b)
}

fn find_byte_x(s: &Vec<u8>, i: usize, b: u8) -> (r: usize)
    requires
        i <= s@.len(),
    ensures
        r as int == find_byte(s@, i as int, b),
        i <= r <= s@.len(),
    decreases s@.len() - i,
{
    if i >= s.len() {
        s.len()
    } else if s[i] == b {
        i
    } else {
        find_byte_x(s, i + 1, b)
    }
}

fn find_seq_x(s: &Vec<u8>, i: usize, pat: &Vec<u8>) -> (r: usize)
    requires
        i <= s@.len(),
    ensures
        r as int == find_seq(s@, i as int, pat@),
        i <= r <= s@.len(),
    decreases s@.len() - i,
{
    if i >= s.len() {
        s.len()
    } else if crate::parse::match_at(s, i, pat) {
        i
    } else {
        find_seq_x(s, i + 1, pat)
    }
}

fn nl_end_x(s: &Vec<u8>, i: usize) -> (r: usize)
    requires
        i <= s@.len(),
    ensures
        r as int == nl_end(s@, i as int),
        i <= r <= s@.len(),
    decreases s@.len() - i,
{
    if i >= s.len() {
        s.len()
    } else {
        let b = s[i];
        if b == 10 || b == 13 {
            nl_end_x(s, i + 1)
        } else {
            i
        }
    }
}

fn lang_end_x(s: &Vec<u8>, i: usize) -> (r: usize)
    requires
        i <= s@.len(),
    ensures
        r as int == lang_end(s@, i as int),
        i <= r <= s@.len(),
    decreases s@.len() - i,
{
    if i >= s.len() {
        s.len()
    } else {
        let b = s[i];
        if b == 32 || b == 10 || b == 13 {
            i
        } else {
            lang_end_x(s, i + 1)
        }
    }
}

pub(crate) fn hash_end_x(s: &Vec<u8>, i: usize) -> (r: usize)
    requires
        i <= s@.len(),
    ensures
        r as int == hash_end(s@, i as int),
        i <= r <= s@.len(),
    decreases s@.len() - i,
{
    if i >= s.len() {
        s.len()
    } else if s[i] == 35 {
        hash_end_x(s, i + 1)
    } else {
        i
    }
}

fn term_at(s: &Vec<u8>, i: usize, t: Term) -> (r: bool)
    requires
        i <= s@.len(),
    ensures
        r == term_holds(s@, i as int, t),
{
    if i >= s.len() {
        return false;
    }
    let b = s[i];
    match t {
        Term::Star => b == 42,
        Term::Under => b == 95,
        Term::Bracket => b == 93,
        Term::Newline => b == 10 || b == 13,
        Term::Para => (b == 10 || b == 13) && i + 1 < s.len() && (s[i + 1] == 10 || s[i + 1]
            == 35),
    }
}

fn text_end_x(s: &Vec<u8>, i: usize, t: Term) -> (r: usize)
    requires
        i <= s@.len(),
    ensures
        r as int == text_end(s@, i as int, t),
        i <= r <= s@.len(),
    decreases s@.len() - i,
{
    if i >= s.len() {
        return s.len();
    }
    let b = s[i];
    if b == 33 || b == 42 || b == 95 || b == 96 || b == 91 || term_at(s, i, t) {
        i
    } else {
        text_end_x(s, i + 1, t)
    }
}

fn scan_url(s: &Vec<u8>, p: usize) -> (r: (Vec<u8>, usize))
    requires
        p <= s@.len(),
    ensures
        (r.0@, r.1 as int) == sp_url(s@, p as int),
        p <= r.1 <= s@.len(),
{
    if p < s.len() && s[p] == 60 {
        let u = find_byte_x(s, p + 1, 62);
        let e = find_byte_x(s, u, 41);
        (crate::element::subrange_vec(s, p + 1, u), e)
    } else {
        let u = find_byte_x(s, p, 41);
        (crate::element::subrange_vec(s, p, u), u)
    }
}

#[verifier::rlimit(100)]
fn scan_par_image(s: &Vec<u8>, i: usize, t: Term, evs: &mut Vec<Token>) -> (end: usize)
    requires
        i < s@.len(),
        !term_holds(s@, i as int, t),
        s@[i as int] == 33 && i + 1 < s@.len() && s@[i as int + 1] == 91,
    ensures
        tokens_view(final(evs)@) == tokens_view(old(evs)@) + sp_paragraph(s@, i as int, t).0,
        end as int == sp_paragraph(s@, i as int, t).1,
        end <= s@.len(),
    decreases s@.len() - i, 0int,
{
    let n = s.len();
    proof {
        assert(i + 2 <= n);
    }
    let a = find_byte_x(s, i + 2, 93);
    let alt = crate::element::subrange_vec(s, i + 2, a);
    let p2 = if a <= s.len() - 2 {
        a + 2
    } else {
        s.len()
    };
    let (url, p3) = scan_url(s, p2);
    let p4 = if p3 < s.len() {
        p3 + 1
    } else {
        p3
    };
    let p5 = if p4 <= i {
        i + 1
    } else {
        p4
    };
    let ghost b0 = evs@;
    evs.push(Token::Image(Image { alt, url, title: None }));
    proof {
        lemma_tokens_view_push(b0, evs@.last());
    }
    let end = scan_paragraph(s, p5, t, evs);
    proof {
        assert(tokens_view(evs@) =~= tokens_view(b0) + sp_paragraph(s@, i as int, t).0);
    }
    end
}

#[verifier::rlimit(100)]
fn scan_par_strong(s: &Vec<u8>, i: usize, t: Term, evs: &mut Vec<Token>) -> (end: usize)
    requires
        i < s@.len(),
        !term_holds(s@, i as int, t),
        !(s@[i as int] == 33 && i + 1 < s@.len() && s@[i as int + 1] == 91),
        s@[i as int] == 42 || s@[i as int] == 95,
    ensures
        tokens_view(final(evs)@) == tokens_view(old(evs)@) + sp_paragraph(s@, i as int, t).0,
        end as int == sp_paragraph(s@, i as int, t).1,
        end <= s@.len(),
    decreases s@.len() - i, 0int,
{
    let n = s.len();
    proof {
        assert(i + 1 <= n);
    }
    let b = s[i];
    let ghost b0 = evs@;
    if b == 42 {
        evs.push(Token::StrongEnter);
    } else {
        evs.push(Token::EmphasisEnter);
    }
    proof {
        lemma_tokens_view_push(b0, evs@.last());
    }
    let inner_t = if b == 42 {
        Term::Star
    } else {
        Term::Under
    };
    let mid = scan_paragraph(s, i + 1, inner_t, evs);
    let p = if mid < s.len() {
        mid + 1
    } else {
        mid
    };
    let p2 = if p <= i {
        i + 1
    } else {
        p
    };
    let ghost b1 = evs@;
    if b == 42 {
        evs.push(Token::StrongExit);
    } else {
        evs.push(Token::EmphasisExit);
    }
    proof {
        lemma_tokens_view_push(b1, evs@.last());
    }
    let end = scan_paragraph(s, p2, t, evs);
    proof {
        assert(tokens_view(evs@) =~= tokens_view(b0) + sp_paragraph(s@, i as int, t).0);
    }
    end
}

#[verifier::rlimit(100)]
fn scan_par_link(s: &Vec<u8>, i: usize, t: Term, evs: &mut Vec<Token>) -> (end: usize)
    requires
        i < s@.len(),
        !term_holds(s@, i as int, t),
        !(s@[i as int] == 33 && i + 1 < s@.len() && s@[i as int + 1] == 91),
        !(s@[i as int] == 42 || s@[i as int] == 95),
        !(s@[i as int] == 91 && i + 1 < s@.len() && s@[i as int + 1] == 94),
        s@[i as int] == 91,
    ensures
        tokens_view(final(evs)@) == tokens_view(old(evs)@) + sp_paragraph(s@, i as int, t).0,
        end as int == sp_paragraph(s@, i as int, t).1,
        end <= s@.len(),
    decreases s@.len() - i, 0int,
{
    let n = s.len();
    proof {
        assert(i + 1 <= n);
    }
    let ghost b0 = evs@;
    evs.push(Token::LinkEnter);
    proof {
        lemma_tokens_view_push(b0, evs@.last());
    }
    let mid = scan_paragraph(s, i + 1, Term::Bracket, evs);
    let p2 = if s.len() >= 2 && mid <= s.len() - 2 {
        mid + 2
    } else {
        s.len()
    };
    let (url, p3) = scan_url(s, p2);
    let p4 = if p3 < s.len() {
        p3 + 1
    } else {
        p3
    };
    let p5 = if p4 <= i {
        i + 1
    } else {
        p4
    };
    let ghost b1 = evs@;
    evs.push(Token::LinkExit(url));
    proof {
        lemma_tokens_view_push(b1, evs@.last());
    }
    let end = scan_paragraph(s, p5, t, evs);
    proof {
        assert(tokens_view(evs@) =~= tokens_view(b0) + sp_paragraph(s@, i as int, t).0);
    }
    end
}

/// The inline scan, appending its events to `evs`.
fn scan_paragraph(s: &Vec<u8>, i: usize, t: Term, evs: &mut Vec<Token>) -> (end: usize)
    requires
        i <= s@.len(),
    ensures
        tokens_view(final(evs)@) == tokens_view(old(evs)@) + sp_paragraph(s@, i as int, t).0,
        end as int == sp_paragraph(s@, i as int, t).1,
        end <= s@.len(),
    decreases s@.len() - i, 1int,
{
    if i >= s.len() {
        proof {
            assert(tokens_view(evs@) =~= tokens_view(evs@) + sp_paragraph(s@, i as int, t).0);
        }
        return i;
    }
    if term_at(s, i, t) {
        proof {
            assert(tokens_view(evs@) =~= tokens_view(evs@) + sp_paragraph(s@, i as int, t).0);
        }
        return i;
    }
    let b = s[i];
    if b == 33 && i + 1 < s.len() && s[i + 1] == 91 {
        scan_par_image(s, i, t, evs)
    } else if b == 42 || b == 95 {
        scan_par_strong(s, i, t, evs)
    } else if b == 91 && i + 1 < s.len() && s[i + 1] == 94 {
        let a = find_byte_x(s, i + 2, 93);
        let id = crate::element::subrange_vec(s, i + 2, a);
        let p = if a < s.len() {
            a + 1
        } else {
            a
        };
        let p2 = if p <= i {
            i + 1
        } else {
            p
        };
        let ghost b0 = evs@;
        evs.push(Token::FootnoteRef(id));
        proof {
            lemma_tokens_view_push(b0, evs@.last());
        }
        let end = scan_paragraph(s, p2, t, evs);
        proof {
            assert(tokens_view(evs@) =~= tokens_view(b0) + sp_paragraph(s@, i as int, t).0);
        }
        end
    } else if b == 91 {
        scan_par_link(s, i, t, evs)
    } else if b == 96 {
        let c = find_byte_x(s, i + 1, 96);
        let code = crate::element::subrange_vec(s, i + 1, c);
        let p = if c < s.len() {
            c + 1
        } else {
            c
        };
        let p2 = if p <= i {
            i + 1
        } else {
            p
        };
        let ghost b0 = evs@;
        evs.push(Token::InlineCode(code));
        proof {
            lemma_tokens_view_push(b0, evs@.last());
        }
        let end = scan_paragraph(s, p2, t, evs);
        proof {
            assert(tokens_view(evs@) =~= tokens_view(b0) + sp_paragraph(s@, i as int, t).0);
        }
        end
    } else {
        let stop0 = text_end_x(s, i + 1, t);
        let stop = if stop0 <= i || stop0 > s.len() {
            i + 1
        } else {
            stop0
        };
        let text = crate::element::subrange_vec(s, i, stop);
        let ghost b0 = evs@;
        evs.push(Token::Text(text));
        proof {
            lemma_tokens_view_push(b0, evs@.last());
        }
        let end = scan_paragraph(s, stop, t, evs);
        proof {
            assert(tokens_view(evs@) =~= tokens_view(b0) + sp_paragraph(s@, i as int, t).0);
        }
        end
    }
}

fn dashes3_x() -> (v: Vec<u8>)
    ensures
        v@ == dashes3(),
{
    let mut v: Vec<u8> = Vec::new();
    v.push(45);
    v.push(45);
    v.push(45);
    proof {
        assert(v@ =~= dashes3());
    }
    v
}

fn ticks3_x() -> (v: Vec<u8>)
    ensures
        v@ == ticks3(),
{
    let mut v: Vec<u8> = Vec::new();
    v.push(96);
    v.push(96);
    v.push(96);
    proof {
        assert(v@ =~= ticks3());
    }
    v
}

fn dollars2_x() -> (v: Vec<u8>)
    ensures
        v@ == dollars2(),
{
    let mut v: Vec<u8> = Vec::new();
    v.push(36);
    v.push(36);
    proof {
        assert(v@ =~= dollars2());
    }
    v
}

/// The block scan, appending the document's events to `evs`.
#[verifier::rlimit(100)]
fn scan_simple(s: &Vec<u8>, i: usize, evs: &mut Vec<Token>)
    requires
        i <= s@.len(),
    ensures
        tokens_view(final(evs)@) == tokens_view(old(evs)@) + sp_simple(s@, i as int),
    decreases s@.len() - i,
{
    if i >= s.len() {
        proof {
            assert(tokens_view(evs@) =~= tokens_view(evs@) + sp_simple(s@, i as int));
        }
        return ;
    }
    let mut fseq: Vec<u8> = Vec::new();
    fseq.push(91);
    fseq.push(94);
    proof {
        assert(fseq@ =~= seq![91u8, 94u8]);
    }
    if crate::parse::match_at(s, i, &fseq) {
        let a = find_byte_x(s, i + 2, 93);
        let id = crate::element::subrange_vec(s, i + 2, a);
        let p = if a <= s.len() - 2 {
            a + 2
        } else {
            s.len()
        };
        let ghost b0 = evs@;
        evs.push(Token::FootnoteDefEnter(id));
        proof {
            lemma_tokens_view_push(b0, evs@.last());
        }
        let pe = scan_paragraph(s, p, Term::Newline, evs);
        let ghost b1 = evs@;
        evs.push(Token::FootnoteDefExit);
        proof {
            lemma_tokens_view_push(b1, evs@.last());
        }
        let q0 = nl_end_x(s, pe);
        let q = if q0 <= i || q0 > s.len() {
            i + 1
        } else {
            q0
        };
        scan_simple(s, q, evs);
        proof {
            assert(tokens_view(evs@) =~= tokens_view(b0) + sp_simple(s@, i as int));
        }
        return ;
    }
    let dash = dashes3_x();
    if crate::parse::match_at(s, i, &dash) {
        let y = find_seq_x(s, i + 3, &dash);
        let bytes = crate::element::subrange_vec(s, i + 3, y);
        let p = if y <= s.len() - 3 {
            y + 3
        } else {
            s.len()
        };
        let q0 = nl_end_x(s, p);
        let q = if q0 <= i || q0 > s.len() {
            i + 1
        } else {
            q0
        };
        let ghost b0 = evs@;
        evs.push(Token::Yaml(bytes));
        proof {
            lemma_tokens_view_push(b0, evs@.last());
        }
        scan_simple(s, q, evs);
        proof {
            assert(tokens_view(evs@) =~= tokens_view(b0) + sp_simple(s@, i as int));
        }
        return ;
    }
    let tick = ticks3_x();
    if crate::parse::match_at(s, i, &tick) {
        let le = lang_end_x(s, i + 3);
        let lang = crate::element::subrange_vec(s, i + 3, le);
        let nl = nl_end_x(s, le);
        let c = find_seq_x(s, nl, &tick);
        let value = crate::element::subrange_vec(s, nl, c);
        let p = if c <= s.len() - 3 {
            c + 3
        } else {
            s.len()
        };
        let q0 = nl_end_x(s, p);
        let q = if q0 <= i || q0 > s.len() {
            i + 1
        } else {
            q0
        };
        let lv: Option<Vec<u8>> = if lang.len() > 0 {
            Some(lang)
        } else {
            None
        };
        let ghost b0 = evs@;
        evs.push(Token::Code(Code { value, lang: lv }));
        proof {
            lemma_tokens_view_push(b0, evs@.last());
        }
        scan_simple(s, q, evs);
        proof {
            assert(tokens_view(evs@) =~= tokens_view(b0) + sp_simple(s@, i as int));
        }
        return ;
    }
    let doll = dollars2_x();
    if crate::parse::match_at(s, i, &doll) {
        let m = find_seq_x(s, i + 2, &doll);
        let value = crate::element::subrange_vec(s, i + 2, m);
        let p = if m <= s.len() - 2 {
            m + 2
        } else {
            s.len()
        };
        let q0 = nl_end_x(s, p);
        let q = if q0 <= i || q0 > s.len() {
            i + 1
        } else {
            q0
        };
        let ghost b0 = evs@;
        evs.push(Token::Math(value));
        proof {
            lemma_tokens_view_push(b0, evs@.last());
        }
        scan_simple(s, q, evs);
        proof {
            assert(tokens_view(evs@) =~= tokens_view(b0) + sp_simple(s@, i as int));
        }
        return ;
    }
    if s[i] == 35 {
        let h = hash_end_x(s, i + 1);
        let d = #[verifier::truncate] ((h - i) as u8);
        let ghost b0 = evs@;
        evs.push(Token::HeadingEnter(d));
        proof {
            lemma_tokens_view_push(b0, evs@.last());
        }
        let pe = scan_paragraph(s, h, Term::Newline, evs);
        let ghost b1 = evs@;
        evs.push(Token::HeadingExit(d));
        proof {
            lemma_tokens_view_push(b1, evs@.last());
        }
        let q0 = nl_end_x(s, pe);
        let q = if q0 <= i || q0 > s.len() {
            i + 1
        } else {
            q0
        };
        scan_simple(s, q, evs);
        proof {
            assert(tokens_view(evs@) =~= tokens_view(b0) + sp_simple(s@, i as int));
        }
        return ;
    }
    if s[i] == 60 {
        match crate::parse::element(s, i) {
            crate::parse::Parsed::Val(el, k) => {
                let ghost b0 = evs@;
                evs.push(Token::Html(el));
                proof {
                    lemma_tokens_view_push(b0, evs@.last());
                }
                let q = if k <= i || k > s.len() {
                    i + 1
                } else {
                    k
                };
                scan_simple(s, q, evs);
                proof {
                    assert(tokens_view(evs@) =~= tokens_view(b0) + sp_simple(s@, i as int));
                }
                return ;
            },
            _ => {},
        }
    }
    let ghost b0 = evs@;
    evs.push(Token::ParagraphEnter);
    proof {
        lemma_tokens_view_push(b0, evs@.last());
    }
    let pe = scan_paragraph(s, i, Term::Para, evs);
    let ghost b1 = evs@;
    evs.push(Token::ParagraphExit);
    proof {
        lemma_tokens_view_push(b1, evs@.last());
    }
    let q0 = nl_end_x(s, pe);
    let q = if q0 <= i || q0 > s.len() {
        i + 1
    } else {
        q0
    };
    scan_simple(s, q, evs);
    proof {
        assert(tokens_view(evs@) =~= tokens_view(b0) + sp_simple(s@, i as int));
    }
}

impl SimpleVisitor {
    /// Compile a markdown document in one forward pass: tokenize it and fold
    /// the events. The only failure is a frontmatter block that does not
    /// deserialize; then no output is produced at all.
    pub fn new(input: &Vec<u8>) -> (r: Result<SimpleVisitor, SimpleError>)
        ensures
            match r {
                Ok(v) => vis_fold(vis_init(), sp_simple(input@, 0), 0) == Some(vis_view(v)),
                Err(_) => vis_fold(vis_init(), sp_simple(input@, 0), 0) is None,
            },
    {
        let mut evs: Vec<Token> = Vec::new();
        proof {
            assert(tokens_view(Seq::<Token>::empty()) =~= Seq::<TokenV>::empty());
        }
        scan_simple(input, 0, &mut evs);
        proof {
            assert(tokens_view(evs@) =~= sp_simple(input@, 0));
        }
        let mut st: Vec<State> = Vec::new();
        st.push(State::Normal);
        let mut vis = SimpleVisitor {
            state: st,
            output: Vec::new(),
            link_buffer: Vec::new(),
            footnotes: Vec::new(),
            frontmatter: None,
        };
        proof {
            assert(vis_view(vis) =~~= vis_init());
        }
        let ghost evsv = tokens_view(evs@);
        let mut k: usize = 0;
        proof {
            lemma_tokens_view_len(evs@);
        }
        while k < evs.len()
            invariant
                k <= evs@.len(),
                evsv == tokens_view(evs@),
                evsv.len() == evs@.len(),
                evsv == sp_simple(input@, 0),
                vis_fold(vis_init(), evsv, 0) == vis_fold(vis_view(vis), evsv, k as int),
            decreases evs@.len() - k,
        {
            proof {
                lemma_tokens_view_index(evs@, k as int);
            }
            match vis.apply(&evs[k]) {
                Ok(_) => {},
                Err(e) => {
                    return Err(e);
                },
            }
            k = k + 1;
        }
        Ok(vis)
    }
}

} // verus!
