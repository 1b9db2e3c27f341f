//! A markdown compiler over the event stream of an outside CommonMark
//! parser: the stream is folded, event by event, into markup output, with
//! footnote definitions routed to a deferred buffer, code blocks gathered
//! and highlighted when their fence names a known language, and a YAML
//! metadata block deserialized into frontmatter (a malformed one fails the
//! whole document).

use vstd::prelude::*;

use crate::element::append_bytes;
use crate::element::clone_bytes;
use crate::text::digits_u8;
use crate::text::html_encode;
use crate::text::html_encoded;
use crate::text::push_digits_u8;
use crate::visitor::frontmatter_of;
use pulldown_cmark::CodeBlockKind;
use pulldown_cmark::MetadataBlockKind;
use pulldown_cmark::Tag;
use pulldown_cmark::TagEnd;
use crate::visitor::highlight_of;

verus! {

broadcast use vstd::std_specs::vec::group_vec_axioms, vstd::seq::group_seq_axioms;

/// One event of the outside parser, carried over one for one; events the
/// writer ignores are `Other`.
pub enum MdEvent {
    ParagraphStart,
    ParagraphEnd,
    EmphasisStart,
    EmphasisEnd,
    StrongStart,
    StrongEnd,
    StrikeStart,
    StrikeEnd,
    LinkStart(Vec<u8>),
    LinkEnd,
    HeadingStart(u8),
    HeadingEnd(u8),
    FootnoteStart(Vec<u8>),
    FootnoteEnd,
    MetaStart(bool),
    MetaEnd(bool),
    CodeStart(Option<Vec<u8>>),
    CodeEnd,
    HtmlStart,
    HtmlEnd,
    Text(Vec<u8>),
    FootnoteRef(Vec<u8>),
    Html(Vec<u8>),
    InlineCode(Vec<u8>),
    InlineMath(Vec<u8>),
    SoftBreak,
    DisplayMath(Vec<u8>),
    Other,
}

#[verifier::ext_equal]
pub enum MdEventV {
    ParagraphStart,
    ParagraphEnd,
    EmphasisStart,
    EmphasisEnd,
    StrongStart,
    StrongEnd,
    StrikeStart,
    StrikeEnd,
    LinkStart(Seq<u8>),
    LinkEnd,
    HeadingStart(u8),
    HeadingEnd(u8),
    FootnoteStart(Seq<u8>),
    FootnoteEnd,
    MetaStart(bool),
    MetaEnd(bool),
    CodeStart(Option<Seq<u8>>),
    CodeEnd,
    HtmlStart,
    HtmlEnd,
    Text(Seq<u8>),
    FootnoteRef(Seq<u8>),
    Html(Seq<u8>),
    InlineCode(Seq<u8>),
    InlineMath(Seq<u8>),
    SoftBreak,
    DisplayMath(Seq<u8>),
    Other,
}

pub open spec fn md_view(e: MdEvent) -> MdEventV {
    match e {
        MdEvent::ParagraphStart => MdEventV::ParagraphStart,
        MdEvent::ParagraphEnd => MdEventV::ParagraphEnd,
        MdEvent::EmphasisStart => MdEventV::EmphasisStart,
        MdEvent::EmphasisEnd => MdEventV::EmphasisEnd,
        MdEvent::StrongStart => MdEventV::StrongStart,
        MdEvent::StrongEnd => MdEventV::StrongEnd,
        MdEvent::StrikeStart => MdEventV::StrikeStart,
        MdEvent::StrikeEnd => MdEventV::StrikeEnd,
        MdEvent::LinkStart(u) => MdEventV::LinkStart(u@),
        MdEvent::LinkEnd => MdEventV::LinkEnd,
        MdEvent::HeadingStart(l) => MdEventV::HeadingStart(l),
        MdEvent::HeadingEnd(l) => MdEventV::HeadingEnd(l),
        MdEvent::FootnoteStart(l) => MdEventV::FootnoteStart(l@),
        MdEvent::FootnoteEnd => MdEventV::FootnoteEnd,
        MdEvent::MetaStart(y) => MdEventV::MetaStart(y),
        MdEvent::MetaEnd(y) => MdEventV::MetaEnd(y),
        MdEvent::CodeStart(l) => MdEventV::CodeStart(
            match l {
                Some(v) => Some(v@),
                None => None,
            },
        ),
        MdEvent::CodeEnd => MdEventV::CodeEnd,
        MdEvent::HtmlStart => MdEventV::HtmlStart,
        MdEvent::HtmlEnd => MdEventV::HtmlEnd,
        MdEvent::Text(t) => MdEventV::Text(t@),
        MdEvent::FootnoteRef(l) => MdEventV::FootnoteRef(l@),
        MdEvent::Html(h) => MdEventV::Html(h@),
        MdEvent::InlineCode(c) => MdEventV::InlineCode(c@),
        MdEvent::InlineMath(m) => MdEventV::InlineMath(m@),
        MdEvent::SoftBreak => MdEventV::SoftBreak,
        MdEvent::DisplayMath(m) => MdEventV::DisplayMath(m@),
        MdEvent::Other => MdEventV::Other,
    }
}

pub open spec fn mds_view(es: Seq<MdEvent>) -> Seq<MdEventV>
    decreases es,
{
    if es.len() == 0 {
        Seq::empty()
    } else {
        mds_view(es.drop_last()).push(md_view(es.last()))
    }
}

pub proof fn lemma_mds_view_len(es: Seq<MdEvent>)
    ensures
        mds_view(es).len() == es.len(),
    decreases es,
{
    if es.len() > 0 {
        lemma_mds_view_len(es.drop_last());
    }
}

pub proof fn lemma_mds_view_index(es: Seq<MdEvent>, i: int)
    requires
        0 <= i < es.len(),
    ensures
        mds_view(es)[i] == md_view(es[i]),
    decreases es,
{
    lemma_mds_view_len(es);
    if i < es.len() - 1 {
        lemma_mds_view_index(es.drop_last(), i);
    }
}

// --- Trusted outside calls ---------------------------------------------------------

#[verifier::external_type_specification]
#[verifier::external_body]
pub struct ExPdEvent<'a>(pulldown_cmark::Event<'a>);

#[verifier::external_type_specification]
#[verifier::external_body]
pub struct ExPdTag<'a>(pulldown_cmark::Tag<'a>);

#[verifier::external_type_specification]
#[verifier::external_body]
pub struct ExPdTagEnd(pulldown_cmark::TagEnd);

/// What the outside CommonMark parser produces for a document, with
/// strikethrough, YAML metadata blocks, footnotes and math enabled, carried
/// over into this crate's event type. The stream depends on the input text
/// alone.
pub uninterp spec fn md_events_of(s: Seq<char>) -> Seq<MdEventV>;

/// Relies on pulldown_cmark::Parser::new_ext: parses the document into its
/// event stream, which is a function of the text and the fixed option set.
#[verifier::external_body]
pub fn md_events(input: &str) -> (r: Vec<MdEvent>)
    ensures
        mds_view(r@) == md_events_of(input@),
{
    let opts = pulldown_cmark::Options::ENABLE_STRIKETHROUGH
        | pulldown_cmark::Options::ENABLE_YAML_STYLE_METADATA_BLOCKS
        | pulldown_cmark::Options::ENABLE_FOOTNOTES | pulldown_cmark::Options::ENABLE_MATH;
    pulldown_cmark::Parser::new_ext(input, opts).map(convert_event).collect()
}

/// Relies on pulldown_cmark::Event: each event is carried over one for one,
/// moving its fields; events the writer ignores become Other.
#[verifier::external_body]
fn convert_event(e: pulldown_cmark::Event) -> (r: MdEvent) {
    match e {
        pulldown_cmark::Event::Start(t) => start_event(t),
        pulldown_cmark::Event::End(t) => end_event(t),
        pulldown_cmark::Event::Text(t) => MdEvent::Text(t.into_string().into_bytes()),
        pulldown_cmark::Event::Code(c) => MdEvent::InlineCode(c.into_string().into_bytes()),
        pulldown_cmark::Event::InlineMath(m) => MdEvent::InlineMath(m.into_string().into_bytes()),
        pulldown_cmark::Event::DisplayMath(m) => MdEvent::DisplayMath(m.into_string().into_bytes()),
        pulldown_cmark::Event::Html(h) => MdEvent::Html(h.into_string().into_bytes()),
        pulldown_cmark::Event::FootnoteReference(l) => MdEvent::FootnoteRef(l.into_string().into_bytes()),
        pulldown_cmark::Event::SoftBreak => MdEvent::SoftBreak,
        _ => MdEvent::Other,
    }
}

/// Relies on pulldown_cmark::Tag: each start tag is carried over one for
/// one, moving its fields; tags the writer ignores become Other.
#[verifier::external_body]
fn start_event(t: pulldown_cmark::Tag) -> (r: MdEvent) {
    match t {
        Tag::MetadataBlock(k) => MdEvent::MetaStart(k == MetadataBlockKind::YamlStyle),
        Tag::Paragraph => MdEvent::ParagraphStart,
        Tag::Emphasis => MdEvent::EmphasisStart,
        Tag::Strong => MdEvent::StrongStart,
        Tag::Strikethrough => MdEvent::StrikeStart,
        Tag::Link { dest_url, .. } => MdEvent::LinkStart(dest_url.into_string().into_bytes()),
        Tag::Heading { level, .. } => MdEvent::HeadingStart(level as u8),
        Tag::FootnoteDefinition(l) => MdEvent::FootnoteStart(l.into_string().into_bytes()),
        Tag::CodeBlock(CodeBlockKind::Fenced(l)) => MdEvent::CodeStart(Some(l.into_string().into_bytes())),
        Tag::CodeBlock(_) => MdEvent::CodeStart(None),
        Tag::HtmlBlock => MdEvent::HtmlStart,
        _ => MdEvent::Other,
    }
}

/// Relies on pulldown_cmark::TagEnd: each end tag is carried over one for
/// one; tags the writer ignores become Other.
#[verifier::external_body]
fn end_event(t: pulldown_cmark::TagEnd) -> (r: MdEvent) {
    match t {
        TagEnd::MetadataBlock(k) => MdEvent::MetaEnd(k == MetadataBlockKind::YamlStyle),
        TagEnd::Paragraph => MdEvent::ParagraphEnd,
        TagEnd::Emphasis => MdEvent::EmphasisEnd,
        TagEnd::Strong => MdEvent::StrongEnd,
        TagEnd::Strikethrough => MdEvent::StrikeEnd,
        TagEnd::Link => MdEvent::LinkEnd,
        TagEnd::Heading(level) => MdEvent::HeadingEnd(level as u8),
        TagEnd::FootnoteDefinition => MdEvent::FootnoteEnd,
        TagEnd::CodeBlock => MdEvent::CodeEnd,
        TagEnd::HtmlBlock => MdEvent::HtmlEnd,
        _ => MdEvent::Other,
    }
}

/// Whether the bundled syntax set knows a language token. The answer depends
/// on the token alone.
pub uninterp spec fn lang_known(lang: Seq<u8>) -> bool;

/// Relies on SyntaxSet::find_syntax_by_extension over the bundled defaults.
#[verifier::external_body]
fn syntax_known(lang: &Vec<u8>) -> (r: bool)
    ensures
        r == lang_known(lang@),
{
    match core::str::from_utf8(lang) {
        Ok(l) => syntect::parsing::SyntaxSet::load_defaults_newlines().find_syntax_by_extension(
            l,
        ).is_some(),
        Err(_) => false,
    }
}

// --- The writer -----------------------------------------------------------------

/// Which buffer output goes to.
#[derive(Clone, Copy)]
pub enum State {
    Normal,
    Footnote,
}

/// What a block construct in progress is gathering.
pub enum Capture {
    Yaml(Vec<u8>),
    Named(Vec<u8>, Vec<u8>),
    Unnamed,
    Html,
}

/// The frontmatter schema: all three fields are required.
pub struct Frontmatter {
    pub title: String,
    pub date: String,
    pub description: String,
}

#[verifier::ext_equal]
pub struct FmV {
    pub title: Seq<char>,
    pub date: Seq<char>,
    pub description: Seq<char>,
}

#[verifier::ext_equal]
pub enum CapV {
    Yaml(Seq<u8>),
    Named(Seq<u8>, Seq<u8>),
    Unnamed,
    Html,
}

/// A writer that folds the event stream into markup text.
pub struct Writer {
    state: State,
    output: Vec<u8>,
    footnotes: Vec<u8>,
    capture: Option<Capture>,
    footnote_def: Option<Vec<u8>>,
    pub frontmatter: Option<Frontmatter>,
}

/// Indicates malformed YAML frontmatter.
#[derive(Debug)]
pub struct SimpleError;

#[verifier::ext_equal]
pub struct WV {
    pub state: State,
    pub output: Seq<u8>,
    pub footnotes: Seq<u8>,
    pub capture: Option<CapV>,
    pub fdef: Option<Seq<u8>>,
    pub frontmatter: Option<FmV>,
}

pub closed spec fn w_view(w: Writer) -> WV {
    WV {
        state: w.state,
        output: w.output@,
        footnotes: w.footnotes@,
        capture: match w.capture {
            Some(Capture::Yaml(b)) => Some(CapV::Yaml(b@)),
            Some(Capture::Named(l, c)) => Some(CapV::Named(l@, c@)),
            Some(Capture::Unnamed) => Some(CapV::Unnamed),
            Some(Capture::Html) => Some(CapV::Html),
            None => None,
        },
        fdef: match w.footnote_def {
            Some(l) => Some(l@),
            None => None,
        },
        frontmatter: match w.frontmatter {
            Some(f) => Some(FmV { title: f.title@, date: f.date@, description: f.description@ }),
            None => None,
        },
    }
}

/// Append bytes to the buffer the state selects.
pub open spec fn wsel(w: WV, b: Seq<u8>) -> WV {
    match w.state {
        State::Normal => WV { output: w.output + b, ..w },
        State::Footnote => WV { footnotes: w.footnotes + b, ..w },
    }
}

pub open spec fn lit_p_open() -> Seq<u8> {
    seq![60u8, 112u8, 62u8]
}

fn lit_p_open_x() -> (v: Vec<u8>)
    ensures
        v@ == lit_p_open(),
{
    let mut v: Vec<u8> = Vec::new();
    v.push(60);
    v.push(112);
    v.push(62);
    proof {
        assert(v@ =~= lit_p_open());
    }
    v
}

pub open spec fn lit_p_close() -> Seq<u8> {
    seq![60u8, 47u8, 112u8, 62u8]
}

fn lit_p_close_x() -> (v: Vec<u8>)
    ensures
        v@ == lit_p_close(),
{
    let mut v: Vec<u8> = Vec::new();
    v.push(60);
    v.push(47);
    v.push(112);
    v.push(62);
    proof {
        assert(v@ =~= lit_p_close());
    }
    v
}

pub open spec fn lit_em_open() -> Seq<u8> {
    seq![60u8, 101u8, 109u8, 62u8]
}

fn lit_em_open_x() -> (v: Vec<u8>)
    ensures
        v@ == lit_em_open(),
{
    let mut v: Vec<u8> = Vec::new();
    v.push(60);
    v.push(101);
    v.push(109);
    v.push(62);
    proof {
        assert(v@ =~= lit_em_open());
    }
    v
}

pub open spec fn lit_em_close() -> Seq<u8> {
    seq![60u8, 47u8, 101u8, 109u8, 62u8]
}

fn lit_em_close_x() -> (v: Vec<u8>)
    ensures
        v@ == lit_em_close(),
{
    let mut v: Vec<u8> = Vec::new();
    v.push(60);
    v.push(47);
    v.push(101);
    v.push(109);
    v.push(62);
    proof {
        assert(v@ =~= lit_em_close());
    }
    v
}

pub open spec fn lit_strong_open() -> Seq<u8> {
    seq![60u8, 115u8, 116u8, 114u8, 111u8, 110u8, 103u8, 62u8]
}

fn lit_strong_open_x() -> (v: Vec<u8>)
    ensures
        v@ == lit_strong_open(),
{
    let mut v: Vec<u8> = Vec::new();
    v.push(60);
    v.push(115);
    v.push(116);
    v.push(114);
    v.push(111);
    v.push(110);
    v.push(103);
    v.push(62);
    proof {
        assert(v@ =~= lit_strong_open());
    }
    v
}

pub open spec fn lit_strong_close() -> Seq<u8> {
    seq![60u8, 47u8, 115u8, 116u8, 114u8, 111u8, 110u8, 103u8, 62u8]
}

fn lit_strong_close_x() -> (v: Vec<u8>)
    ensures
        v@ == lit_strong_close(),
{
    let mut v: Vec<u8> = Vec::new();
    v.push(60);
    v.push(47);
    v.push(115);
    v.push(116);
    v.push(114);
    v.push(111);
    v.push(110);
    v.push(103);
    v.push(62);
    proof {
        assert(v@ =~= lit_strong_close());
    }
    v
}

pub open spec fn lit_del_open() -> Seq<u8> {
    seq![60u8, 100u8, 101u8, 108u8, 101u8, 116u8, 101u8, 62u8]
}

fn lit_del_open_x() -> (v: Vec<u8>)
    ensures
        v@ == lit_del_open(),
{
    let mut v: Vec<u8> = Vec::new();
    v.push(60);
    v.push(100);
    v.push(101);
    v.push(108);
    v.push(101);
    v.push(116);
    v.push(101);
    v.push(62);
    proof {
        assert(v@ =~= lit_del_open());
    }
    v
}

pub open spec fn lit_del_close() -> Seq<u8> {
    seq![60u8, 47u8, 100u8, 101u8, 108u8, 101u8, 116u8, 101u8, 62u8]
}

fn lit_del_close_x() -> (v: Vec<u8>)
    ensures
        v@ == lit_del_close(),
{
    let mut v: Vec<u8> = Vec::new();
    v.push(60);
    v.push(47);
    v.push(100);
    v.push(101);
    v.push(108);
    v.push(101);
    v.push(116);
    v.push(101);
    v.push(62);
    proof {
        assert(v@ =~= lit_del_close());
    }
    v
}

pub open spec fn lit_link_open() -> Seq<u8> {
    seq![60u8, 97u8, 32u8, 104u8, 114u8, 101u8, 102u8, 61u8, 34u8]
}

fn lit_link_open_x() -> (v: Vec<u8>)
    ensures
        v@ == lit_link_open(),
{
    let mut v: Vec<u8> = Vec::new();
    v.push(60);
    v.push(97);
    v.push(32);
    v.push(104);
    v.push(114);
    v.push(101);
    v.push(102);
    v.push(61);
    v.push(34);
    proof {
        assert(v@ =~= lit_link_open());
    }
    v
}

pub open spec fn lit_quot_gt() -> Seq<u8> {
    seq![34u8, 62u8]
}

fn lit_quot_gt_x() -> (v: Vec<u8>)
    ensures
        v@ == lit_quot_gt(),
{
    let mut v: Vec<u8> = Vec::new();
    v.push(34);
    v.push(62);
    proof {
        assert(v@ =~= lit_quot_gt());
    }
    v
}

pub open spec fn lit_link_close() -> Seq<u8> {
    seq![60u8, 47u8, 97u8, 62u8]
}

fn lit_link_close_x() -> (v: Vec<u8>)
    ensures
        v@ == lit_link_close(),
{
    let mut v: Vec<u8> = Vec::new();
    v.push(60);
    v.push(47);
    v.push(97);
    v.push(62);
    proof {
        assert(v@ =~= lit_link_close());
    }
    v
}

pub open spec fn lit_li_open() -> Seq<u8> {
    seq![60u8, 108u8, 105u8, 32u8, 105u8, 100u8, 61u8, 34u8, 102u8, 110u8]
}

fn lit_li_open_x() -> (v: Vec<u8>)
    ensures
        v@ == lit_li_open(),
{
    let mut v: Vec<u8> = Vec::new();
    v.push(60);
    v.push(108);
    v.push(105);
    v.push(32);
    v.push(105);
    v.push(100);
    v.push(61);
    v.push(34);
    v.push(102);
    v.push(110);
    proof {
        assert(v@ =~= lit_li_open());
    }
    v
}

pub open spec fn lit_ret_open() -> Seq<u8> {
    seq![60u8, 70u8, 111u8, 111u8, 116u8, 110u8, 111u8, 116u8, 101u8, 82u8, 101u8, 116u8, 32u8, 104u8, 114u8, 101u8, 102u8, 61u8, 34u8, 35u8, 114u8, 101u8, 102u8]
}

fn lit_ret_open_x() -> (v: Vec<u8>)
    ensures
        v@ == lit_ret_open(),
{
    let mut v: Vec<u8> = Vec::new();
    v.push(60);
    v.push(70);
    v.push(111);
    v.push(111);
    v.push(116);
    v.push(110);
    v.push(111);
    v.push(116);
    v.push(101);
    v.push(82);
    v.push(101);
    v.push(116);
    v.push(32);
    v.push(104);
    v.push(114);
    v.push(101);
    v.push(102);
    v.push(61);
    v.push(34);
    v.push(35);
    v.push(114);
    v.push(101);
    v.push(102);
    proof {
        assert(v@ =~= lit_ret_open());
    }
    v
}

pub open spec fn lit_ret_close() -> Seq<u8> {
    seq![34u8, 32u8, 47u8, 62u8, 60u8, 47u8, 108u8, 105u8, 62u8]
}

fn lit_ret_close_x() -> (v: Vec<u8>)
    ensures
        v@ == lit_ret_close(),
{
    let mut v: Vec<u8> = Vec::new();
    v.push(34);
    v.push(32);
    v.push(47);
    v.push(62);
    v.push(60);
    v.push(47);
    v.push(108);
    v.push(105);
    v.push(62);
    proof {
        assert(v@ =~= lit_ret_close());
    }
    v
}

pub open spec fn lit_bq_open() -> Seq<u8> {
    seq![60u8, 98u8, 108u8, 111u8, 99u8, 107u8, 113u8, 117u8, 111u8, 116u8, 101u8, 62u8]
}

fn lit_bq_open_x() -> (v: Vec<u8>)
    ensures
        v@ == lit_bq_open(),
{
    let mut v: Vec<u8> = Vec::new();
    v.push(60);
    v.push(98);
    v.push(108);
    v.push(111);
    v.push(99);
    v.push(107);
    v.push(113);
    v.push(117);
    v.push(111);
    v.push(116);
    v.push(101);
    v.push(62);
    proof {
        assert(v@ =~= lit_bq_open());
    }
    v
}

pub open spec fn lit_bq_close() -> Seq<u8> {
    seq![60u8, 47u8, 98u8, 108u8, 111u8, 99u8, 107u8, 113u8, 117u8, 111u8, 116u8, 101u8, 62u8]
}

fn lit_bq_close_x() -> (v: Vec<u8>)
    ensures
        v@ == lit_bq_close(),
{
    let mut v: Vec<u8> = Vec::new();
    v.push(60);
    v.push(47);
    v.push(98);
    v.push(108);
    v.push(111);
    v.push(99);
    v.push(107);
    v.push(113);
    v.push(117);
    v.push(111);
    v.push(116);
    v.push(101);
    v.push(62);
    proof {
        assert(v@ =~= lit_bq_close());
    }
    v
}

pub open spec fn lit_div_open() -> Seq<u8> {
    seq![60u8, 100u8, 105u8, 118u8, 32u8, 99u8, 108u8, 97u8, 115u8, 115u8, 61u8, 34u8, 99u8, 111u8, 100u8, 101u8, 98u8, 108u8, 111u8, 99u8, 107u8, 34u8, 62u8]
}

fn lit_div_open_x() -> (v: Vec<u8>)
    ensures
        v@ == lit_div_open(),
{
    let mut v: Vec<u8> = Vec::new();
    v.push(60);
    v.push(100);
    v.push(105);
    v.push(118);
    v.push(32);
    v.push(99);
    v.push(108);
    v.push(97);
    v.push(115);
    v.push(115);
    v.push(61);
    v.push(34);
    v.push(99);
    v.push(111);
    v.push(100);
    v.push(101);
    v.push(98);
    v.push(108);
    v.push(111);
    v.push(99);
    v.push(107);
    v.push(34);
    v.push(62);
    proof {
        assert(v@ =~= lit_div_open());
    }
    v
}

pub open spec fn lit_div_close() -> Seq<u8> {
    seq![60u8, 47u8, 100u8, 105u8, 118u8, 62u8]
}

fn lit_div_close_x() -> (v: Vec<u8>)
    ensures
        v@ == lit_div_close(),
{
    let mut v: Vec<u8> = Vec::new();
    v.push(60);
    v.push(47);
    v.push(100);
    v.push(105);
    v.push(118);
    v.push(62);
    proof {
        assert(v@ =~= lit_div_close());
    }
    v
}

pub open spec fn lit_code_open() -> Seq<u8> {
    seq![60u8, 99u8, 111u8, 100u8, 101u8, 62u8]
}

fn lit_code_open_x() -> (v: Vec<u8>)
    ensures
        v@ == lit_code_open(),
{
    let mut v: Vec<u8> = Vec::new();
    v.push(60);
    v.push(99);
    v.push(111);
    v.push(100);
    v.push(101);
    v.push(62);
    proof {
        assert(v@ =~= lit_code_open());
    }
    v
}

pub open spec fn lit_code_close() -> Seq<u8> {
    seq![60u8, 47u8, 99u8, 111u8, 100u8, 101u8, 62u8]
}

fn lit_code_close_x() -> (v: Vec<u8>)
    ensures
        v@ == lit_code_close(),
{
    let mut v: Vec<u8> = Vec::new();
    v.push(60);
    v.push(47);
    v.push(99);
    v.push(111);
    v.push(100);
    v.push(101);
    v.push(62);
    proof {
        assert(v@ =~= lit_code_close());
    }
    v
}

pub open spec fn lit_ref_open() -> Seq<u8> {
    seq![60u8, 70u8, 111u8, 111u8, 116u8, 110u8, 111u8, 116u8, 101u8, 82u8, 101u8, 102u8, 32u8, 104u8, 114u8, 101u8, 102u8, 61u8, 34u8, 35u8, 102u8, 110u8]
}

fn lit_ref_open_x() -> (v: Vec<u8>)
    ensures
        v@ == lit_ref_open(),
{
    let mut v: Vec<u8> = Vec::new();
    v.push(60);
    v.push(70);
    v.push(111);
    v.push(111);
    v.push(116);
    v.push(110);
    v.push(111);
    v.push(116);
    v.push(101);
    v.push(82);
    v.push(101);
    v.push(102);
    v.push(32);
    v.push(104);
    v.push(114);
    v.push(101);
    v.push(102);
    v.push(61);
    v.push(34);
    v.push(35);
    v.push(102);
    v.push(110);
    proof {
        assert(v@ =~= lit_ref_open());
    }
    v
}

pub open spec fn lit_ref_mid() -> Seq<u8> {
    seq![34u8, 32u8, 105u8, 100u8, 61u8, 34u8, 114u8, 101u8, 102u8]
}

fn lit_ref_mid_x() -> (v: Vec<u8>)
    ensures
        v@ == lit_ref_mid(),
{
    let mut v: Vec<u8> = Vec::new();
    v.push(34);
    v.push(32);
    v.push(105);
    v.push(100);
    v.push(61);
    v.push(34);
    v.push(114);
    v.push(101);
    v.push(102);
    proof {
        assert(v@ =~= lit_ref_mid());
    }
    v
}

pub open spec fn lit_ref_close() -> Seq<u8> {
    seq![60u8, 47u8, 70u8, 111u8, 111u8, 116u8, 110u8, 111u8, 116u8, 101u8, 82u8, 101u8, 102u8, 62u8]
}

fn lit_ref_close_x() -> (v: Vec<u8>)
    ensures
        v@ == lit_ref_close(),
{
    let mut v: Vec<u8> = Vec::new();
    v.push(60);
    v.push(47);
    v.push(70);
    v.push(111);
    v.push(111);
    v.push(116);
    v.push(110);
    v.push(111);
    v.push(116);
    v.push(101);
    v.push(82);
    v.push(101);
    v.push(102);
    v.push(62);
    proof {
        assert(v@ =~= lit_ref_close());
    }
    v
}

pub open spec fn lit_foots_open() -> Seq<u8> {
    seq![60u8, 70u8, 111u8, 111u8, 116u8, 110u8, 111u8, 116u8, 101u8, 115u8, 62u8]
}

fn lit_foots_open_x() -> (v: Vec<u8>)
    ensures
        v@ == lit_foots_open(),
{
    let mut v: Vec<u8> = Vec::new();
    v.push(60);
    v.push(70);
    v.push(111);
    v.push(111);
    v.push(116);
    v.push(110);
    v.push(111);
    v.push(116);
    v.push(101);
    v.push(115);
    v.push(62);
    proof {
        assert(v@ =~= lit_foots_open());
    }
    v
}

pub open spec fn lit_foots_close() -> Seq<u8> {
    seq![60u8, 47u8, 70u8, 111u8, 111u8, 116u8, 110u8, 111u8, 116u8, 101u8, 115u8, 62u8]
}

fn lit_foots_close_x() -> (v: Vec<u8>)
    ensures
        v@ == lit_foots_close(),
{
    let mut v: Vec<u8> = Vec::new();
    v.push(60);
    v.push(47);
    v.push(70);
    v.push(111);
    v.push(111);
    v.push(116);
    v.push(110);
    v.push(111);
    v.push(116);
    v.push(101);
    v.push(115);
    v.push(62);
    proof {
        assert(v@ =~= lit_foots_close());
    }
    v
}

pub open spec fn lit_h_open() -> Seq<u8> {
    seq![60u8, 104u8]
}

fn lit_h_open_x() -> (v: Vec<u8>)
    ensures
        v@ == lit_h_open(),
{
    let mut v: Vec<u8> = Vec::new();
    v.push(60);
    v.push(104);
    proof {
        assert(v@ =~= lit_h_open());
    }
    v
}

pub open spec fn lit_h_close() -> Seq<u8> {
    seq![60u8, 47u8, 104u8]
}

fn lit_h_close_x() -> (v: Vec<u8>)
    ensures
        v@ == lit_h_close(),
{
    let mut v: Vec<u8> = Vec::new();
    v.push(60);
    v.push(47);
    v.push(104);
    proof {
        assert(v@ =~= lit_h_close());
    }
    v
}

pub open spec fn lit_gt() -> Seq<u8> {
    seq![62u8]
}

fn lit_gt_x() -> (v: Vec<u8>)
    ensures
        v@ == lit_gt(),
{
    let mut v: Vec<u8> = Vec::new();
    v.push(62);
    proof {
        assert(v@ =~= lit_gt());
    }
    v
}


/// What one event does to the writer: which bytes it appends to which
/// buffer, what block capture it opens or closes, and when it fails (a YAML
/// metadata block that does not deserialize).
pub open spec fn w_step(w: WV, e: MdEventV) -> Option<WV> {
    match e {
        MdEventV::MetaStart(y) => Some(
            if y {
                WV { capture: Some(CapV::Yaml(Seq::empty())), ..w }
            } else {
                w
            },
        ),
        MdEventV::ParagraphStart => Some(wsel(w, lit_p_open())),
        MdEventV::ParagraphEnd => Some(wsel(w, lit_p_close())),
        MdEventV::EmphasisStart => Some(wsel(w, lit_em_open())),
        MdEventV::EmphasisEnd => Some(wsel(w, lit_em_close())),
        MdEventV::StrongStart => Some(wsel(w, lit_strong_open())),
        MdEventV::StrongEnd => Some(wsel(w, lit_strong_close())),
        MdEventV::StrikeStart => Some(wsel(w, lit_del_open())),
        MdEventV::StrikeEnd => Some(wsel(w, lit_del_close())),
        MdEventV::LinkStart(u) => Some(wsel(w, lit_link_open() + u + lit_quot_gt())),
        MdEventV::LinkEnd => Some(wsel(w, lit_link_close())),
        MdEventV::HeadingStart(l) => Some(wsel(w, lit_h_open() + digits_u8(l) + lit_gt())),
        MdEventV::HeadingEnd(l) => Some(wsel(w, lit_h_close() + digits_u8(l) + lit_gt())),
        MdEventV::FootnoteStart(l) => {
            let w2 = WV { state: State::Footnote, fdef: Some(l), ..w };
            Some(wsel(w2, lit_li_open() + l + lit_quot_gt()))
        },
        MdEventV::FootnoteEnd => {
            let label = match w.fdef {
                Some(l) => l,
                None => seq![63u8],
            };
            let w2 = wsel(w, lit_ret_open() + label + lit_ret_close());
            Some(WV { state: State::Normal, fdef: None, ..w2 })
        },
        MdEventV::CodeStart(olang) => match olang {
            Some(l) => if l.len() > 0 && lang_known(l) {
                Some(WV { capture: Some(CapV::Named(l, Seq::empty())), ..w })
            } else {
                Some(WV { capture: Some(CapV::Unnamed), ..wsel(w, lit_bq_open()) })
            },
            None => Some(WV { capture: Some(CapV::Unnamed), ..wsel(w, lit_bq_open()) }),
        },
        MdEventV::CodeEnd => {
            let w2 = WV { capture: None, ..w };
            match w.capture {
                Some(CapV::Named(l, c)) => match highlight_of(c, l) {
                    Some(h) => Some(wsel(w2, lit_div_open() + h + lit_div_close())),
                    None => Some(wsel(w2, lit_bq_open() + html_encoded(c) + lit_bq_close())),
                },
                Some(CapV::Unnamed) => Some(wsel(w2, lit_bq_close())),
                _ => Some(w2),
            }
        },
        MdEventV::HtmlStart => Some(WV { capture: Some(CapV::Html), ..w }),
        MdEventV::HtmlEnd => Some(WV { capture: None, ..w }),
        MdEventV::MetaEnd(y) => {
            let w2 = WV { capture: None, ..w };
            match w.capture {
                Some(CapV::Yaml(b)) => if y {
                    match frontmatter_of(b) {
                        Some(f) => Some(
                            WV {
                                frontmatter: Some(
                                    FmV { title: f.0, date: f.1, description: f.2 },
                                ),
                                ..w2
                            },
                        ),
                        None => None,
                    }
                } else {
                    Some(w2)
                },
                _ => Some(w2),
            }
        },
        MdEventV::Text(t) => match w.capture {
            Some(CapV::Named(l, c)) => Some(WV { capture: Some(CapV::Named(l, c + t)), ..w }),
            Some(CapV::Yaml(b)) => Some(WV { capture: Some(CapV::Yaml(b + t)), ..w }),
            Some(CapV::Html) => Some(wsel(w, t)),
            _ => Some(wsel(w, html_encoded(t))),
        },
        MdEventV::FootnoteRef(l) => Some(
            wsel(
                w,
                lit_ref_open() + l + lit_ref_mid() + l + lit_quot_gt() + l + lit_ref_close(),
            ),
        ),
        MdEventV::Html(h) => Some(wsel(w, h)),
        MdEventV::InlineCode(c) => Some(wsel(w, lit_code_open() + c + lit_code_close())),
        MdEventV::InlineMath(m) => Some(wsel(w, lit_code_open() + m + lit_code_close())),
        MdEventV::SoftBreak => Some(wsel(w, seq![10u8])),
        MdEventV::DisplayMath(m) => Some(wsel(w, lit_bq_open() + m + lit_bq_close())),
        MdEventV::Other => Some(w),
    }
}

/// Folding a whole event stream, from `i` on.
pub open spec fn w_fold(w: WV, evs: Seq<MdEventV>, i: int) -> Option<WV>
    decreases evs.len() - i,
{
    if i < 0 || i >= evs.len() {
        Some(w)
    } else {
        match w_step(w, evs[i]) {
            Some(w2) => w_fold(w2, evs, i + 1),
            None => None,
        }
    }
}

/// The writer's starting state.
pub open spec fn w_init() -> WV {
    WV {
        state: State::Normal,
        output: Seq::empty(),
        footnotes: Seq::empty(),
        capture: None,
        fdef: None,
        frontmatter: None,
    }
}

/// The finished document: the main stream, then all deferred footnote
/// definitions at the very end under one wrapper (and nothing when there are
/// none).
pub open spec fn w_final(w: WV) -> Seq<u8> {
    if w.footnotes.len() > 0 {
        w.output + lit_foots_open() + w.footnotes + lit_foots_close()
    } else {
        w.output
    }
}

impl Writer {
    /// Append `bytes` to the buffer the state selects.
    fn push_buf(&mut self, bytes: &Vec<u8>)
        ensures
            w_view(*final(self)) == wsel(w_view(*old(self)), bytes@),
    {
        match self.state {
            State::Normal => {
                append_bytes(&mut self.output, bytes);
                proof {
                    assert(w_view(*self) =~~= wsel(w_view(*old(self)), bytes@));
                }
            },
            State::Footnote => {
                append_bytes(&mut self.footnotes, bytes);
                proof {
                    assert(w_view(*self) =~~= wsel(w_view(*old(self)), bytes@));
                }
            },
        }
    }

    /// Apply one event.
    fn apply(&mut self, e: &MdEvent) -> (r: Result<(), SimpleError>)
        ensures
            match r {
                Ok(_) => w_step(w_view(*old(self)), md_view(*e)) == Some(w_view(*final(self))),
                Err(_) => w_step(w_view(*old(self)), md_view(*e)) is None,
            },
    {
        match e {
            MdEvent::MetaStart(y) => {
                if *y {
                    self.capture = Some(Capture::Yaml(Vec::new()));
                    proof {
                        assert(w_step(w_view(*old(self)), md_view(*e)) matches Some(v) && v =~~=
                            w_view(*self));
                    }
                }
                Ok(())
            },
            MdEvent::ParagraphStart => {
                let b = lit_p_open_x();
                self.push_buf(&b);
                Ok(())
            },
            MdEvent::ParagraphEnd => {
                let b = lit_p_close_x();
                self.push_buf(&b);
                Ok(())
            },
            MdEvent::EmphasisStart => {
                let b = lit_em_open_x();
                self.push_buf(&b);
                Ok(())
            },
            MdEvent::EmphasisEnd => {
                let b = lit_em_close_x();
                self.push_buf(&b);
                Ok(())
            },
            MdEvent::StrongStart => {
                let b = lit_strong_open_x();
                self.push_buf(&b);
                Ok(())
            },
            MdEvent::StrongEnd => {
                let b = lit_strong_close_x();
                self.push_buf(&b);
                Ok(())
            },
            MdEvent::StrikeStart => {
                let b = lit_del_open_x();
                self.push_buf(&b);
                Ok(())
            },
            MdEvent::StrikeEnd => {
                let b = lit_del_close_x();
                self.push_buf(&b);
                Ok(())
            },
            MdEvent::LinkStart(u) => {
                let mut b = lit_link_open_x();
                append_bytes(&mut b, u);
                let t = lit_quot_gt_x();
                append_bytes(&mut b, &t);
                proof {
                    assert(b@ =~= lit_link_open() + u@ + lit_quot_gt());
                }
                self.push_buf(&b);
                Ok(())
            },
            MdEvent::LinkEnd => {
                let b = lit_link_close_x();
                self.push_buf(&b);
                Ok(())
            },
            MdEvent::HeadingStart(l) => {
                let mut b = lit_h_open_x();
                push_digits_u8(*l, &mut b);
                b.push(62);
                proof {
                    assert(b@ =~= lit_h_open() + digits_u8(*l) + lit_gt());
                }
                self.push_buf(&b);
                Ok(())
            },
            MdEvent::HeadingEnd(l) => {
                let mut b = lit_h_close_x();
                push_digits_u8(*l, &mut b);
                b.push(62);
                proof {
                    assert(b@ =~= lit_h_close() + digits_u8(*l) + lit_gt());
                }
                self.push_buf(&b);
                Ok(())
            },
            MdEvent::FootnoteStart(l) => {
                self.state = State::Footnote;
                self.footnote_def = Some(clone_bytes(l));
                let mut b = lit_li_open_x();
                append_bytes(&mut b, l);
                let t = lit_quot_gt_x();
                append_bytes(&mut b, &t);
                proof {
                    assert(b@ =~= lit_li_open() + l@ + lit_quot_gt());
                }
                self.push_buf(&b);
                proof {
                    assert(w_step(w_view(*old(self)), md_view(*e)) matches Some(v) && v =~~= w_view(
                        *self,
                    ));
                }
                Ok(())
            },
            MdEvent::FootnoteEnd => {
                let label = match self.footnote_def.take() {
                    Some(l) => l,
                    None => {
                        let mut q: Vec<u8> = Vec::new();
                        q.push(63);
                        proof {
                            assert(q@ =~= seq![63u8]);
                        }
                        q
                    },
                };
                let mut b = lit_ret_open_x();
                append_bytes(&mut b, &label);
                let t = lit_ret_close_x();
                append_bytes(&mut b, &t);
                self.push_buf(&b);
                self.state = State::Normal;
                proof {
                    assert(w_step(w_view(*old(self)), md_view(*e)) matches Some(v) && v =~~= w_view(
                        *self,
                    ));
                }
                Ok(())
            },
            MdEvent::CodeStart(olang) => {
                match olang {
                    Some(l) => {
                        if l.len() > 0 && syntax_known(l) {
                            self.capture = Some(Capture::Named(clone_bytes(l), Vec::new()));
                            proof {
                                assert(w_step(w_view(*old(self)), md_view(*e)) matches Some(v) && v
                                    =~~= w_view(*self));
                            }
                        } else {
                            let b = lit_bq_open_x();
                            self.push_buf(&b);
                            self.capture = Some(Capture::Unnamed);
                            proof {
                                assert(w_step(w_view(*old(self)), md_view(*e)) matches Some(v) && v
                                    =~~= w_view(*self));
                            }
                        }
                    },
                    None => {
                        let b = lit_bq_open_x();
                        self.push_buf(&b);
                        self.capture = Some(Capture::Unnamed);
                        proof {
                            assert(w_step(w_view(*old(self)), md_view(*e)) matches Some(v) && v
                                =~~= w_view(*self));
                        }
                    },
                }
                Ok(())
            },
            MdEvent::CodeEnd => {
                match self.capture.take() {
                    Some(Capture::Named(l, c)) => {
                        match crate::visitor::highlight(&c, &l) {
                            Some(h) => {
                                let mut b = lit_div_open_x();
                                append_bytes(&mut b, &h);
                                let t = lit_div_close_x();
                                append_bytes(&mut b, &t);
                                self.push_buf(&b);
                            },
                            None => {
                                let mut b = lit_bq_open_x();
                                html_encode(&c, &mut b);
                                let t = lit_bq_close_x();
                                append_bytes(&mut b, &t);
                                self.push_buf(&b);
                            },
                        }
                        proof {
                            assert(w_step(w_view(*old(self)), md_view(*e)) matches Some(v) && v
                                =~~= w_view(*self));
                        }
                    },
                    Some(Capture::Unnamed) => {
                        let b = lit_bq_close_x();
                        self.push_buf(&b);
                        proof {
                            assert(w_step(w_view(*old(self)), md_view(*e)) matches Some(v) && v
                                =~~= w_view(*self));
                        }
                    },
                    _ => {
                        proof {
                            assert(w_step(w_view(*old(self)), md_view(*e)) matches Some(v) && v
                                =~~= w_view(*self));
                        }
                    },
                }
                Ok(())
            },
            MdEvent::HtmlStart => {
                self.capture = Some(Capture::Html);
                proof {
                    assert(w_step(w_view(*old(self)), md_view(*e)) matches Some(v) && v =~~= w_view(
                        *self,
                    ));
                }
                Ok(())
            },
            MdEvent::HtmlEnd => {
                self.capture = None;
                proof {
                    assert(w_step(w_view(*old(self)), md_view(*e)) matches Some(v) && v =~~= w_view(
                        *self,
                    ));
                }
                Ok(())
            },
            MdEvent::MetaEnd(y) => {
                match self.capture.take() {
                    Some(Capture::Yaml(b)) => {
                        if *y {
                            match crate::visitor::parse_frontmatter(&b) {
                                Some(f) => {
                                    self.frontmatter = Some(
                                        Frontmatter {
                                            title: f.0,
                                            date: f.1,
                                            description: f.2,
                                        },
                                    );
                                    proof {
                                        assert(w_step(w_view(*old(self)), md_view(*e)) matches Some(
                                            v,
                                        ) && v =~~= w_view(*self));
                                    }
                                    Ok(())
                                },
                                None => Err(SimpleError),
                            }
                        } else {
                            proof {
                                assert(w_step(w_view(*old(self)), md_view(*e)) matches Some(v) && v
                                    =~~= w_view(*self));
                            }
                            Ok(())
                        }
                    },
                    _ => {
                        proof {
                            assert(w_step(w_view(*old(self)), md_view(*e)) matches Some(v) && v
                                =~~= w_view(*self));
                        }
                        Ok(())
                    },
                }
            },
            MdEvent::Text(t) => {
                match self.capture.take() {
                    Some(Capture::Named(l, mut c)) => {
                        append_bytes(&mut c, t);
                        self.capture = Some(Capture::Named(l, c));
                        proof {
                            assert(w_step(w_view(*old(self)), md_view(*e)) matches Some(v) && v
                                =~~= w_view(*self));
                        }
                    },
                    Some(Capture::Yaml(mut b)) => {
                        append_bytes(&mut b, t);
                        self.capture = Some(Capture::Yaml(b));
                        proof {
                            assert(w_step(w_view(*old(self)), md_view(*e)) matches Some(v) && v
                                =~~= w_view(*self));
                        }
                    },
                    Some(Capture::Html) => {
                        self.capture = Some(Capture::Html);
                        self.push_buf(t);
                        proof {
                            assert(w_step(w_view(*old(self)), md_view(*e)) matches Some(v) && v
                                =~~= w_view(*self));
                        }
                    },
                    Some(Capture::Unnamed) => {
                        self.capture = Some(Capture::Unnamed);
                        let mut b: Vec<u8> = Vec::new();
                        html_encode(t, &mut b);
                        proof {
                            assert(b@ =~= html_encoded(t@));
                        }
                        self.push_buf(&b);
                        proof {
                            assert(w_step(w_view(*old(self)), md_view(*e)) matches Some(v) && v
                                =~~= w_view(*self));
                        }
                    },
                    None => {
                        let mut b: Vec<u8> = Vec::new();
                        html_encode(t, &mut b);
                        proof {
                            assert(b@ =~= html_encoded(t@));
                        }
                        self.push_buf(&b);
                        proof {
                            assert(w_step(w_view(*old(self)), md_view(*e)) matches Some(v) && v
                                =~~= w_view(*self));
                        }
                    },
                }
                Ok(())
            },
            MdEvent::FootnoteRef(l) => {
                let mut b = lit_ref_open_x();
                append_bytes(&mut b, l);
                let m1 = lit_ref_mid_x();
                append_bytes(&mut b, &m1);
                append_bytes(&mut b, l);
                let m2 = lit_quot_gt_x();
                append_bytes(&mut b, &m2);
                append_bytes(&mut b, l);
                let t = lit_ref_close_x();
                append_bytes(&mut b, &t);
                proof {
                    assert(b@ =~= lit_ref_open() + l@ + lit_ref_mid() + l@ + lit_quot_gt() + l@
                        + lit_ref_close());
                }
                self.push_buf(&b);
                Ok(())
            },
            MdEvent::Html(h) => {
                self.push_buf(h);
                Ok(())
            },
            MdEvent::InlineCode(c) => {
                let mut b = lit_code_open_x();
                append_bytes(&mut b, c);
                let t = lit_code_close_x();
                append_bytes(&mut b, &t);
                proof {
                    assert(b@ =~= lit_code_open() + c@ + lit_code_close());
                }
                self.push_buf(&b);
                Ok(())
            },
            MdEvent::InlineMath(m) => {
                let mut b = lit_code_open_x();
                append_bytes(&mut b, m);
                let t = lit_code_close_x();
                append_bytes(&mut b, &t);
                proof {
                    assert(b@ =~= lit_code_open() + m@ + lit_code_close());
                }
                self.push_buf(&b);
                Ok(())
            },
            MdEvent::SoftBreak => {
                let mut b: Vec<u8> = Vec::new();
                b.push(10);
                proof {
                    assert(b@ =~= seq![10u8]);
                }
                self.push_buf(&b);
                Ok(())
            },
            MdEvent::DisplayMath(m) => {
                let mut b = lit_bq_open_x();
                append_bytes(&mut b, m);
                let t = lit_bq_close_x();
                append_bytes(&mut b, &t);
                proof {
                    assert(b@ =~= lit_bq_open() + m@ + lit_bq_close());
                }
                self.push_buf(&b);
                Ok(())
            },
            MdEvent::Other => Ok(()),
        }
    }

    /// Fold a whole event stream into the writer.
    pub fn parse(&mut self, events: &Vec<MdEvent>) -> (r: Result<(), SimpleError>)
        ensures
            match r {
                Ok(_) => w_fold(w_view(*old(self)), mds_view(events@), 0) == Some(
                    w_view(*final(self)),
                ),
                Err(_) => w_fold(w_view(*old(self)), mds_view(events@), 0) is None,
            },
    {
        let ghost evsv = mds_view(events@);
        proof {
            lemma_mds_view_len(events@);
        }
        let mut k: usize = 0;
        while k < events.len()
            invariant
                k <= events@.len(),
                evsv == mds_view(events@),
                evsv.len() == events@.len(),
                w_fold(w_view(*old(self)), evsv, 0) == w_fold(w_view(*self), evsv, k as int),
            decreases events@.len() - k,
        {
            proof {
                lemma_mds_view_index(events@, k as int);
            }
            match self.apply(&events[k]) {
                Ok(_) => {},
                Err(e) => {
                    return Err(e);
                },
            }
            k = k + 1;
        }
        Ok(())
    }

    /// Compile a markdown document: parse it with the outside CommonMark
    /// parser and fold the events. The only failure is a YAML metadata block
    /// that does not deserialize; then no output is produced at all.
    pub fn new(input: &str) -> (r: Result<Writer, SimpleError>)
        ensures
            match r {
                Ok(w) => w_fold(w_init(), md_events_of(input@), 0) == Some(w_view(w)),
                Err(_) => w_fold(w_init(), md_events_of(input@), 0) is None,
            },
    {
        let events = md_events(input);
        let mut w = Writer {
            state: State::Normal,
            output: Vec::new(),
            footnotes: Vec::new(),
            capture: None,
            footnote_def: None,
            frontmatter: None,
        };
        proof {
            assert(w_view(w) =~~= w_init());
        }
        match w.parse(&events) {
            Ok(_) => Ok(w),
            Err(e) => Err(e),
        }
    }

    /// The finished document: main output, then the deferred footnote
    /// definitions, if any, wrapped once.
    pub fn output(self) -> (r: Vec<u8>)
        ensures
            r@ == w_final(w_view(self)),
    {
        let mut out = self.output;
        if self.footnotes.len() > 0 {
            let o = lit_foots_open_x();
            append_bytes(&mut out, &o);
            append_bytes(&mut out, &self.footnotes);
            let c = lit_foots_close_x();
            append_bytes(&mut out, &c);
        }
        out
    }
}

} // verus!
