//! Markup and markdown processing for a component-based site generator.
//!
//! The crate has two independent paths. Markup text is parsed into a node
//! tree (`parse`), custom elements in that tree are expanded against a table
//! of component templates (`expand`), and the result is serialized back to
//! markup (`element`, `document`). Markdown is compiled to markup either by
//! a recursive-descent parser that builds a tree (`mdast`, with an
//! arena-backed variant in `arena`), or by a single-pass streaming visitor
//! (`visitor`); a further variant (`pull`) folds the event stream of an
//! outside CommonMark parser into markup.
//!
//! The grammars are stated as specification-level functions and the
//! executable parsers are proved equal to them; `roundtrip` proves that
//! serializing a well-formed parsed markup tree and re-parsing it yields the
//! original tree, and `expand` proves that its rewriting reaches a fixed
//! point that holds no further resolvable component reference.

pub mod arena;
pub mod document;
pub mod element;
pub mod expand;
pub mod mdast;
pub mod parse;
pub mod pull;
pub mod roundtrip;
pub mod text;
pub mod visitor;
