//! Whole-input parsing: a document is a list of top-level nodes, a component
//! is a single root element standing for a reusable template.

use vstd::prelude::*;

use crate::element::Element;
use crate::element::Node;
use crate::element::nodes_view;
use crate::element::ser_nodes;
use crate::element::write_nodes;
use crate::parse::ParseError;
use crate::parse::Parsed;
use crate::parse::skip_ws_x;
use crate::parse::sp_component;
use crate::parse::sp_document;

verus! {

broadcast use vstd::std_specs::vec::group_vec_axioms, vstd::seq::group_seq_axioms;

/// A parsed markup document: its top-level nodes in order.
pub struct Document {
    pub nodes: Vec<Node>,
}

/// A parsed component definition: a single root element whose attributes
/// declare the component's formal parameters.
pub struct Component {
    pub root: Element,
}

impl Component {
    /// Parse a component source: optional whitespace, one element, optional
    /// whitespace. Anything else is an error.
    pub fn new(source: &Vec<u8>) -> (r: Result<Component, ParseError>)
        ensures
            match r {
                Ok(c) => sp_component(source@) == Some(c.root@),
                Err(e) => sp_component(source@) is None && e.offset <= source@.len(),
            },
    {
        let j = skip_ws_x(source, 0);
        match crate::parse::element(source, j) {
            Parsed::Val(root, k) => {
                let m = skip_ws_x(source, k);
                if m == source.len() {
                    Ok(Component { root })
                } else {
                    Err(ParseError { offset: m, expected: String::from_str("end of input") })
                }
            },
            Parsed::Back => Err(
                ParseError { offset: j, expected: String::from_str("element") },
            ),
            Parsed::Fail(e) => Err(e),
        }
    }
}

/// The fixed prefix written before a serialized document.
pub open spec fn doctype() -> Seq<u8> {
    seq![60u8, 33u8, 68u8, 79u8, 67u8, 84u8, 89u8, 80u8, 69u8, 32u8, 104u8, 116u8, 109u8, 108u8, 62u8]
}

impl Document {
    /// Parse a document: top-level nodes, then optional whitespace, then the
    /// end of input. Anything else is an error.
    pub fn new(source: &Vec<u8>) -> (r: Result<Document, ParseError>)
        ensures
            match r {
                Ok(d) => sp_document(source@) == Some(nodes_view(d.nodes@)),
                Err(e) => sp_document(source@) is None && e.offset <= source@.len(),
            },
    {
        match crate::parse::nodes(source, 0) {
            Parsed::Val(nodes, k) => {
                let m = skip_ws_x(source, k);
                if m == source.len() {
                    Ok(Document { nodes })
                } else {
                    Err(ParseError { offset: m, expected: String::from_str("end of input") })
                }
            },
            Parsed::Back => Err(
                ParseError { offset: 0, expected: String::from_str("tag or text") },
            ),
            Parsed::Fail(e) => Err(e),
        }
    }

    /// Append the serialized document to `out`: the doctype prefix, then
    /// every node in order.
    pub fn write(&self, out: &mut Vec<u8>)
        ensures
            final(out)@ == old(out)@ + doctype() + ser_nodes(nodes_view(self.nodes@)),
    {
        out.push(60);
        out.push(33);
        out.push(68);
        out.push(79);
        out.push(67);
        out.push(84);
        out.push(89);
        out.push(80);
        out.push(69);
        out.push(32);
        out.push(104);
        out.push(116);
        out.push(109);
        out.push(108);
        out.push(62);
        proof {
            assert(out@ =~= old(out)@ + doctype());
        }
        write_nodes(&self.nodes, out);
    }
}

} // verus!
