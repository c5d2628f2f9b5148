//! The traversal driver: walks a parsed tree in document order, finds the
//! reformattable `class` attribute values, copies everything else through
//! verbatim, and invokes the wrapping engine with positional context.

use vstd::prelude::*;

use crate::instructions::{tokens_of, InstrV, Instruction};
use crate::position::{spec_column_number, spec_line_number};
use crate::tw_wrapper::{spec_format, spec_indent_value, TailwindWrapper, TailwindWrapperOption};

verus! {

/// The value of one attribute, as far as the traversal reads it. Spans are
/// half-open byte ranges into the source text and include the quotes.
pub enum AttrValue {
    /// A bare quoted string literal.
    StringLiteral { span_start: usize, span_end: usize },
    /// A brace-delimited expression container wrapping a string literal;
    /// the span covers the literal inside the braces.
    ExpressionString { span_start: usize, span_end: usize },
    /// Any other shape (no value, numeric, boolean, non-string expression):
    /// left entirely alone.
    Other,
}

/// One attribute of an element.
pub struct JsxAttr {
    /// The attribute's name, as raw bytes.
    pub name: Vec<u8>,
    /// Byte offset where the name starts.
    pub name_span_start: usize,
    pub value: AttrValue,
}

/// A node of the parsed tree, reduced to what the traversal reads.
pub enum JsxNode {
    /// An opening markup element with its attributes and children.
    Element { span_start: usize, attributes: Vec<JsxAttr>, children: Vec<JsxNode> },
    /// Any other node: passes through as ordinary text.
    Other,
}

/// One reformattable site found by the traversal, together with the
/// positional context current when it was found.
#[derive(Clone, Copy, Debug, PartialEq, Eq, Structural)]
pub struct Site {
    /// Start offset of the most recently visited opening element.
    pub elem_start: usize,
    /// Start offset of the attribute name.
    pub name_start: usize,
    /// Start offset of the attribute value (its opening quote).
    pub value_start: usize,
    /// End offset of the attribute value (past its closing quote).
    pub value_end: usize,
    /// Whether the value sits inside a brace-delimited expression container.
    pub in_expression: bool,
}

/// The attribute name the traversal matches, letter for letter.
pub open spec fn is_class_name(name: Seq<u8>) -> bool {
    name == seq![99u8, 108u8, 97u8, 115u8, 115u8]
}

fn is_class(name: &Vec<u8>) -> (r: bool)
    ensures
        r == is_class_name(name@),
{
    if name.len() == 5 && name[0] == 99 && name[1] == 108 && name[2] == 97 && name[3] == 115
        && name[4] == 115 {
        proof {
            assert(name@ =~= seq![99u8, 108u8, 97u8, 115u8, 115u8]);
        }
        true
    } else {
        proof {
            if name@ == seq![99u8, 108u8, 97u8, 115u8, 115u8] {
                assert(name@.len() == 5);
                assert(name@[0] == 99u8 && name@[1] == 108u8 && name@[2] == 97u8 && name@[3]
                    == 115u8 && name@[4] == 115u8);
            }
        }
        false
    }
}

/// The sites contributed by the attributes of one element, from index `i` on.
pub open spec fn spec_attr_sites(attrs: Seq<JsxAttr>, elem_start: usize, i: int) -> Seq<Site>
    decreases attrs.len() - i,
{
    if i < 0 || i >= attrs.len() {
        Seq::empty()
    } else {
        let rest = spec_attr_sites(attrs, elem_start, i + 1);
        if is_class_name(attrs[i].name@) {
            match attrs[i].value {
                AttrValue::StringLiteral { span_start, span_end } => seq![
                    Site {
                        elem_start,
                        name_start: attrs[i].name_span_start,
                        value_start: span_start,
                        value_end: span_end,
                        in_expression: false,
                    },
                ] + rest,
                AttrValue::ExpressionString { span_start, span_end } => seq![
                    Site {
                        elem_start,
                        name_start: attrs[i].name_span_start,
                        value_start: span_start,
                        value_end: span_end,
                        in_expression: true,
                    },
                ] + rest,
                AttrValue::Other => rest,
            }
        } else {
            rest
        }
    }
}

/// What one walk over a node list yields: the sites, in document order, and
/// the start offset of the last opening element visited (the context is
/// simply overwritten on each new opening element, never reset).
pub struct WalkOut {
    pub sites: Seq<Site>,
    pub last_elem: usize,
}

pub open spec fn spec_walk_nodes(nodes: Seq<JsxNode>, i: int, elem: usize) -> WalkOut
    decreases nodes, nodes.len() - i, 1int,
{
    if i < 0 || i >= nodes.len() {
        WalkOut { sites: Seq::empty(), last_elem: elem }
    } else {
        let first = spec_walk_node(nodes[i], elem);
        let rest = spec_walk_nodes(nodes, i + 1, first.last_elem);
        WalkOut { sites: first.sites + rest.sites, last_elem: rest.last_elem }
    }
}

pub open spec fn spec_walk_node(node: JsxNode, elem: usize) -> WalkOut
    decreases node, 0int, 0int,
{
    match node {
        JsxNode::Element { span_start, attributes, children } => {
            let own = spec_attr_sites(attributes@, span_start, 0);
            let sub = spec_walk_nodes(children@, 0, span_start);
            WalkOut { sites: own + sub.sites, last_elem: sub.last_elem }
        },
        JsxNode::Other => WalkOut { sites: Seq::empty(), last_elem: elem },
    }
}

fn collect_attr_sites(attrs: &Vec<JsxAttr>, elem_start: usize, out: &mut Vec<Site>)
    ensures
        final(out)@ == old(out)@ + spec_attr_sites(attrs@, elem_start, 0),
{
    let ghost base = out@;
    let mut i: usize = 0;
    while i < attrs.len()
        invariant
            i <= attrs@.len(),
            out@ + spec_attr_sites(attrs@, elem_start, i as int) == base + spec_attr_sites(
                attrs@,
                elem_start,
                0,
            ),
        decreases attrs@.len() - i,
    {
        let ghost before = out@;
        let a = &attrs[i];
        if is_class(&a.name) {
            match &a.value {
                AttrValue::StringLiteral { span_start, span_end } => {
                    out.push(
                        Site {
                            elem_start,
                            name_start: a.name_span_start,
                            value_start: *span_start,
                            value_end: *span_end,
                            in_expression: false,
                        },
                    );
                },
                AttrValue::ExpressionString { span_start, span_end } => {
                    out.push(
                        Site {
                            elem_start,
                            name_start: a.name_span_start,
                            value_start: *span_start,
                            value_end: *span_end,
                            in_expression: true,
                        },
                    );
                },
                AttrValue::Other => {},
            }
        }
        proof {
            assert(out@ + spec_attr_sites(attrs@, elem_start, i + 1) =~= before + spec_attr_sites(
                attrs@,
                elem_start,
                i as int,
            ));
        }
        i = i + 1;
    }
}

fn walk_node(node: &JsxNode, elem: usize, out: &mut Vec<Site>) -> (r: usize)
    ensures
        final(out)@ == old(out)@ + spec_walk_node(*node, elem).sites,
        r == spec_walk_node(*node, elem).last_elem,
    decreases *node,
{
    match node {
        JsxNode::Element { span_start, attributes, children } => {
            collect_attr_sites(attributes, *span_start, out);
            let last = walk_nodes(children, *span_start, out);
            proof {
                assert(old(out)@ + (spec_attr_sites(attributes@, *span_start, 0) + spec_walk_nodes(
                    children@,
                    0,
                    *span_start,
                ).sites) =~= (old(out)@ + spec_attr_sites(attributes@, *span_start, 0))
                    + spec_walk_nodes(children@, 0, *span_start).sites);
            }
            last
        },
        JsxNode::Other => elem,
    }
}

fn walk_nodes(nodes: &Vec<JsxNode>, elem: usize, out: &mut Vec<Site>) -> (r: usize)
    ensures
        final(out)@ == old(out)@ + spec_walk_nodes(nodes@, 0, elem).sites,
        r == spec_walk_nodes(nodes@, 0, elem).last_elem,
    decreases nodes@,
{
    let ghost base = out@;
    let mut cur: usize = elem;
    let mut i: usize = 0;
    while i < nodes.len()
        invariant
            i <= nodes@.len(),
            out@ + spec_walk_nodes(nodes@, i as int, cur).sites == base + spec_walk_nodes(
                nodes@,
                0,
                elem,
            ).sites,
            spec_walk_nodes(nodes@, i as int, cur).last_elem == spec_walk_nodes(
                nodes@,
                0,
                elem,
            ).last_elem,
        decreases nodes@.len() - i,
    {
        let ghost before = out@;
        let ghost cur0 = cur;
        cur = walk_node(&nodes[i], cur, out);
        proof {
            assert((before + spec_walk_node(nodes@[i as int], cur0).sites) + spec_walk_nodes(
                nodes@,
                i + 1,
                cur,
            ).sites =~= before + (spec_walk_node(nodes@[i as int], cur0).sites + spec_walk_nodes(
                nodes@,
                i + 1,
                cur,
            ).sites));
        }
        i = i + 1;
    }
    cur
}

/// Finds every reformattable site of the tree, in document order, together
/// with its positional context. The context starts at offset 0, matching a
/// document with no preceding opening element.
pub fn collect_sites(tree: &Vec<JsxNode>) -> (r: Vec<Site>)
    ensures
        r@ == spec_walk_nodes(tree@, 0, 0).sites,
{
    let mut out: Vec<Site> = Vec::new();
    walk_nodes(tree, 0, &mut out);
    out
}

} // verus!
