//! The HTML parser and serialiser behind the document tree. Nothing in this
//! file is proved: each function hands its arguments to `html5ever` or to
//! `markup5ever_rcdom` and hands the answer back in the library's types.

use vstd::prelude::*;
use std::rc::Rc;
use std::cell::RefCell;
use html5ever::tendril::TendrilSink;
use markup5ever_rcdom::{Node, NodeData, RcDom, SerializableHandle};
use crate::xhtml::dom::{DomAttribute, DomNode, DomData, DomName, Tree};

verus! {

/// A node of `markup5ever_rcdom`; only passed on, never looked into.
#[verifier::external_type_specification]
#[verifier::external_body]
pub struct ExRcDomNode(markup5ever_rcdom::Node);

/// What a node of `markup5ever_rcdom` holds; only passed on.
#[verifier::external_type_specification]
#[verifier::external_body]
pub struct ExRcDomNodeData(markup5ever_rcdom::NodeData);

/// A name of `html5ever`; only passed on.
#[verifier::external_type_specification]
#[verifier::external_body]
pub struct ExHtmlQualName(html5ever::QualName);

/// An attribute of `html5ever`; only passed on.
#[verifier::external_type_specification]
#[verifier::external_body]
pub struct ExHtmlAttribute(html5ever::Attribute);

/// The error of reading and writing; only passed on.
#[verifier::external_type_specification]
#[verifier::external_body]
pub struct ExIoError(std::io::Error);

/// The error of `String::from_utf8`; only passed on.
#[verifier::external_type_specification]
#[verifier::external_body]
pub struct ExFromUtf8Error(std::string::FromUtf8Error);

/// Takes bytes for a text: `String::from_utf8`. It succeeds exactly on valid
/// UTF-8, and the text is then what the bytes encode.
#[verifier::external_body]
pub(crate) fn string_from_utf8(bytes: Vec<u8>) -> (text: Result<
    String,
    std::string::FromUtf8Error,
>)
    ensures
        text is Ok <==> vstd::utf8::valid_utf8(bytes@),
        text matches Ok(s) ==> s@ == vstd::utf8::decode_utf8(bytes@),
{
    String::from_utf8(bytes)
}

/// The tree that `html5ever` builds from a text, as a tree of this library.
pub uninterp spec fn html_parsed(content: Seq<char>) -> Tree;

/// The bytes that `html5ever` writes for a node and all below it.
pub uninterp spec fn html_serialized(tree: Tree) -> Seq<u8>;

/// Copies a name of `html5ever`, part for part.
#[verifier::external_body]
fn name_from_html5(name: &html5ever::QualName) -> DomName {
    DomName {
        prefix: name.prefix.as_ref().map(|p| p.to_string()),
        ns: name.ns.to_string(),
        local: name.local.to_string(),
    }
}

/// Copies an attribute of `html5ever`, part for part.
#[verifier::external_body]
fn attribute_from_html5(attr: &html5ever::Attribute) -> DomAttribute {
    DomAttribute { name: name_from_html5(&attr.name), value: attr.value.to_string() }
}

/// Copies what a node of `markup5ever_rcdom` holds, variant for variant.
/// Of a doctype only the name is kept, and of an element its name and
/// attributes: the serialiser reads nothing else of them.
#[verifier::external_body]
fn data_from_rcdom(data: &NodeData) -> DomData {
    match data {
        NodeData::Document => DomData::Document,
        NodeData::Doctype { name, .. } => DomData::Doctype { name: name.to_string() },
        NodeData::Text { contents } => DomData::Text { contents: contents.borrow().to_string() },
        NodeData::Comment { contents } => DomData::Comment { contents: contents.to_string() },
        NodeData::Element { name, attrs, .. } => DomData::Element {
            name: name_from_html5(name),
            attrs: attrs.borrow().iter().map(attribute_from_html5).collect(),
        },
        NodeData::ProcessingInstruction { target, contents } => DomData::ProcessingInstruction {
            target: target.to_string(),
            contents: contents.to_string(),
        },
    }
}

/// Copies a node of `markup5ever_rcdom` with its children, in their order.
#[verifier::external_body]
fn node_from_rcdom(handle: &Rc<Node>) -> DomNode {
    DomNode {
        data: data_from_rcdom(&handle.data),
        children: handle.children.borrow().iter().map(node_from_rcdom).collect(),
    }
}

/// Parses a text as an HTML document: `parse_document` of `html5ever` into
/// an `RcDom`, fed the text's bytes as UTF-8. The result is the document
/// node with the whole tree. The call cannot fail: `read_from` gives an
/// error only where its reader does, and the reader is a slice of bytes.
/// The root is the document node that `RcDom` starts with. Beyond that the
/// contract gives the tree a name; it claims only that the same text gives
/// the same tree.
#[verifier::external_body]
pub(crate) fn parse_html(content: &str) -> (parsed: Result<DomNode, std::io::Error>)
    ensures
        parsed is Ok,
        parsed matches Ok(document) ==> document@ == html_parsed(content@) && document@.data
            is Document,
{
    let parser = html5ever::parse_document(RcDom::default(), Default::default());
    let dom = parser.from_utf8().read_from(&mut content.as_bytes())?;
    Ok(node_from_rcdom(&dom.document))
}

/// Makes a name of `html5ever`, part for part.
#[verifier::external_body]
fn name_to_html5(name: &DomName) -> html5ever::QualName {
    html5ever::QualName::new(
        name.prefix.as_deref().map(html5ever::Prefix::from),
        html5ever::Namespace::from(name.ns.as_str()),
        html5ever::LocalName::from(name.local.as_str()),
    )
}

/// Makes an attribute of `html5ever`, part for part.
#[verifier::external_body]
fn attribute_to_html5(attr: &DomAttribute) -> html5ever::Attribute {
    html5ever::Attribute { name: name_to_html5(&attr.name), value: attr.value.as_str().into() }
}

/// Makes what an element of `markup5ever_rcdom` holds, without template
/// contents.
#[verifier::external_body]
fn element_to_rcdom(name: &DomName, attrs: &Vec<DomAttribute>) -> NodeData {
    NodeData::Element {
        name: name_to_html5(name),
        attrs: RefCell::new(attrs.iter().map(attribute_to_html5).collect()),
        template_contents: RefCell::new(None),
        mathml_annotation_xml_integration_point: false,
    }
}

/// Makes what a node of `markup5ever_rcdom` holds, variant for variant. A
/// doctype gets empty identifiers.
#[verifier::external_body]
fn data_to_rcdom(data: &DomData) -> NodeData {
    let empty = html5ever::tendril::StrTendril::new;
    match data {
        DomData::Document => NodeData::Document,
        DomData::Doctype { name } => NodeData::Doctype { name: name.as_str().into(), public_id: empty(), system_id: empty() },
        DomData::Text { contents } => NodeData::Text { contents: RefCell::new(contents.as_str().into()) },
        DomData::Comment { contents } => NodeData::Comment { contents: contents.as_str().into() },
        DomData::Element { name, attrs } => element_to_rcdom(name, attrs),
        DomData::ProcessingInstruction { target, contents } => NodeData::ProcessingInstruction {
            target: target.as_str().into(),
            contents: contents.as_str().into(),
        },
    }
}

/// Makes a node of `markup5ever_rcdom` with its children, in their order.
#[verifier::external_body]
fn node_to_rcdom(node: &DomNode) -> Rc<Node> {
    let handle = Node::new(data_to_rcdom(&node.data));
    handle.children.borrow_mut().extend(node.children.iter().map(node_to_rcdom));
    handle
}

impl Tree {
    /// Whether the serialiser takes this tree: it meets no document node.
    /// It looks at the node itself and, below an element, at the element's
    /// children; below any other node it looks at nothing.
    pub open spec fn serializable(self) -> bool
        decreases self, 0nat,
    {
        !(self.data is Document) && (self.data is Element ==> Tree::serializable_upto(
            self.children,
            self.children.len() as int,
        ))
    }

    /// Whether the serialiser takes the first `n` of these trees.
    pub open spec fn serializable_upto(trees: Seq<Tree>, n: int) -> bool
        decreases trees, n,
    {
        if 0 < n <= trees.len() {
            Tree::serializable_upto(trees, n - 1) && trees[n - 1].serializable()
        } else {
            true
        }
    }
}

/// Writes a node and all below it as HTML: `serialize` of `html5ever`, with
/// the node itself included, appending to `out`. The serialiser panics on a
/// document node that it meets, so the tree may hold none where it looks.
/// The call cannot fail: every error of the serialiser is an error of its
/// writer, and the writer is a vector of bytes. The contract gives the
/// bytes written a name; it claims only that the same tree gives the same
/// bytes.
#[verifier::external_body]
pub(crate) fn serialize_html(node: &DomNode, out: &mut Vec<u8>) -> (written: Result<
    (),
    std::io::Error,
>)
    requires
        node@.serializable(),
    ensures
        written is Ok,
        final(out)@ == old(out)@ + html_serialized(node@),
{
    let opts = html5ever::serialize::SerializeOpts {
        traversal_scope: html5ever::serialize::TraversalScope::IncludeNode,
        ..Default::default()
    };
    let handle = SerializableHandle::from(node_to_rcdom(node));
    html5ever::serialize(out, &handle, opts)
}

} // verus!
