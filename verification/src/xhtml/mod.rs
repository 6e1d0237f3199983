//! One XHTML file of the book: its document tree, the text nodes to
//! translate, and the text of the file as it is written back.

pub mod dom;
pub mod html5;
pub mod rewrite;
pub mod tree_laws;

use vstd::prelude::*;
use crate::text::{str_eq, views};
use crate::xhtml::dom::{lemma_trees, trees_upto, DomData, DomNode, Tree};
use crate::xhtml::html5::{
    html_parsed, html_serialized, parse_html, serialize_html, string_from_utf8,
};
use crate::xhtml::tree_laws::lemma_texts_grow;
use crate::xhtml::rewrite::{
    expand_spans, fixup_patterns_compile, regex_compiles, spec_expand_spans, spec_xhtml_fixups,
    xhtml_fixups, SELF_CLOSING_SPAN,
};

verus! {

/// Why a file could not be read as a document or written as one.
#[derive(Debug)]
pub enum XhtmlError {
    /// A pattern of the rewriting did not compile.
    Pattern(regex::Error),
    /// The reader behind the parser or the writer behind the serialiser
    /// failed. The library reads from memory and writes to memory, where
    /// this does not arise.
    Io(std::io::Error),
    /// The serialiser wrote bytes that are not UTF-8.
    Encoding(std::string::FromUtf8Error),
    /// The tree holds a document node below its root, which cannot be
    /// written.
    DocumentInside,
}

/// Parses the text of one XHTML file. Self-closing `span` elements are
/// opened and closed first; then the text is parsed as HTML. The result is
/// the document node, whose children are what stands at the top of the
/// file. Parsing succeeds on every text; the only failure is that of the
/// pattern for self-closing spans.
pub fn get_document_node(content: &str) -> (document: Result<DomNode, XhtmlError>)
    ensures
        document is Ok <==> regex_compiles(SELF_CLOSING_SPAN@),
        document matches Ok(node) ==> node@ == html_parsed(spec_expand_spans(content@))
            && node@.data is Document,
        document matches Err(e) ==> e is Pattern,
{
    match expand_spans(content) {
        Err(e) => Err(XhtmlError::Pattern(e)),
        Ok(expanded) => document_from_parser(parse_html(expanded.as_str())),
    }
}

/// What the parser's answer means for the caller: the tree, or the failure
/// of the parser's input.
pub fn document_from_parser(parsed: Result<DomNode, std::io::Error>) -> (document: Result<
    DomNode,
    XhtmlError,
>)
    ensures
        match parsed {
            Ok(node) => document == Ok::<DomNode, XhtmlError>(node),
            Err(e) => document == Err::<DomNode, XhtmlError>(XhtmlError::Io(e)),
        },
{
    match parsed {
        Ok(node) => Ok(node),
        Err(e) => Err(XhtmlError::Io(e)),
    }
}

/// Tells whether a tree can be written: whether the serialiser meets no
/// document node in it.
pub fn is_serializable(node: &DomNode) -> (b: bool)
    ensures
        b == node@.serializable(),
    decreases node,
{
    match &node.data {
        DomData::Document => false,
        DomData::Element { .. } => {
            proof {
                lemma_trees(node.children@, node.children@.len() as int);
            }
            all_serializable(&node.children)
        },
        _ => true,
    }
}

/// Tells whether every one of the trees can be written.
pub fn all_serializable(nodes: &Vec<DomNode>) -> (b: bool)
    ensures
        b == Tree::serializable_upto(
            trees_upto(nodes@, nodes@.len() as int),
            nodes@.len() as int,
        ),
    decreases nodes,
{
    let ghost trees = trees_upto(nodes@, nodes@.len() as int);
    proof {
        lemma_trees(nodes@, nodes@.len() as int);
    }
    let mut i: usize = 0;
    while i < nodes.len()
        invariant
            i <= nodes@.len(),
            trees == trees_upto(nodes@, nodes@.len() as int),
            trees.len() == nodes@.len(),
            forall|k: int| 0 <= k < trees.len() ==> #[trigger] trees[k] == nodes@[k]@,
            Tree::serializable_upto(trees, i as int),
        decreases nodes.len() - i,
    {
        if !is_serializable(&nodes[i]) {
            proof {
                lemma_not_serializable(trees, i as int + 1, trees.len() as int);
            }
            return false;
        }
        i += 1;
    }
    true
}

/// Where the first trees cannot all be written, more of them cannot.
proof fn lemma_not_serializable(trees: Seq<Tree>, n: int, m: int)
    requires
        0 <= n <= m <= trees.len(),
        !Tree::serializable_upto(trees, n),
    ensures
        !Tree::serializable_upto(trees, m),
    decreases m,
{
    if n < m {
        lemma_not_serializable(trees, n, m - 1);
    }
}

/// The bytes that the serialiser writes for the first `n` trees, one after
/// the other.
pub open spec fn serialized_upto(trees: Seq<Tree>, n: int) -> Seq<u8>
    decreases n,
{
    if 0 < n <= trees.len() {
        serialized_upto(trees, n - 1) + html_serialized(trees[n - 1])
    } else {
        Seq::empty()
    }
}

/// The bytes that the serialiser writes for a document: those of the
/// document node's children, one after the other.
pub open spec fn document_bytes(document: Tree) -> Seq<u8> {
    serialized_upto(document.children, document.children.len() as int)
}

/// The text that is written to the file for a document. Each child of the
/// document node is serialised as HTML, and the result is rewritten to
/// XHTML: void elements and empty `span` elements closed in themselves, and
/// no-break spaces written as themselves.
///
/// A tree in which the serialiser would meet a document node below the
/// root is refused; such a tree never comes from the parser.
pub fn serialize_document_to_string(document: &DomNode) -> (text: Result<String, XhtmlError>)
    ensures
        text is Ok <==> {
            &&& Tree::serializable_upto(document@.children, document@.children.len() as int)
            &&& vstd::utf8::valid_utf8(document_bytes(document@))
            &&& fixup_patterns_compile()
        },
        text matches Ok(s) ==> s@ == spec_xhtml_fixups(
            vstd::utf8::decode_utf8(document_bytes(document@)),
        ),
        text matches Err(e) ==> match e {
            XhtmlError::DocumentInside => !Tree::serializable_upto(
                document@.children,
                document@.children.len() as int,
            ),
            XhtmlError::Encoding(_) => Tree::serializable_upto(
                document@.children,
                document@.children.len() as int,
            ) && !vstd::utf8::valid_utf8(document_bytes(document@)),
            XhtmlError::Pattern(_) => Tree::serializable_upto(
                document@.children,
                document@.children.len() as int,
            ) && vstd::utf8::valid_utf8(document_bytes(document@)) && !fixup_patterns_compile(),
            XhtmlError::Io(_) => false,
        },
{
    let ghost trees = document@.children;
    proof {
        lemma_trees(document.children@, document.children@.len() as int);
    }
    if !all_serializable(&document.children) {
        return Err(XhtmlError::DocumentInside);
    }
    let mut output: Vec<u8> = Vec::new();
    let mut i: usize = 0;
    while i < document.children.len()
        invariant
            i <= document.children@.len(),
            trees == document@.children,
            trees.len() == document.children@.len(),
            forall|k: int| 0 <= k < trees.len() ==> #[trigger] trees[k] == document.children@[k]@,
            Tree::serializable_upto(trees, trees.len() as int),
            output@ == serialized_upto(trees, i as int),
        decreases document.children.len() - i,
    {
        proof {
            lemma_serializable_each(trees, trees.len() as int, i as int);
        }
        match serialize_html(&document.children[i], &mut output) {
            Ok(()) => {},
            Err(e) => {
                return Err(XhtmlError::Io(e));
            },
        }
        i += 1;
    }
    finish_serialization(string_from_utf8(output))
}

/// What the decoded output of the serialiser becomes: the rewritten text,
/// or the failure to decode or to rewrite.
pub fn finish_serialization(decoded: Result<String, std::string::FromUtf8Error>) -> (text: Result<
    String,
    XhtmlError,
>)
    ensures
        match decoded {
            Err(e) => text == Err::<String, XhtmlError>(XhtmlError::Encoding(e)),
            Ok(html) => match text {
                Ok(s) => fixup_patterns_compile() && s@ == spec_xhtml_fixups(html@),
                Err(XhtmlError::Pattern(_)) => !fixup_patterns_compile(),
                Err(_) => false,
            },
        },
{
    match decoded {
        Err(e) => Err(XhtmlError::Encoding(e)),
        Ok(html) => match xhtml_fixups(html.as_str()) {
            Ok(s) => Ok(s),
            Err(e) => Err(XhtmlError::Pattern(e)),
        },
    }
}

/// Where all of the first trees can be written, each of them can.
proof fn lemma_serializable_each(trees: Seq<Tree>, n: int, i: int)
    requires
        0 <= i < n <= trees.len(),
        Tree::serializable_upto(trees, n),
    ensures
        trees[i].serializable(),
    decreases n,
{
    if i < n - 1 {
        lemma_serializable_each(trees, n - 1, i);
    }
}

/// Tells whether a node is a `style` element.
pub fn is_style_element(node: &DomNode) -> (b: bool)
    ensures
        b == node@.is_style(),
{
    match &node.data {
        DomData::Element { name, .. } => str_eq(name.local.as_str(), "style"),
        _ => false,
    }
}

/// Appends the texts of the text nodes below `node` to `out`.
fn collect_texts(node: &DomNode, out: &mut Vec<String>)
    ensures
        views(final(out)@) == views(old(out)@) + node@.texts(),
    decreases node,
{
    match &node.data {
        DomData::Text { contents } => {
            out.push(contents.clone());
            assert(views(out@) =~= views(old(out)@) + node@.texts());
        },
        _ => {
            if is_style_element(node) {
                assert(views(out@) =~= views(old(out)@) + node@.texts());
            } else {
                let ghost trees = node@.children;
                proof {
                    lemma_trees(node.children@, node.children@.len() as int);
                }
                let mut i: usize = 0;
                while i < node.children.len()
                    invariant
                        i <= node.children@.len(),
                        trees == node@.children,
                        trees.len() == node.children@.len(),
                        forall|k: int|
                            0 <= k < trees.len() ==> #[trigger] trees[k] == node.children@[k]@,
                        views(out@) == views(old(out)@) + Tree::texts_upto(trees, i as int),
                    decreases node.children.len() - i,
                {
                    collect_texts(&node.children[i], out);
                    assert(views(out@) =~= views(old(out)@) + Tree::texts_upto(trees, i + 1));
                    i += 1;
                }
            }
        },
    }
}

/// The texts of the text nodes below `node`, in document order. What
/// stands inside a `style` element is not among them. The place of a text
/// in the result is the identity of its node.
pub fn get_text_nodes(node: &DomNode) -> (texts: Vec<String>)
    ensures
        views(texts@) == node@.texts(),
{
    let mut texts: Vec<String> = Vec::new();
    collect_texts(node, &mut texts);
    assert(views(texts@) =~= node@.texts());
    texts
}

/// Replaces the texts below `node` by those of `texts` from `from` on, and
/// returns the index of the first text that was not used.
pub fn replace_texts(node: &mut DomNode, texts: &Vec<String>, from: usize) -> (next: usize)
    requires
        from + old(node)@.texts().len() <= texts@.len(),
    ensures
        final(node)@ == old(node)@.with_texts(views(texts@), from as int),
        next == from + old(node)@.texts().len(),
    decreases *old(node),
{
    if let DomData::Text { .. } = &node.data {
        assert(from < texts.len());
        node.data = DomData::Text { contents: texts[from].clone() };
        from + 1
    } else if is_style_element(node) {
        from
    } else {
        let ghost trees = node@.children;
        let ghost new = views(texts@);
        proof {
            lemma_trees(node.children@, node.children@.len() as int);
        }
        let mut next = from;
        let mut i: usize = 0;
        while i < node.children.len()
            invariant
                i <= node.children@.len(),
                node.data == old(node).data,
                node.children@.len() == old(node).children@.len(),
                trees == old(node)@.children,
                trees.len() == node.children@.len(),
                new == views(texts@),
                forall|k: int|
                    0 <= k < trees.len() ==> #[trigger] trees[k] == old(node).children@[k]@,
                forall|k: int|
                    i <= k < trees.len() ==> #[trigger] node.children@[k] == old(
                        node,
                    ).children@[k],
                forall|k: int|
                    0 <= k < i ==> (#[trigger] node.children@[k])@ == Tree::with_texts_upto(
                        trees,
                        i as int,
                        new,
                        from as int,
                    )[k],
                Tree::with_texts_upto(trees, i as int, new, from as int).len() == i,
                next == from + Tree::texts_upto(trees, i as int).len(),
                from + Tree::texts_upto(trees, trees.len() as int).len() <= texts@.len(),
            decreases node.children.len() - i,
        {
            proof {
                lemma_texts_grow(trees, i as int + 1, trees.len() as int);
            }
            next = replace_texts(&mut node.children[i], texts, next);
            i += 1;
        }
        proof {
            lemma_trees(node.children@, node.children@.len() as int);
            assert(node@.children =~= Tree::with_texts_upto(
                trees,
                trees.len() as int,
                new,
                from as int,
            ));
        }
        next
    }
}

/// Writes `texts` into the text nodes below `node`, the first text into the
/// first node in document order and so on. Needs one text for each of the
/// nodes that `get_text_nodes` gives.
pub fn set_text_nodes(node: &mut DomNode, texts: &Vec<String>)
    requires
        texts@.len() == old(node)@.texts().len(),
    ensures
        final(node)@ == old(node)@.with_texts(views(texts@), 0),
{
    replace_texts(node, texts, 0);
}

} // verus!
