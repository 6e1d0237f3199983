//! The documents of one book: their text nodes as one list, which is what
//! the pipeline works on, and the way back from that list into the
//! documents.

use vstd::prelude::*;
use vstd::string::StringSliceAdditionalSpecFns;
use crate::pipeline::{Pipeline, State};
use crate::text::{lemma_sum_fits, views};
use crate::xhtml::dom::{DomNode, Tree};
use crate::xhtml::tree_laws::{
    lemma_children_unchanged, lemma_children_written, lemma_texts_grow, lemma_with_texts_upto,
};
use crate::xhtml::{get_text_nodes, replace_texts};

verus! {

/// One parsed file of the book.
#[derive(Debug)]
pub struct Document {
    /// The document node of the file.
    pub node: DomNode,
    /// Where the file was read and will be written.
    pub path: String,
}

/// The trees of a list of documents.
pub open spec fn trees_of(documents: Seq<Document>) -> Seq<Tree> {
    Seq::new(documents.len(), |i: int| documents[i].node@)
}

/// The texts of all text nodes of a book: those of the first document,
/// then those of the second, and so on. The place of a text in this list
/// is the id of its node.
pub open spec fn book_texts(documents: Seq<Document>) -> Seq<Seq<char>> {
    Tree::texts_upto(trees_of(documents), documents.len() as int)
}

/// The trees of a book after `texts` was written into its text nodes, the
/// text with index `id` into the node with that id.
pub open spec fn book_with_texts(documents: Seq<Document>, texts: Seq<Seq<char>>) -> Seq<Tree> {
    Tree::with_texts_upto(trees_of(documents), documents.len() as int, texts, 0)
}

/// Lists the texts of all text nodes of the book, by id.
pub fn collect_text_nodes(documents: &Vec<Document>) -> (texts: Vec<String>)
    ensures
        views(texts@) == book_texts(documents@),
{
    let ghost trees = trees_of(documents@);
    let mut texts: Vec<String> = Vec::new();
    let mut i: usize = 0;
    assert(views(texts@) =~= Tree::texts_upto(trees, 0));
    while i < documents.len()
        invariant
            i <= documents@.len(),
            trees == trees_of(documents@),
            views(texts@) == Tree::texts_upto(trees, i as int),
        decreases documents.len() - i,
    {
        let ghost before = views(texts@);
        let mut found = get_text_nodes(&documents[i].node);
        let ghost added = views(found@);
        assert(added == trees[i as int].texts());
        let ghost kept = texts@;
        let ghost moved = found@;
        texts.append(&mut found);
        assert(texts@ == kept + moved);
        assert(views(texts@) =~= before + added);
        i += 1;
    }
    texts
}

/// Starts the translation of a book: takes the texts of all its text nodes
/// as they are now and sets up a pipeline over them.
pub fn begin_translation(documents: &Vec<Document>) -> (pipeline: Pipeline)
    ensures
        pipeline.wf(),
        pipeline@ == State::initial(book_texts(documents@)),
{
    Pipeline::new(collect_text_nodes(documents))
}

/// Writes `texts` into the text nodes of the book, the text with index
/// `id` into the node with that id. Needs one text for every node.
pub fn write_text_nodes(documents: &mut Vec<Document>, texts: &Vec<String>)
    requires
        texts@.len() == book_texts(old(documents)@).len(),
    ensures
        final(documents)@.len() == old(documents)@.len(),
        trees_of(final(documents)@) == book_with_texts(old(documents)@, views(texts@)),
        forall|i: int|
            0 <= i < old(documents)@.len() ==> (#[trigger] final(documents)@[i]).path == old(
                documents,
            )@[i].path,
{
    let ghost trees = trees_of(documents@);
    let ghost new = views(texts@);
    let mut next: usize = 0;
    let mut i: usize = 0;
    while i < documents.len()
        invariant
            i <= documents@.len(),
            documents@.len() == old(documents)@.len(),
            trees == trees_of(old(documents)@),
            new == views(texts@),
            forall|k: int| i <= k < documents@.len() ==> #[trigger] documents@[k] == old(documents)@[k],
            forall|k: int|
                0 <= k < documents@.len() ==> (#[trigger] documents@[k]).path == old(
                    documents,
                )@[k].path,
            forall|k: int|
                0 <= k < i ==> (#[trigger] documents@[k]).node@ == Tree::with_texts_upto(
                    trees,
                    i as int,
                    new,
                    0,
                )[k],
            Tree::with_texts_upto(trees, i as int, new, 0).len() == i,
            next == Tree::texts_upto(trees, i as int).len(),
            Tree::texts_upto(trees, trees.len() as int).len() == texts@.len(),
        decreases documents.len() - i,
    {
        proof {
            lemma_texts_grow(trees, i as int + 1, trees.len() as int);
            assert(trees[i as int] == documents@[i as int].node@);
        }
        next = replace_texts(&mut documents[i].node, texts, next);
        i += 1;
    }
    assert(trees_of(documents@) =~= book_with_texts(old(documents)@, new));
}

/// Ends the translation of a book: writes what the pipeline holds for each
/// node into the documents. A node whose translation never arrived gets
/// the text it had.
pub fn finish_translation(documents: &mut Vec<Document>, pipeline: Pipeline)
    requires
        pipeline.wf(),
        pipeline@.texts.len() == book_texts(old(documents)@).len(),
    ensures
        final(documents)@.len() == old(documents)@.len(),
        trees_of(final(documents)@) == book_with_texts(old(documents)@, pipeline@.contents),
        forall|i: int|
            0 <= i < old(documents)@.len() ==> (#[trigger] final(documents)@[i]).path == old(
                documents,
            )@[i].path,
{
    proof {
        pipeline.lemma_wf();
    }
    let contents = pipeline.into_contents();
    write_text_nodes(documents, &contents);
}

/// A book whose texts are written back as they are does not change.
pub proof fn law_untranslated_book_unchanged(documents: Seq<Document>)
    ensures
        book_with_texts(documents, book_texts(documents)) == trees_of(documents),
{
    let trees = trees_of(documents);
    let n = trees.len() as int;
    let texts = book_texts(documents);
    assert(texts.subrange(0, texts.len() as int) =~= texts);
    lemma_children_unchanged(trees, n, texts, 0);
    lemma_with_texts_upto(trees, n, texts, 0);
    assert(book_with_texts(documents, texts) =~= trees);
}

/// After texts were written into a book, the book's texts are those that
/// were written, each in the node with its id.
pub proof fn law_book_texts_written(documents: Seq<Document>, texts: Seq<Seq<char>>)
    requires
        texts.len() == book_texts(documents).len(),
    ensures
        Tree::texts_upto(book_with_texts(documents, texts), documents.len() as int) == texts,
{
    let trees = trees_of(documents);
    lemma_children_written(trees, trees.len() as int, texts, 0);
    assert(texts.subrange(0, texts.len() as int) =~= texts);
}

/// The UTF-8 lengths of the first `n` texts, added up.
pub open spec fn bytes_upto(texts: Seq<Seq<char>>, n: int) -> int
    decreases n,
{
    if n <= 0 {
        0
    } else {
        bytes_upto(texts, n - 1) + vstd::utf8::encode_utf8(texts[n - 1]).len()
    }
}

/// Counts what there is to translate: the lengths of all texts in bytes of
/// UTF-8, added up.
pub fn count_chars(texts: &Vec<String>) -> (count: u128)
    ensures
        count == bytes_upto(views(texts@), texts@.len() as int),
{
    let mut count: u128 = 0;
    let mut i: usize = 0;
    while i < texts.len()
        invariant
            i <= texts@.len(),
            count == bytes_upto(views(texts@), i as int),
            count <= i * 0xffff_ffff_ffff_ffff,
        decreases texts.len() - i,
    {
        assert(views(texts@)[i as int] == texts@[i as int]@);
        let len = texts[i].as_str().as_bytes().len();
        proof {
            lemma_sum_fits(i as int, count as int, len as int);
        }
        count = count + len as u128;
        i += 1;
    }
    count
}

} // verus!
