//! What holds of every tree when its texts are read and written.

use vstd::prelude::*;
use crate::xhtml::dom::{Data, Tree};

verus! {

/// The texts of the first trees are among the texts of more of them.
pub proof fn lemma_texts_grow(trees: Seq<Tree>, n: int, m: int)
    requires
        0 <= n <= m <= trees.len(),
    ensures
        Tree::texts_upto(trees, n).len() <= Tree::texts_upto(trees, m).len(),
    decreases m,
{
    if n < m {
        lemma_texts_grow(trees, n, m - 1);
    }
}

/// The replaced trees are as many as were asked for, and each is the old
/// one replaced from the place where its texts begin.
pub proof fn lemma_with_texts_upto(trees: Seq<Tree>, n: int, new: Seq<Seq<char>>, from: int)
    requires
        0 <= n <= trees.len(),
    ensures
        Tree::with_texts_upto(trees, n, new, from).len() == n,
        forall|i: int|
            0 <= i < n ==> #[trigger] Tree::with_texts_upto(trees, n, new, from)[i]
                == trees[i].with_texts(new, from + Tree::texts_upto(trees, i).len()),
    decreases n,
{
    if n > 0 {
        lemma_with_texts_upto(trees, n - 1, new, from);
    }
}

/// Writing reaches every text node. After `new` was written into a tree
/// from `from` on, the tree's texts are those of `new`, in order.
pub proof fn law_texts_written(t: Tree, new: Seq<Seq<char>>, from: int)
    requires
        0 <= from,
        from + t.texts().len() <= new.len(),
    ensures
        t.with_texts(new, from).texts() == new.subrange(from, from + t.texts().len()),
    decreases t, 0nat,
{
    if t.data is Text {
        assert(t.with_texts(new, from).texts() =~= new.subrange(from, from + 1));
    } else if t.is_style() {
        assert(t.texts() =~= new.subrange(from, from));
    } else {
        let n = t.children.len() as int;
        lemma_children_written(t.children, n, new, from);
        lemma_with_texts_upto(t.children, n, new, from);
    }
}

/// The same for the first `n` of a list of trees.
pub proof fn lemma_children_written(trees: Seq<Tree>, n: int, new: Seq<Seq<char>>, from: int)
    requires
        0 <= n <= trees.len(),
        0 <= from,
        from + Tree::texts_upto(trees, n).len() <= new.len(),
    ensures
        Tree::texts_upto(Tree::with_texts_upto(trees, n, new, from), n) == new.subrange(
            from,
            from + Tree::texts_upto(trees, n).len(),
        ),
    decreases trees, n,
{
    let written = Tree::with_texts_upto(trees, n, new, from);
    if n > 0 {
        let head = Tree::with_texts_upto(trees, n - 1, new, from);
        let offset = Tree::texts_upto(trees, n - 1).len() as int;
        lemma_children_written(trees, n - 1, new, from);
        law_texts_written(trees[n - 1], new, from + offset);
        lemma_with_texts_upto(trees, n, new, from);
        lemma_with_texts_upto(trees, n - 1, new, from);
        lemma_texts_prefix(written, head, n - 1);
        assert(Tree::texts_upto(written, n) =~= new.subrange(
            from,
            from + Tree::texts_upto(trees, n).len(),
        ));
    } else {
        assert(Tree::texts_upto(written, n) =~= new.subrange(from, from));
    }
}

/// The texts of the first `n` trees depend on those trees only.
pub proof fn lemma_texts_prefix(a: Seq<Tree>, b: Seq<Tree>, n: int)
    requires
        0 <= n <= a.len(),
        n <= b.len(),
        forall|i: int| 0 <= i < n ==> a[i] == b[i],
    ensures
        Tree::texts_upto(a, n) == Tree::texts_upto(b, n),
    decreases n,
{
    if n > 0 {
        lemma_texts_prefix(a, b, n - 1);
    }
}

/// Untouched text stays as it is. Writing a tree's own texts back into it
/// gives the same tree: where `new` holds, from `from` on, the texts that
/// the tree has, the tree does not change.
pub proof fn law_identity_round_trip(t: Tree, new: Seq<Seq<char>>, from: int)
    requires
        0 <= from,
        from + t.texts().len() <= new.len(),
        new.subrange(from, from + t.texts().len()) == t.texts(),
    ensures
        t.with_texts(new, from) == t,
    decreases t, 0nat,
{
    if t.data is Text {
        assert(new.subrange(from, from + 1)[0] == t.texts()[0]);
    } else if t.is_style() {
    } else {
        let n = t.children.len() as int;
        lemma_children_unchanged(t.children, n, new, from);
        lemma_with_texts_upto(t.children, n, new, from);
        assert(Tree::with_texts_upto(t.children, n, new, from) =~= t.children);
    }
}

/// The same for the first `n` of a list of trees.
pub proof fn lemma_children_unchanged(trees: Seq<Tree>, n: int, new: Seq<Seq<char>>, from: int)
    requires
        0 <= n <= trees.len(),
        0 <= from,
        from + Tree::texts_upto(trees, n).len() <= new.len(),
        new.subrange(from, from + Tree::texts_upto(trees, n).len()) == Tree::texts_upto(trees, n),
    ensures
        forall|i: int|
            0 <= i < n ==> #[trigger] Tree::with_texts_upto(trees, n, new, from)[i] == trees[i],
    decreases trees, n,
{
    if n > 0 {
        let offset = Tree::texts_upto(trees, n - 1).len() as int;
        let all = Tree::texts_upto(trees, n);
        let last = trees[n - 1].texts();
        assert(new.subrange(from, from + offset) =~= all.subrange(0, offset));
        assert(all.subrange(0, offset) =~= Tree::texts_upto(trees, n - 1));
        assert(new.subrange(from + offset, from + offset + last.len()) =~= all.subrange(
            offset,
            offset + last.len(),
        ));
        assert(all.subrange(offset, offset + last.len()) =~= last);
        lemma_children_unchanged(trees, n - 1, new, from);
        law_identity_round_trip(trees[n - 1], new, from + offset);
        lemma_with_texts_upto(trees, n, new, from);
        lemma_with_texts_upto(trees, n - 1, new, from);
    }
}

/// The node that a path of child indices leads to, if it leads anywhere.
pub open spec fn subtree(t: Tree, path: Seq<int>) -> Option<Tree>
    decreases path.len(),
{
    if path.len() == 0 {
        Some(t)
    } else if 0 <= path[0] < t.children.len() {
        subtree(t.children[path[0]], path.drop_first())
    } else {
        None
    }
}

/// Writing texts changes texts only: every node keeps its place, and a
/// node that is no text node keeps its data.
pub proof fn law_shape_kept(t: Tree, new: Seq<Seq<char>>, from: int, path: Seq<int>)
    ensures
        subtree(t, path) is Some <==> subtree(t.with_texts(new, from), path) is Some,
        subtree(t, path) matches Some(node) ==> {
            let written = subtree(t.with_texts(new, from), path)->0;
            &&& written.children.len() == node.children.len()
            &&& written.data is Text <==> node.data is Text
            &&& !(node.data is Text) ==> written.data == node.data
        },
    decreases path.len(),
{
    let n = t.children.len() as int;
    lemma_with_texts_upto(t.children, n, new, from);
    if path.len() > 0 && 0 <= path[0] < n {
        let i = path[0];
        if !(t.data is Text) && !t.is_style() {
            law_shape_kept(
                t.children[i],
                new,
                from + Tree::texts_upto(t.children, i).len(),
                path.drop_first(),
            );
        }
    }
}

/// Style is left alone. Nothing inside a `style` element is among the
/// texts that are sent for translation, and writing translations back
/// changes nothing in it: wherever a `style` element stands in a tree, it
/// stands there unchanged afterwards, with everything below it.
pub proof fn law_style_untouched(t: Tree, new: Seq<Seq<char>>, from: int, path: Seq<int>)
    requires
        subtree(t, path) matches Some(node) && node.is_style(),
    ensures
        subtree(t, path)->0.texts().len() == 0,
        subtree(t.with_texts(new, from), path) == subtree(t, path),
    decreases path.len(),
{
    let n = t.children.len() as int;
    lemma_with_texts_upto(t.children, n, new, from);
    if path.len() > 0 {
        let i = path[0];
        if !(t.data is Text) && !t.is_style() {
            law_style_untouched(
                t.children[i],
                new,
                from + Tree::texts_upto(t.children, i).len(),
                path.drop_first(),
            );
        }
    }
}

/// What stands below a `style` element is left alone as well: a node that
/// is reached through a `style` element is the same after writing.
pub proof fn law_below_style_untouched(
    t: Tree,
    new: Seq<Seq<char>>,
    from: int,
    path: Seq<int>,
    below: Seq<int>,
)
    requires
        subtree(t, path) matches Some(node) && node.is_style(),
    ensures
        subtree(t.with_texts(new, from), path + below) == subtree(t, path + below),
    decreases path.len(),
{
    law_style_untouched(t, new, from, path);
    lemma_subtree_split(t, path, below);
    lemma_subtree_split(t.with_texts(new, from), path, below);
}

/// The tree among the first `n` that holds the text with index `k`.
pub open spec fn owner(trees: Seq<Tree>, n: int, k: int) -> int
    decreases n,
{
    if n <= 1 || k >= Tree::texts_upto(trees, n - 1).len() {
        n - 1
    } else {
        owner(trees, n - 1, k)
    }
}

/// Every text has its path: a tree has as many text paths as texts.
pub proof fn lemma_paths_len(t: Tree)
    ensures
        t.text_paths().len() == t.texts().len(),
    decreases t, 0nat,
{
    if !(t.data is Text) && !t.is_style() {
        lemma_paths_len_upto(t.children, t.children.len() as int);
    }
}

/// The same for the first `n` of a list of trees.
pub proof fn lemma_paths_len_upto(trees: Seq<Tree>, n: int)
    requires
        0 <= n <= trees.len(),
    ensures
        Tree::text_paths_upto(trees, n).len() == Tree::texts_upto(trees, n).len(),
    decreases trees, n,
{
    if n > 0 {
        lemma_paths_len_upto(trees, n - 1);
        lemma_paths_len(trees[n - 1]);
    }
}

/// The text with index `k` among the first `n` trees is a text of the tree
/// that owns it, and its path goes through that tree.
pub proof fn lemma_owner(trees: Seq<Tree>, n: int, k: int)
    requires
        0 <= n <= trees.len(),
        0 <= k < Tree::texts_upto(trees, n).len(),
    ensures
        ({
            let i = owner(trees, n, k);
            let j = k - Tree::texts_upto(trees, i).len();
            &&& 0 <= i < n
            &&& 0 <= j < trees[i].texts().len()
            &&& j < trees[i].text_paths().len()
            &&& k < Tree::text_paths_upto(trees, n).len()
            &&& Tree::texts_upto(trees, n)[k] == trees[i].texts()[j]
            &&& Tree::text_paths_upto(trees, n)[k] == seq![i] + trees[i].text_paths()[j]
        }),
    decreases n,
{
    lemma_paths_len_upto(trees, n);
    lemma_paths_len_upto(trees, n - 1);
    lemma_paths_len(trees[n - 1]);
    if k < Tree::texts_upto(trees, n - 1).len() {
        lemma_owner(trees, n - 1, k);
    }
}

/// An id names one node. The `k`-th path of a tree leads to a text node,
/// and the `k`-th text is the text of that node.
pub proof fn law_text_node_at_path(t: Tree, k: int)
    requires
        0 <= k < t.texts().len(),
    ensures
        k < t.text_paths().len(),
        subtree(t, t.text_paths()[k]) matches Some(node) && node.data == (Data::Text {
            contents: t.texts()[k],
        }),
    decreases t,
{
    lemma_paths_len(t);
    if !(t.data is Text) {
        let n = t.children.len() as int;
        lemma_owner(t.children, n, k);
        let i = owner(t.children, n, k);
        let j = k - Tree::texts_upto(t.children, i).len();
        let below = t.children[i].text_paths()[j];
        law_text_node_at_path(t.children[i], j);
        assert((seq![i] + below).drop_first() =~= below);
    }
}

/// A translation lands in its own node. After `new` was written into a
/// tree from `from` on, the node at the `k`-th path holds `new[from + k]`.
pub proof fn law_translation_lands_in_its_node(t: Tree, new: Seq<Seq<char>>, from: int, k: int)
    requires
        0 <= k < t.texts().len(),
    ensures
        k < t.text_paths().len(),
        subtree(t.with_texts(new, from), t.text_paths()[k]) matches Some(node) && node.data == (
        Data::Text { contents: new[from + k] }),
    decreases t,
{
    lemma_paths_len(t);
    if !(t.data is Text) {
        let n = t.children.len() as int;
        lemma_owner(t.children, n, k);
        lemma_with_texts_upto(t.children, n, new, from);
        let i = owner(t.children, n, k);
        let offset = Tree::texts_upto(t.children, i).len() as int;
        let below = t.children[i].text_paths()[k - offset];
        law_translation_lands_in_its_node(t.children[i], new, from + offset, k - offset);
        assert((seq![i] + below).drop_first() =~= below);
    }
}

/// No text that is sent for translation stands inside a `style` element:
/// on the way from the root to a text node that has an id, the text node
/// included, no node is a `style` element.
pub proof fn law_no_style_above_text(t: Tree, k: int, m: int)
    requires
        0 <= k < t.texts().len(),
        k < t.text_paths().len(),
        0 <= m <= t.text_paths()[k].len(),
    ensures
        subtree(t, t.text_paths()[k].take(m)) matches Some(node) && !node.is_style(),
    decreases t,
{
    let path = t.text_paths()[k];
    if m == 0 {
        assert(path.take(0) =~= Seq::<int>::empty());
    } else {
        let n = t.children.len() as int;
        lemma_owner(t.children, n, k);
        let i = owner(t.children, n, k);
        let j = k - Tree::texts_upto(t.children, i).len();
        let below = t.children[i].text_paths()[j];
        law_no_style_above_text(t.children[i], j, m - 1);
        assert((seq![i] + below).take(m).drop_first() =~= below.take(m - 1));
    }
}

/// Following one path and then another is following both in one.
pub proof fn lemma_subtree_split(t: Tree, path: Seq<int>, below: Seq<int>)
    ensures
        subtree(t, path + below) == match subtree(t, path) {
            Some(node) => subtree(node, below),
            None => None,
        },
    decreases path.len(),
{
    if path.len() == 0 {
        assert(path + below =~= below);
    } else {
        assert((path + below).drop_first() =~= path.drop_first() + below);
        if 0 <= path[0] < t.children.len() {
            lemma_subtree_split(t.children[path[0]], path.drop_first(), below);
        }
    }
}

} // verus!
