//! The document tree of one XHTML file.

use vstd::prelude::*;

verus! {

/// The name of an element or attribute: an optional prefix, a namespace
/// and the local name.
#[derive(Clone, Debug)]
pub struct DomName {
    pub prefix: Option<String>,
    pub ns: String,
    pub local: String,
}

/// One attribute of an element.
#[derive(Clone, Debug)]
pub struct DomAttribute {
    pub name: DomName,
    pub value: String,
}

/// What a node is, apart from its children.
#[allow(inconsistent_fields)]
#[derive(Debug)]
pub enum DomData {
    /// The root of a document.
    Document,
    Doctype { name: String },
    Text { contents: String },
    Comment { contents: String },
    Element { name: DomName, attrs: Vec<DomAttribute> },
    ProcessingInstruction { target: String, contents: String },
}

/// A node of the tree with everything below it.
#[derive(Debug)]
pub struct DomNode {
    pub data: DomData,
    pub children: Vec<DomNode>,
}

/// A name, as the contracts see it.
pub ghost struct Name {
    pub prefix: Option<Seq<char>>,
    pub ns: Seq<char>,
    pub local: Seq<char>,
}

/// An attribute, as the contracts see it.
pub ghost struct Attr {
    pub name: Name,
    pub value: Seq<char>,
}

/// A node's own data, as the contracts see it.
#[allow(inconsistent_fields)]
pub ghost enum Data {
    Document,
    Doctype { name: Seq<char> },
    Text { contents: Seq<char> },
    Comment { contents: Seq<char> },
    Element { name: Name, attrs: Seq<Attr> },
    ProcessingInstruction { target: Seq<char>, contents: Seq<char> },
}

/// A tree, as the contracts see it.
pub ghost struct Tree {
    pub data: Data,
    pub children: Seq<Tree>,
}

impl DomName {
    pub open spec fn view(&self) -> Name {
        Name {
            prefix: match self.prefix {
                Some(p) => Some(p@),
                None => None,
            },
            ns: self.ns@,
            local: self.local@,
        }
    }
}

impl DomAttribute {
    pub open spec fn view(&self) -> Attr {
        Attr { name: self.name@, value: self.value@ }
    }
}

impl DomData {
    pub open spec fn view(&self) -> Data {
        match *self {
            DomData::Document => Data::Document,
            DomData::Doctype { name } => Data::Doctype { name: name@ },
            DomData::Text { contents } => Data::Text { contents: contents@ },
            DomData::Comment { contents } => Data::Comment { contents: contents@ },
            DomData::Element { name, attrs } => Data::Element {
                name: name@,
                attrs: Seq::new(attrs@.len(), |i: int| attrs@[i]@),
            },
            DomData::ProcessingInstruction { target, contents } => Data::ProcessingInstruction {
                target: target@,
                contents: contents@,
            },
        }
    }
}

/// The trees of the first `n` nodes.
pub open spec fn trees_upto(nodes: Seq<DomNode>, n: int) -> Seq<Tree>
    decreases nodes, n,
{
    if 0 < n <= nodes.len() {
        trees_upto(nodes, n - 1).push(nodes[n - 1]@)
    } else {
        Seq::empty()
    }
}

impl DomNode {
    pub open spec fn view(&self) -> Tree
        decreases self,
    {
        Tree { data: self.data@, children: trees_upto(self.children@, self.children@.len() as int) }
    }
}

/// The trees of a list of nodes are the nodes' trees, one for one.
pub proof fn lemma_trees(nodes: Seq<DomNode>, n: int)
    requires
        0 <= n <= nodes.len(),
    ensures
        trees_upto(nodes, n).len() == n,
        forall|i: int| 0 <= i < n ==> #[trigger] trees_upto(nodes, n)[i] == nodes[i]@,
    decreases n,
{
    if n > 0 {
        lemma_trees(nodes, n - 1);
    }
}

impl Tree {
    /// Whether this is a `style` element, whose text is never translated.
    pub open spec fn is_style(self) -> bool {
        self.data matches Data::Element { name, .. } && name.local == "style"@
    }

    /// The texts of the text nodes in this tree, in document order; what
    /// stands inside a `style` element is left out.
    pub open spec fn texts(self) -> Seq<Seq<char>>
        decreases self, 0nat,
    {
        if self.data is Text {
            seq![self.data->Text_contents]
        } else if self.is_style() {
            Seq::empty()
        } else {
            Tree::texts_upto(self.children, self.children.len() as int)
        }
    }

    /// The texts of the text nodes in the first `n` of these trees.
    pub open spec fn texts_upto(trees: Seq<Tree>, n: int) -> Seq<Seq<char>>
        decreases trees, n,
    {
        if 0 < n <= trees.len() {
            Tree::texts_upto(trees, n - 1) + trees[n - 1].texts()
        } else {
            Seq::empty()
        }
    }

    /// Where the text nodes stand whose texts `texts` lists, in the same
    /// order: for each, the child indices that lead to it from this node.
    pub open spec fn text_paths(self) -> Seq<Seq<int>>
        decreases self, 0nat,
    {
        if self.data is Text {
            seq![Seq::empty()]
        } else if self.is_style() {
            Seq::empty()
        } else {
            Tree::text_paths_upto(self.children, self.children.len() as int)
        }
    }

    /// Where the text nodes stand in the first `n` of these trees, each
    /// path beginning with the index of its tree.
    pub open spec fn text_paths_upto(trees: Seq<Tree>, n: int) -> Seq<Seq<int>>
        decreases trees, n,
    {
        if 0 < n <= trees.len() {
            Tree::text_paths_upto(trees, n - 1) + Seq::new(
                trees[n - 1].text_paths().len(),
                |j: int| seq![n - 1] + trees[n - 1].text_paths()[j],
            )
        } else {
            Seq::empty()
        }
    }

    /// This tree with the texts of its text nodes replaced, in document
    /// order, by `new[from]`, `new[from + 1]` and so on. Nothing else
    /// changes, and nothing inside a `style` element.
    pub open spec fn with_texts(self, new: Seq<Seq<char>>, from: int) -> Tree
        decreases self, 0nat,
    {
        if self.data is Text {
            Tree { data: Data::Text { contents: new[from] }, children: self.children }
        } else if self.is_style() {
            self
        } else {
            Tree {
                data: self.data,
                children: Tree::with_texts_upto(
                    self.children,
                    self.children.len() as int,
                    new,
                    from,
                ),
            }
        }
    }

    /// The first `n` of these trees with their texts replaced by those of
    /// `new` from `from` on.
    pub open spec fn with_texts_upto(
        trees: Seq<Tree>,
        n: int,
        new: Seq<Seq<char>>,
        from: int,
    ) -> Seq<Tree>
        decreases trees, n,
    {
        if 0 < n <= trees.len() {
            Tree::with_texts_upto(trees, n - 1, new, from).push(
                trees[n - 1].with_texts(new, from + Tree::texts_upto(trees, n - 1).len()),
            )
        } else {
            Seq::empty()
        }
    }
}

} // verus!
