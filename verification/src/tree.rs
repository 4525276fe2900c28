//! The generic tree that an index document is parsed into.

use crate::text::texts;
use vstd::prelude::*;

verus! {

/// A node of a parsed document.
#[derive(Debug, PartialEq, Eq)]
pub enum Node {
    /// A scalar that is a string.
    Text(String),
    /// A sequence of nodes.
    List(Vec<Node>),
    /// A mapping, as its entries in the order of the document.
    Table(Vec<Entry>),
    /// The null scalar.
    Null,
    /// Any other scalar: a number, a boolean, an alias, a value that the
    /// parser could not make sense of.
    Other,
}

/// An entry of a mapping.
#[derive(Debug, PartialEq, Eq)]
pub struct Entry {
    pub key: Node,
    pub value: Node,
}

/// What a `Node` holds, as a mathematical value.
pub enum Tree {
    Text(Seq<char>),
    List(Seq<Tree>),
    Table(Seq<Pair>),
    Null,
    Other,
}

/// An entry of a mapping, as a mathematical value.
pub struct Pair {
    pub key: Tree,
    pub value: Tree,
}

impl View for Node {
    type V = Tree;

    open spec fn view(&self) -> Tree
        decreases self,
    {
        match self {
            Node::Text(s) => Tree::Text(s@),
            Node::List(items) => Tree::List(
                Seq::new(
                    items@.len(),
                    |i: int|
                        if 0 <= i < items@.len() {
                            items@[i].view()
                        } else {
                            Tree::Null
                        },
                ),
            ),
            Node::Table(entries) => Tree::Table(
                Seq::new(
                    entries@.len(),
                    |i: int|
                        if 0 <= i < entries@.len() {
                            Pair { key: entries@[i].key.view(), value: entries@[i].value.view() }
                        } else {
                            Pair { key: Tree::Null, value: Tree::Null }
                        },
                ),
            ),
            Node::Null => Tree::Null,
            Node::Other => Tree::Other,
        }
    }
}

/// The views of a sequence of nodes.
pub open spec fn trees(nodes: Seq<Node>) -> Seq<Tree> {
    nodes.map_values(|n: Node| n@)
}

/// The view of a list is the list of the views of its items.
pub proof fn lemma_view_of_list(items: Vec<Node>)
    ensures
        Node::List(items)@ == Tree::List(trees(items@)),
{
    assert(Node::List(items)@->List_0 =~= trees(items@));
}

/// The views of the entries of a mapping.
pub open spec fn pairs(entries: Seq<Entry>) -> Seq<Pair> {
    entries.map_values(|entry: Entry| Pair { key: entry.key@, value: entry.value@ })
}

/// The view of a mapping is the sequence of the views of its entries.
pub proof fn lemma_view_of_table(entries: Vec<Entry>)
    ensures
        Node::Table(entries)@ == Tree::Table(pairs(entries@)),
{
    assert(Node::Table(entries)@->Table_0 =~= pairs(entries@));
}

/// The string that `tree` is, if it is one.
pub open spec fn text_in(tree: Tree) -> Option<Seq<char>> {
    match tree {
        Tree::Text(s) => Some(s),
        _ => None,
    }
}

/// The strings among `items`, in their order. What is no string is left out.
pub open spec fn strings_in(items: Seq<Tree>) -> Seq<Seq<char>>
    decreases items.len(),
{
    if items.len() == 0 {
        Seq::empty()
    } else {
        let before = strings_in(items.drop_last());
        match text_in(items.last()) {
            Some(s) => before.push(s),
            None => before,
        }
    }
}

/// The strings among `items`, in their order.
pub fn strings_of(items: &Vec<Node>) -> (out: Vec<String>)
    ensures
        texts(out@) == strings_in(trees(items@)),
{
    let mut out: Vec<String> = Vec::new();
    let mut i: usize = 0;
    let ghost all = trees(items@);
    proof {
        assert(texts(out@) =~= strings_in(all.take(0)));
    }
    while i < items.len()
        invariant
            i <= items.len(),
            all == trees(items@),
            texts(out@) == strings_in(all.take(i as int)),
        decreases items.len() - i,
    {
        proof {
            assert(all.take(i + 1).drop_last() =~= all.take(i as int));
            assert(all.take(i + 1).last() == items@[i as int]@);
        }
        match &items[i] {
            Node::Text(s) => {
                let copy = s.clone();
                proof {
                    assert(texts(out@.push(copy)) =~= texts(out@).push(copy@));
                }
                out.push(copy);
            },
            _ => {},
        }
        i += 1;
    }
    proof {
        assert(all.take(items@.len() as int) =~= all);
    }
    out
}

} // verus!
