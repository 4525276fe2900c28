//! The classpath index: the archive members that make up the classpath, in
//! the order in which they are loaded.

use crate::index::IndexError;
use crate::text::texts;
use crate::tree::{strings_in, strings_of, Node, Tree};
use vstd::prelude::*;

verus! {

/// The classpath that `tree` lists: its strings, in their order. What is no
/// string is left out; a tree that is no sequence lists nothing and fails.
pub open spec fn classpath_of(tree: Tree) -> Result<Seq<Seq<char>>, IndexError> {
    match tree {
        Tree::List(items) => Ok(strings_in(items)),
        _ => Err(IndexError::ExpectedSequence),
    }
}

/// The entries of the classpath index `tree`, in the order of the index.
pub fn classpath_entries(tree: &Node) -> (r: Result<Vec<String>, IndexError>)
    ensures
        match r {
            Ok(entries) => classpath_of(tree@) == Ok::<Seq<Seq<char>>, IndexError>(
                texts(entries@),
            ),
            Err(e) => classpath_of(tree@) == Err::<Seq<Seq<char>>, IndexError>(e),
        },
{
    match tree {
        Node::List(items) => {
            proof {
                crate::tree::lemma_view_of_list(*items);
            }
            Ok(strings_of(items))
        },
        _ => Err(IndexError::ExpectedSequence),
    }
}

} // verus!
