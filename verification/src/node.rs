//! A directory tree held in memory.

use vstd::prelude::*;
use crate::filter::EntryKind;
use crate::tree::{Branch, Tree};

verus! {

/// A directory tree held in memory: a snapshot of what a file system holds
/// below some directory.
#[derive(Debug, PartialEq, Eq)]
pub enum Node {
    /// A regular file.
    File,
    /// Neither file, directory nor symlink.
    Other,
    /// A symbolic link, with what it points at.
    Symlink(Box<Node>),
    /// A directory that cannot be read.
    Locked,
    /// A directory, with its entries in the order in which it lists them.
    Directory(Vec<Child>),
}

/// A named entry of a directory in memory.
#[derive(Debug, PartialEq, Eq)]
pub struct Child {
    pub name: String,
    pub node: Node,
}

/// The tree that a node stands for.
pub open spec fn tree_of(node: Node) -> Tree
    decreases node,
{
    match node {
        Node::File => Tree::File,
        Node::Other => Tree::Other,
        Node::Symlink(target) => Tree::Symlink(Box::new(tree_of(*target))),
        Node::Locked => Tree::Locked,
        Node::Directory(children) => Tree::Dir(branches_of(children@)),
    }
}

/// The branches that the children of a directory stand for.
pub open spec fn branches_of(children: Seq<Child>) -> Seq<Branch>
    decreases children,
{
    if children.len() == 0 {
        Seq::empty()
    } else {
        branches_of(children.drop_last()).push(
            Branch { name: children.last().name@, tree: tree_of(children.last().node) },
        )
    }
}

impl View for Node {
    type V = Tree;

    open spec fn view(&self) -> Tree {
        tree_of(*self)
    }
}

impl View for Child {
    type V = Branch;

    open spec fn view(&self) -> Branch {
        Branch { name: self.name@, tree: self.node@ }
    }
}

/// The branches of a directory are its children, one for one.
pub proof fn lemma_branches_of(children: Seq<Child>)
    ensures
        branches_of(children).len() == children.len(),
        forall|i: int|
            0 <= i < children.len() ==> #[trigger] branches_of(children)[i] == children[i]@,
    decreases children.len(),
{
    if children.len() > 0 {
        lemma_branches_of(children.drop_last());
    }
}

impl Node {
    /// The kind under which a listing shows this node.
    pub fn kind(&self) -> (kind: EntryKind)
        ensures
            kind == self@.kind(),
    {
        match self {
            Node::File => EntryKind::File,
            Node::Other => EntryKind::Other,
            Node::Symlink(_) => EntryKind::Symlink,
            Node::Locked => EntryKind::Directory,
            Node::Directory(_) => EntryKind::Directory,
        }
    }
}

} // verus!
