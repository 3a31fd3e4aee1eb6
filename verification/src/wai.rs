//! A tree of values kept in one list: each node names its parent, its first
//! child and its next sibling by their places in the list.

use vstd::prelude::*;
use vstd::string::StringExecFns;

verus! {

/// One node of the tree.
#[derive(Debug, Default)]
pub struct Node {
    pub next: Option<usize>,
    pub parent: Option<usize>,
    pub child: Option<usize>,
    pub val: String,
}

/// Puts a new node with the value `val` before the children of the node at
/// `parent`, and gives its place.
pub fn push_child(nodes: &mut Vec<Node>, parent: usize, val: &str) -> (r: Option<usize>)
    requires
        parent < old(nodes).len(),
    ensures
        r == Some(old(nodes).len()),
        final(nodes).len() == old(nodes).len() + 1,
        final(nodes)[old(nodes).len() as int].parent == Some(parent),
        final(nodes)[old(nodes).len() as int].child is None,
        final(nodes)[old(nodes).len() as int].next == old(nodes)[parent as int].child,
        final(nodes)[old(nodes).len() as int].val@ == val@,
        final(nodes)[parent as int].child == r,
        final(nodes)[parent as int].next == old(nodes)[parent as int].next,
        final(nodes)[parent as int].parent == old(nodes)[parent as int].parent,
        final(nodes)[parent as int].val == old(nodes)[parent as int].val,
        forall|i: int|
            0 <= i < old(nodes).len() && i != parent ==> final(nodes)[i] == old(nodes)[i],
{
    let place = nodes.len();
    let item = Node {
        parent: Some(parent),
        child: None,
        next: nodes[parent].child,
        val: String::from_str(val),
    };
    nodes.push(item);
    nodes[parent].child = Some(place);
    Some(place)
}

} // verus!
