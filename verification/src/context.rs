//! The declaration that a comment documents, found by looking around the
//! comment in the syntax tree.

use vstd::prelude::*;
use crate::language::NodeFacts;
use crate::priority::is_comment;
use crate::priority::is_comment_kind;
use crate::tree::SyntaxNode;
use crate::tree::SyntaxTree;
use crate::tree::is_prev_sibling;
use crate::tree::lemma_prev_sibling_unique;
use crate::tree::next_sibling_of;
use crate::tree::parent_of;

verus! {

/// The facts speak of the nodes of a tree with `len` nodes.
pub open spec fn facts_fit(facts: Seq<NodeFacts>, len: nat) -> bool {
    &&& facts.len() == len
    &&& forall|i: int|
        0 <= i < facts.len() && (#[trigger] facts[i]).enclosing is Some ==> facts[i].enclosing->0
            < len
}

/// The first node at or after `lo` and before `hi` that forms a block.
pub open spec fn first_acceptable(facts: Seq<NodeFacts>, lo: int, hi: int) -> Option<usize>
    decreases hi - lo,
{
    if lo < 0 || lo >= hi || lo >= facts.len() {
        None
    } else if facts[lo].acceptable {
        Some(lo as usize)
    } else {
        first_acceptable(facts, lo + 1, hi)
    }
}

/// The first descendant of node `i`, in depth-first order, that forms a block.
pub open spec fn acceptable_descendant(
    nodes: Seq<SyntaxNode>,
    facts: Seq<NodeFacts>,
    i: int,
) -> Option<usize> {
    first_acceptable(facts, i + 1, nodes[i].subtree_end as int)
}

/// Node `i` if it forms a block, else its first descendant that does.
pub open spec fn node_or_descendant(
    nodes: Seq<SyntaxNode>,
    facts: Seq<NodeFacts>,
    i: int,
) -> Option<usize> {
    if facts[i].acceptable {
        Some(i as usize)
    } else {
        acceptable_descendant(nodes, facts, i)
    }
}

/// What `first_acceptable` finds is a node in the range that forms a block,
/// and no node of the range before it does.
pub proof fn lemma_first_acceptable(facts: Seq<NodeFacts>, lo: int, hi: int)
    requires
        0 <= lo,
        hi <= facts.len() <= usize::MAX,
    ensures
        match first_acceptable(facts, lo, hi) {
            Some(r) => lo <= r < hi && facts[r as int].acceptable && forall|j: int|
                lo <= j < r ==> !(#[trigger] facts[j]).acceptable,
            None => forall|j: int| lo <= j < hi ==> !(#[trigger] facts[j]).acceptable,
        },
    decreases hi - lo,
{
    if lo < hi && !facts[lo].acceptable {
        lemma_first_acceptable(facts, lo + 1, hi);
    }
}

/// The sibling just before node `i`, if there is one.
pub open spec fn prev_sibling_of(nodes: Seq<SyntaxNode>, i: int) -> Option<usize> {
    if exists|s: int| is_prev_sibling(nodes, s, i) {
        Some((choose|s: int| is_prev_sibling(nodes, s, i)) as usize)
    } else {
        None
    }
}

/// The value of an optional node index.
pub open spec fn opt_index(r: Option<int>) -> Option<usize> {
    match r {
        Some(i) => Some(i as usize),
        None => None,
    }
}

/// Gets the sibling just before a node.
pub fn find_prev_sibling(tree: &SyntaxTree, i: usize) -> (r: Option<usize>)
    requires
        tree.wf(),
        i < tree.nodes@.len(),
    ensures
        r == prev_sibling_of(tree.nodes@, i as int),
        r is Some ==> r->0 < i,
{
    let r = tree.prev_sibling(i);
    proof {
        match r {
            Some(n) => {
                let s = choose|s: int| is_prev_sibling(tree.nodes@, s, i as int);
                lemma_prev_sibling_unique(tree.nodes@, s, n as int, i as int);
            },
            None => {},
        }
    }
    r
}

/// Finds the first descendant of a node, in depth-first order, that forms a block.
pub fn find_acceptable_child(tree: &SyntaxTree, facts: &Vec<NodeFacts>, i: usize) -> (r: Option<
    usize,
>)
    requires
        tree.wf(),
        facts@.len() == tree.nodes@.len(),
        i < tree.nodes@.len(),
    ensures
        r == acceptable_descendant(tree.nodes@, facts@, i as int),
        r is Some ==> r->0 < tree.nodes@.len(),
{
    let end = tree.subtree_end(i);
    let mut j: usize = i + 1;
    while j < end
        invariant
            i < j <= end <= facts@.len(),
            facts@.len() == tree.nodes@.len(),
            end == tree.nodes@[i as int].subtree_end,
            first_acceptable(facts@, i + 1, end as int) == first_acceptable(
                facts@,
                j as int,
                end as int,
            ),
        decreases end - j,
    {
        if facts[j].acceptable {
            return Some(j);
        }
        j += 1;
    }
    None
}

/// Gives the node itself if it forms a block, else its first descendant that does.
pub fn find_node_or_descendant(tree: &SyntaxTree, facts: &Vec<NodeFacts>, i: usize) -> (r: Option<
    usize,
>)
    requires
        tree.wf(),
        facts@.len() == tree.nodes@.len(),
        i < tree.nodes@.len(),
    ensures
        r == node_or_descendant(tree.nodes@, facts@, i as int),
        r is Some ==> r->0 < tree.nodes@.len(),
{
    if facts[i].acceptable {
        Some(i)
    } else {
        find_acceptable_child(tree, facts, i)
    }
}

/// The node that follows node `i` at once: its next sibling, or else the next
/// sibling of its parent.
pub open spec fn immediate_next(nodes: Seq<SyntaxNode>, i: int) -> Option<usize> {
    match next_sibling_of(nodes, i) {
        Some(n) => Some(n as usize),
        None => match nodes[i].parent {
            Some(p) => opt_index(next_sibling_of(nodes, p as int)),
            None => None,
        },
    }
}

/// Finds the node that follows a node at once.
pub fn find_immediate_next_node(tree: &SyntaxTree, i: usize) -> (r: Option<usize>)
    requires
        tree.wf(),
        i < tree.nodes@.len(),
    ensures
        r == immediate_next(tree.nodes@, i as int),
        r is Some ==> r->0 < tree.nodes@.len(),
{
    match tree.next_sibling(i) {
        Some(n) => Some(n),
        None => match tree.parent(i) {
            Some(p) => tree.next_sibling(p),
            None => None,
        },
    }
}

/// The index of an optional sibling, with the number of nodes standing for none.
pub open spec fn sibling_or_end(nodes: Seq<SyntaxNode>, s: Option<int>) -> int {
    match s {
        Some(j) => j,
        None => nodes.len() as int,
    }
}

/// The context that the siblings from node `j` on give to a comment: comments
/// are passed over; the first other sibling that forms a block, or holds a
/// node that does, decides. `j` is the number of nodes where no sibling is left.
pub open spec fn following_context(
    nodes: Seq<SyntaxNode>,
    facts: Seq<NodeFacts>,
    j: int,
) -> Option<usize>
    decreases nodes.len() - j,
{
    if j < 0 || j >= nodes.len() {
        None
    } else {
        let next = sibling_or_end(nodes, next_sibling_of(nodes, j));
        if next <= j || next > nodes.len() {
            None
        } else if is_comment_kind(nodes[j].kind@) {
            following_context(nodes, facts, next)
        } else {
            match node_or_descendant(nodes, facts, j) {
                Some(r) => Some(r),
                None => following_context(nodes, facts, next),
            }
        }
    }
}

/// The context that the sibling before a comment gives to it, where the
/// comment is the last of its siblings.
pub open spec fn preceding_context(
    nodes: Seq<SyntaxNode>,
    facts: Seq<NodeFacts>,
    i: int,
) -> Option<usize> {
    if next_sibling_of(nodes, i) is None {
        match prev_sibling_of(nodes, i) {
            Some(s) => node_or_descendant(nodes, facts, s as int),
            None => None,
        }
    } else {
        None
    }
}

/// The nearest ancestor of node `i` that forms a block.
pub open spec fn nearest_acceptable_ancestor(
    nodes: Seq<SyntaxNode>,
    facts: Seq<NodeFacts>,
    i: int,
) -> Option<usize>
    decreases i,
{
    if 0 < i < nodes.len() {
        let p = parent_of(nodes, i);
        if 0 <= p < i {
            if facts[p].acceptable {
                Some(p as usize)
            } else {
                nearest_acceptable_ancestor(nodes, facts, p)
            }
        } else {
            None
        }
    } else {
        None
    }
}

/// The context that the node after a comment gives to it.
pub open spec fn next_node_context(
    nodes: Seq<SyntaxNode>,
    facts: Seq<NodeFacts>,
    i: int,
) -> Option<usize> {
    match immediate_next(nodes, i) {
        Some(n) => node_or_descendant(nodes, facts, n as int),
        None => None,
    }
}

/// The declaration that the comment at node `i` documents. Four ways are
/// tried in turn and the first that finds a node decides: the siblings after
/// the comment; the sibling before it, where none follows; the ancestors; the
/// node that follows at once.
pub open spec fn comment_context(nodes: Seq<SyntaxNode>, facts: Seq<NodeFacts>, i: int) -> Option<
    usize,
> {
    match following_context(nodes, facts, sibling_or_end(nodes, next_sibling_of(nodes, i))) {
        Some(r) => Some(r),
        None => match preceding_context(nodes, facts, i) {
            Some(r) => Some(r),
            None => match nearest_acceptable_ancestor(nodes, facts, i) {
                Some(r) => Some(r),
                None => next_node_context(nodes, facts, i),
            },
        },
    }
}

/// Finds the nearest ancestor of a node that forms a block.
pub fn find_acceptable_ancestor(tree: &SyntaxTree, facts: &Vec<NodeFacts>, i: usize) -> (r: Option<
    usize,
>)
    requires
        tree.wf(),
        facts@.len() == tree.nodes@.len(),
        i < tree.nodes@.len(),
    ensures
        r == nearest_acceptable_ancestor(tree.nodes@, facts@, i as int),
        r is Some ==> r->0 < i,
{
    let mut cur: usize = i;
    loop
        invariant
            tree.wf(),
            facts@.len() == tree.nodes@.len(),
            cur <= i < tree.nodes@.len(),
            nearest_acceptable_ancestor(tree.nodes@, facts@, i as int)
                == nearest_acceptable_ancestor(tree.nodes@, facts@, cur as int),
        decreases cur,
    {
        match tree.parent(cur) {
            None => {
                return None;
            },
            Some(p) => {
                assert(parent_of(tree.nodes@, cur as int) == p);
                if facts[p].acceptable {
                    return Some(p);
                }
                cur = p;
            },
        }
    }
}

/// Finds the context that the siblings after a comment give to it.
fn find_following_context(tree: &SyntaxTree, facts: &Vec<NodeFacts>, i: usize) -> (r: Option<usize>)
    requires
        tree.wf(),
        facts@.len() == tree.nodes@.len(),
        i < tree.nodes@.len(),
    ensures
        r == following_context(
            tree.nodes@,
            facts@,
            sibling_or_end(tree.nodes@, next_sibling_of(tree.nodes@, i as int)),
        ),
        r is Some ==> r->0 < tree.nodes@.len(),
{
    let ghost start = sibling_or_end(tree.nodes@, next_sibling_of(tree.nodes@, i as int));
    let mut current: usize = match tree.next_sibling(i) {
        Some(n) => n,
        None => tree.nodes.len(),
    };
    while current < tree.nodes.len()
        invariant
            tree.wf(),
            facts@.len() == tree.nodes@.len(),
            current <= tree.nodes@.len(),
            start == sibling_or_end(tree.nodes@, next_sibling_of(tree.nodes@, i as int)),
            following_context(tree.nodes@, facts@, start) == following_context(
                tree.nodes@,
                facts@,
                current as int,
            ),
        decreases tree.nodes@.len() - current,
    {
        let next: usize = match tree.next_sibling(current) {
            Some(n) => n,
            None => tree.nodes.len(),
        };
        if !is_comment(tree.nodes[current].kind.as_str()) {
            match find_node_or_descendant(tree, facts, current) {
                Some(found) => {
                    return Some(found);
                },
                None => {},
            }
        }
        current = next;
    }
    None
}

/// Finds the declaration that a comment documents.
pub fn find_comment_context_node(tree: &SyntaxTree, facts: &Vec<NodeFacts>, comment: usize) -> (r:
    Option<usize>)
    requires
        tree.wf(),
        facts@.len() == tree.nodes@.len(),
        comment < tree.nodes@.len(),
    ensures
        r == comment_context(tree.nodes@, facts@, comment as int),
        r is Some ==> r->0 < tree.nodes@.len(),
{
    match find_following_context(tree, facts, comment) {
        Some(found) => {
            return Some(found);
        },
        None => {},
    }
    if tree.next_sibling(comment).is_none() {
        match find_prev_sibling(tree, comment) {
            Some(prev) => {
                match find_node_or_descendant(tree, facts, prev) {
                    Some(found) => {
                        return Some(found);
                    },
                    None => {},
                }
            },
            None => {},
        }
    }
    match find_acceptable_ancestor(tree, facts, comment) {
        Some(found) => {
            return Some(found);
        },
        None => {},
    }
    match find_immediate_next_node(tree, comment) {
        Some(next) => find_node_or_descendant(tree, facts, next),
        None => None,
    }
}

} // verus!
