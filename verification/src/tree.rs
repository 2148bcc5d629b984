//! A syntax tree held as plain values: the nodes in depth-first order, each
//! with its kind, its byte and row range, its parent and the end of its subtree.

use vstd::prelude::*;

verus! {

/// One node of a syntax tree.
pub struct SyntaxNode {
    /// The node's kind, as the grammar names it.
    pub kind: String,
    pub start_byte: usize,
    pub end_byte: usize,
    pub start_row: usize,
    pub end_row: usize,
    /// The index of the parent; none for the root.
    pub parent: Option<usize>,
    /// The index one past the node's last descendant. While a tree is being
    /// built, 0 marks a node whose subtree is still open.
    pub subtree_end: usize,
}

/// A syntax tree: its nodes in depth-first order, parents before children and
/// children in source order.
pub struct SyntaxTree {
    pub nodes: Vec<SyntaxNode>,
}

impl Clone for SyntaxNode {
    fn clone(&self) -> (r: Self)
        ensures
            r == *self,
    {
        SyntaxNode {
            kind: self.kind.clone(),
            start_byte: self.start_byte,
            end_byte: self.end_byte,
            start_row: self.start_row,
            end_row: self.end_row,
            parent: self.parent,
            subtree_end: self.subtree_end,
        }
    }
}

impl Clone for SyntaxTree {
    fn clone(&self) -> (r: Self)
        ensures
            r.nodes@ == self.nodes@,
    {
        let mut nodes: Vec<SyntaxNode> = Vec::new();
        let mut i: usize = 0;
        while i < self.nodes.len()
            invariant
                i <= self.nodes@.len(),
                nodes@ == self.nodes@.take(i as int),
            decreases self.nodes@.len() - i,
        {
            nodes.push(self.nodes[i].clone());
            assert(nodes@ =~= self.nodes@.take(i + 1));
            i += 1;
        }
        assert(self.nodes@.take(i as int) =~= self.nodes@);
        SyntaxTree { nodes }
    }
}

/// `a` comes no later than `b` in source order: by first byte, then by last.
pub open spec fn byte_ordered(a: SyntaxNode, b: SyntaxNode) -> bool {
    a.start_byte < b.start_byte || (a.start_byte == b.start_byte && a.end_byte <= b.end_byte)
}

/// The index of the parent of node `i`, or -1 for a node without one.
pub open spec fn parent_of(nodes: Seq<SyntaxNode>, i: int) -> int {
    match nodes[i].parent {
        Some(p) => p as int,
        None => -1,
    }
}

/// The nodes form a tree in depth-first order when `ends` gives the end of
/// each subtree: the first node is the only root; a parent comes before its
/// children and its subtree holds theirs; the nodes between a node and the end
/// of its subtree are its descendants; and siblings stand in source order.
#[verifier::opaque]
pub open spec fn well_formed(nodes: Seq<SyntaxNode>, ends: Seq<int>) -> bool {
    &&& ends.len() == nodes.len()
    &&& forall|i: int|
        0 <= i < nodes.len() ==> (if i == 0 {
            (#[trigger] nodes[i]).parent is None
        } else {
            nodes[i].parent is Some && parent_of(nodes, i) < i
        })
    &&& forall|i: int| 0 <= i < nodes.len() ==> i < #[trigger] ends[i] <= nodes.len()
    &&& forall|i: int| 0 < i < nodes.len() ==> #[trigger] ends[i] <= ends[parent_of(nodes, i)]
    &&& forall|i: int, j: int|
        #![trigger ends[i], nodes[j]]
        0 <= i < j < ends[i] && j < nodes.len() ==> parent_of(nodes, j) >= i && ends[j] <= ends[i]
    &&& forall|i: int|
        0 < i < nodes.len() && (#[trigger] ends[i]) < ends[parent_of(nodes, i)] ==> byte_ordered(
            nodes[i],
            nodes[ends[i]],
        )
}

/// The subtree ends that the nodes themselves record.
pub open spec fn recorded_ends(nodes: Seq<SyntaxNode>) -> Seq<int> {
    Seq::new(nodes.len(), |i: int| nodes[i].subtree_end as int)
}

/// The next sibling of node `i`: the node that follows its subtree, where that
/// node is still inside the parent's subtree.
pub open spec fn next_sibling_of(nodes: Seq<SyntaxNode>, i: int) -> Option<int> {
    match nodes[i].parent {
        Some(p) => if nodes[i].subtree_end < nodes[p as int].subtree_end {
            Some(nodes[i].subtree_end as int)
        } else {
            None
        },
        None => None,
    }
}

/// Node `s` is the sibling just before node `i`.
pub open spec fn is_prev_sibling(nodes: Seq<SyntaxNode>, s: int, i: int) -> bool {
    &&& 0 <= s < i < nodes.len()
    &&& nodes[i].parent is Some
    &&& nodes[s].parent == nodes[i].parent
    &&& nodes[s].subtree_end == i
}

/// The node that follows the subtree of a child, inside the parent's subtree,
/// is a child of the same parent.
pub proof fn lemma_next_sibling_parent(nodes: Seq<SyntaxNode>, ends: Seq<int>, c: int)
    requires
        well_formed(nodes, ends),
        0 < c < nodes.len(),
        ends[c] < ends[parent_of(nodes, c)],
    ensures
        c < ends[c] < nodes.len(),
        parent_of(nodes, ends[c]) == parent_of(nodes, c),
{
    reveal(well_formed);
    let p = parent_of(nodes, c);
    let j = ends[c];
    assert(0 <= p < c);
    assert(c < ends[c]);
    assert(ends[p] <= nodes.len());
    assert(p < j < ends[p] && j < nodes.len());
    assert(nodes[j] == nodes[j]);
    assert(parent_of(nodes, j) >= p);
    let q = parent_of(nodes, j);
    assert(q < j);
    assert(j < ends[j]);
    assert(ends[j] <= ends[q]);
    if q > p {
        if q == c {
        } else if q > c {
            assert(nodes[q] == nodes[q]);
            assert(ends[q] <= ends[c]);
        } else {
            assert(q < ends[q]);
            if ends[q] > c {
                assert(nodes[c] == nodes[c]);
                assert(parent_of(nodes, c) >= q);
            }
        }
    }
}

/// Every node but the first has a parent, and the parent comes before it; the
/// subtree of a node ends after the node, within the tree and within the
/// subtree of the parent.
pub proof fn lemma_links(nodes: Seq<SyntaxNode>, ends: Seq<int>, i: int)
    requires
        well_formed(nodes, ends),
        0 <= i < nodes.len(),
    ensures
        ends.len() == nodes.len(),
        i == 0 ==> nodes[i].parent is None,
        i > 0 ==> nodes[i].parent is Some && 0 <= parent_of(nodes, i) < i && ends[i] <= ends[parent_of(
            nodes,
            i,
        )],
        i < ends[i] <= nodes.len(),
{
    reveal(well_formed);
}

/// A node between another node and the end of its subtree is a descendant: its
/// parent is that node or comes after it, and its subtree ends within the other.
pub proof fn lemma_inside(nodes: Seq<SyntaxNode>, ends: Seq<int>, i: int, j: int)
    requires
        well_formed(nodes, ends),
        0 <= i < j < ends[i],
        i < nodes.len(),
    ensures
        j < nodes.len(),
        i <= parent_of(nodes, j) < j,
        ends[j] <= ends[i],
{
    reveal(well_formed);
    assert(ends[i] <= nodes.len());
    assert(nodes[j] == nodes[j]);
}

/// The subtree of the root holds every node.
pub proof fn lemma_root_spans(nodes: Seq<SyntaxNode>, ends: Seq<int>, i: int)
    requires
        well_formed(nodes, ends),
        0 <= i < nodes.len(),
    ensures
        i < ends[0],
    decreases i,
{
    reveal(well_formed);
    if i > 0 {
        let p = parent_of(nodes, i);
        assert(0 <= p < i);
        lemma_root_spans(nodes, ends, p);
        assert(i < ends[i]);
        assert(ends[i] <= ends[p]);
        if p > 0 {
            assert(nodes[p] == nodes[p]);
            assert(ends[p] <= ends[0]);
        }
    }
}

/// At most one node is the sibling just before a node.
pub proof fn lemma_prev_sibling_unique(nodes: Seq<SyntaxNode>, s: int, t: int, i: int)
    requires
        well_formed(nodes, recorded_ends(nodes)),
        is_prev_sibling(nodes, s, i),
        is_prev_sibling(nodes, t, i),
    ensures
        s == t,
{
    reveal(well_formed);
    let ends = recorded_ends(nodes);
    if s < t {
        assert(ends[s] == i);
        assert(nodes[t] == nodes[t]);
        assert(parent_of(nodes, t) >= s);
        assert(parent_of(nodes, s) < s);
    } else if t < s {
        assert(ends[t] == i);
        assert(nodes[s] == nodes[s]);
        assert(parent_of(nodes, s) >= t);
        assert(parent_of(nodes, t) < t);
    }
}

/// The nodes form a well-formed tree, by the subtree ends they record.
pub open spec fn is_tree(nodes: Seq<SyntaxNode>) -> bool {
    nodes.len() <= usize::MAX && well_formed(nodes, recorded_ends(nodes))
}

impl SyntaxTree {
    /// The tree is well formed.
    pub open spec fn wf(&self) -> bool {
        is_tree(self.nodes@)
    }

    /// The number of nodes.
    pub fn len(&self) -> (n: usize)
        ensures
            n == self.nodes@.len(),
    {
        self.nodes.len()
    }

    /// The parent of a node.
    pub fn parent(&self, i: usize) -> (p: Option<usize>)
        requires
            self.wf(),
            i < self.nodes@.len(),
        ensures
            p == self.nodes@[i as int].parent,
            p is Some ==> p->0 < i,
            p is Some == (i > 0),
    {
        proof {
            reveal(well_formed);
        }
        let p = self.nodes[i].parent;
        proof {
            if i > 0 {
                assert(parent_of(self.nodes@, i as int) < i);
            }
        }
        p
    }

    /// The end of the subtree of a node.
    pub fn subtree_end(&self, i: usize) -> (e: usize)
        requires
            self.wf(),
            i < self.nodes@.len(),
        ensures
            e == self.nodes@[i as int].subtree_end,
            i < e <= self.nodes@.len(),
    {
        proof {
            reveal(well_formed);
        }
        assert(recorded_ends(self.nodes@)[i as int] == self.nodes@[i as int].subtree_end);
        self.nodes[i].subtree_end
    }

    /// The next sibling of a node.
    pub fn next_sibling(&self, i: usize) -> (s: Option<usize>)
        requires
            self.wf(),
            i < self.nodes@.len(),
        ensures
            match s {
                Some(n) => next_sibling_of(self.nodes@, i as int) == Some(n as int) && i < n
                    < self.nodes@.len() && self.nodes@[n as int].parent
                    == self.nodes@[i as int].parent,
                None => next_sibling_of(self.nodes@, i as int) is None,
            },
    {
        proof {
            reveal(well_formed);
        }
        let ghost nodes = self.nodes@;
        let ghost ends = recorded_ends(nodes);
        match self.nodes[i].parent {
            Some(p) => {
                proof {
                    assert(ends[i as int] == nodes[i as int].subtree_end);
                    assert(parent_of(nodes, i as int) == p);
                    assert(p < i);
                    assert(ends[p as int] == nodes[p as int].subtree_end);
                }
                let end = self.nodes[i].subtree_end;
                if end < self.nodes[p].subtree_end {
                    proof {
                        lemma_next_sibling_parent(nodes, ends, i as int);
                    }
                    Some(end)
                } else {
                    None
                }
            },
            None => None,
        }
    }

    /// The sibling just before a node.
    pub fn prev_sibling(&self, i: usize) -> (s: Option<usize>)
        requires
            self.wf(),
            i < self.nodes@.len(),
        ensures
            match s {
                Some(n) => is_prev_sibling(self.nodes@, n as int, i as int),
                None => forall|n: int| !is_prev_sibling(self.nodes@, n, i as int),
            },
    {
        proof {
            reveal(well_formed);
        }
        let ghost nodes = self.nodes@;
        let ghost ends = recorded_ends(nodes);
        match self.nodes[i].parent {
            None => None,
            Some(p) => {
                proof {
                    assert(parent_of(nodes, i as int) == p);
                    assert(p < i);
                    assert(ends[i as int] <= ends[p as int]);
                    assert(i < ends[i as int]);
                }
                let mut c: usize = p + 1;
                if c == i {
                    proof {
                        assert forall|n: int| !is_prev_sibling(nodes, n, i as int) by {
                            if is_prev_sibling(nodes, n, i as int) {
                                assert(parent_of(nodes, n) == p);
                                assert(parent_of(nodes, n) < n);
                            }
                        }
                    }
                    return None;
                }
                proof {
                    assert(nodes[c as int] == nodes[c as int]);
                    assert(0 <= p < c < ends[p as int]);
                    assert(parent_of(nodes, c as int) >= p);
                    assert(parent_of(nodes, c as int) < c);
                }
                while self.nodes[c].subtree_end != i
                    invariant
                        self.wf(),
                        nodes == self.nodes@,
                        ends == recorded_ends(nodes),
                        p < c < i < nodes.len(),
                        nodes[i as int].parent == Some(p),
                        nodes[c as int].parent == Some(p),
                        i < ends[p as int],
                    decreases i - c,
                {
                    proof {
                        assert(ends[c as int] == nodes[c as int].subtree_end);
                        lemma_links(nodes, ends, c as int);
                        if ends[c as int] > i {
                            lemma_inside(nodes, ends, c as int, i as int);
                        }
                        assert(parent_of(nodes, c as int) == p);
                        lemma_next_sibling_parent(nodes, ends, c as int);
                    }
                    c = self.nodes[c].subtree_end;
                }
                Some(c)
            },
        }
    }
}

/// The node at index `i` is still open: its subtree may still grow.
pub open spec fn is_open(nodes: Seq<SyntaxNode>, i: int) -> bool {
    nodes[i].subtree_end == 0
}

/// The subtree ends of a tree under construction: an open subtree reaches to
/// the last node added.
pub open spec fn growing_ends(nodes: Seq<SyntaxNode>) -> Seq<int> {
    Seq::new(
        nodes.len(),
        |i: int|
            if is_open(nodes, i) {
                nodes.len() as int
            } else {
                nodes[i].subtree_end as int
            },
    )
}

/// The stack lists the open nodes from the root down, each the parent of the next.
pub open spec fn stack_ok(nodes: Seq<SyntaxNode>, open: Seq<usize>) -> bool {
    &&& forall|k: int|
        0 <= k < open.len() ==> (#[trigger] open[k]) < nodes.len() && is_open(nodes, open[k] as int)
    &&& forall|i: int|
        0 <= i < nodes.len() && is_open(nodes, i) ==> exists|k: int|
            0 <= k < open.len() && #[trigger] open[k] == i
    &&& forall|k: int|
        0 < k < open.len() ==> (#[trigger] nodes[open[k] as int]).parent == Some(open[k - 1])
    &&& open.len() > 0 ==> open[0] == 0
}

/// No open node lies inside the subtree of a closed one.
pub open spec fn apart_ok(nodes: Seq<SyntaxNode>) -> bool {
    forall|c: int, o: int|
        #![trigger nodes[c], nodes[o]]
        0 <= c < o < nodes.len() && !is_open(nodes, c) && is_open(nodes, o) ==> o
            >= nodes[c].subtree_end
}

/// The node closed last ends at the last node added and is a child of the
/// innermost open node, or the root if none is open.
pub open spec fn last_ok(nodes: Seq<SyntaxNode>, open: Seq<usize>, last: Option<usize>) -> bool {
    match last {
        Some(c) => {
            &&& c < nodes.len()
            &&& !is_open(nodes, c as int)
            &&& nodes[c as int].subtree_end == nodes.len()
            &&& if open.len() > 0 {
                nodes[c as int].parent == Some(open[open.len() - 1])
            } else {
                c == 0
            }
        },
        None => open.len() > 0 || nodes.len() == 0,
    }
}

/// A closed child of an open node ends before the last node added, unless it
/// is the node closed last.
pub open spec fn pending_ok(nodes: Seq<SyntaxNode>, last: Option<usize>) -> bool {
    forall|i: int|
        0 < i < nodes.len() && !is_open(nodes, i) && is_open(nodes, parent_of(nodes, i)) ==> (
        #[trigger] nodes[i]).subtree_end < nodes.len() || last == Some(i as usize)
}

/// The state of a tree under construction.
pub open spec fn building(nodes: Seq<SyntaxNode>, open: Seq<usize>, last: Option<usize>) -> bool {
    &&& well_formed(nodes, growing_ends(nodes))
    &&& stack_ok(nodes, open)
    &&& apart_ok(nodes)
    &&& last_ok(nodes, open, last)
    &&& pending_ok(nodes, last)
}

/// A node may be added: there is an open node to hold it, or no node yet; it
/// records that node as its parent; and it does not come before the sibling
/// that was closed last.
pub open spec fn fits(
    nodes: Seq<SyntaxNode>,
    open: Seq<usize>,
    last: Option<usize>,
    node: SyntaxNode,
) -> bool {
    &&& node.subtree_end == 0
    &&& if open.len() > 0 {
        node.parent == Some(open[open.len() - 1])
    } else {
        nodes.len() == 0 && node.parent is None
    }
    &&& match last {
        Some(c) => byte_ordered(nodes[c as int], node),
        None => true,
    }
}

/// The open nodes stand on the stack in ascending order.
pub proof fn lemma_stack_increasing(nodes: Seq<SyntaxNode>, open: Seq<usize>, a: int, b: int)
    requires
        well_formed(nodes, growing_ends(nodes)),
        stack_ok(nodes, open),
        0 <= a <= b < open.len(),
    ensures
        open[a] <= open[b],
        a < b ==> open[a] < open[b],
    decreases b - a,
{
    reveal(well_formed);
    if a < b {
        lemma_stack_increasing(nodes, open, a, b - 1);
        assert(nodes[open[b] as int].parent == Some(open[b - 1]));
        let i = open[b] as int;
        if i == 0 {
            assert(nodes[i].parent is None);
        } else {
            assert(parent_of(nodes, i) < i);
        }
    }
}

/// An open node other than the root has an open parent.
pub proof fn lemma_open_parent(nodes: Seq<SyntaxNode>, open: Seq<usize>, i: int)
    requires
        well_formed(nodes, growing_ends(nodes)),
        stack_ok(nodes, open),
        0 < i < nodes.len(),
        is_open(nodes, i),
    ensures
        0 <= parent_of(nodes, i) < i,
        is_open(nodes, parent_of(nodes, i)),
{
    reveal(well_formed);
    let k = choose|k: int| 0 <= k < open.len() && #[trigger] open[k] == i;
    assert(k > 0);
    assert(nodes[open[k] as int].parent == Some(open[k - 1]));
    assert(is_open(nodes, open[k - 1] as int));
    assert(parent_of(nodes, i) < i);
}

/// Every open node is at or before the innermost open node.
pub proof fn lemma_open_below_top(nodes: Seq<SyntaxNode>, open: Seq<usize>, i: int)
    requires
        well_formed(nodes, growing_ends(nodes)),
        stack_ok(nodes, open),
        0 <= i < nodes.len(),
        is_open(nodes, i),
    ensures
        open.len() > 0,
        i <= open[open.len() - 1],
{
    let k = choose|k: int| 0 <= k < open.len() && #[trigger] open[k] == i;
    lemma_stack_increasing(nodes, open, k, open.len() - 1);
}

proof fn lemma_add_ends(nodes: Seq<SyntaxNode>, node: SyntaxNode)
    requires
        node.subtree_end == 0,
    ensures
        growing_ends(nodes.push(node)).len() == nodes.len() + 1,
        growing_ends(nodes.push(node))[nodes.len() as int] == nodes.len() + 1,
        forall|i: int|
            0 <= i < nodes.len() ==> #[trigger] growing_ends(nodes.push(node))[i] == growing_ends(
                nodes,
            )[i] + if is_open(nodes, i) {
                1int
            } else {
                0int
            },
        forall|i: int| 0 <= i < nodes.len() ==> #[trigger] nodes.push(node)[i] == nodes[i],
        forall|i: int|
            0 <= i < nodes.len() ==> #[trigger] parent_of(nodes.push(node), i) == parent_of(nodes, i),
{
}

proof fn lemma_add_links(
    nodes: Seq<SyntaxNode>,
    open: Seq<usize>,
    last: Option<usize>,
    node: SyntaxNode,
)
    requires
        building(nodes, open, last),
        fits(nodes, open, last, node),
    ensures
        ({
            let nodes1 = nodes.push(node);
            let ends1 = growing_ends(nodes1);
            &&& forall|i: int|
                0 <= i < nodes1.len() ==> (if i == 0 {
                    (#[trigger] nodes1[i]).parent is None
                } else {
                    nodes1[i].parent is Some && parent_of(nodes1, i) < i
                })
            &&& forall|i: int| 0 <= i < nodes1.len() ==> i < #[trigger] ends1[i] <= nodes1.len()
            &&& forall|i: int|
                0 < i < nodes1.len() ==> #[trigger] ends1[i] <= ends1[parent_of(nodes1, i)]
        }),
{
    reveal(well_formed);
    let n = nodes.len() as int;
    let nodes1 = nodes.push(node);
    let ends0 = growing_ends(nodes);
    let ends1 = growing_ends(nodes1);
    lemma_add_ends(nodes, node);
    assert forall|i: int| 0 <= i < nodes1.len() implies (if i == 0 {
        (#[trigger] nodes1[i]).parent is None
    } else {
        nodes1[i].parent is Some && parent_of(nodes1, i) < i
    }) by {
        if i < n {
            assert(nodes1[i] == nodes[i]);
            assert(nodes[i] == nodes[i]);
        } else if open.len() > 0 {
            assert(open[open.len() - 1] < nodes.len());
        }
    }
    assert forall|i: int| 0 <= i < nodes1.len() implies i < #[trigger] ends1[i]
        <= nodes1.len() by {
        if i < n {
            assert(i < ends0[i] <= nodes.len());
        }
    }
    assert forall|i: int| 0 < i < nodes1.len() implies #[trigger] ends1[i] <= ends1[parent_of(
        nodes1,
        i,
    )] by {
        if i < n {
            let p = parent_of(nodes, i);
            assert(parent_of(nodes1, i) == p);
            assert(nodes[i] == nodes[i]);
            assert(0 <= p < i);
            assert(ends0[i] <= ends0[p]);
            if is_open(nodes, i) {
                lemma_open_parent(nodes, open, i);
            }
        } else {
            let p = open[open.len() - 1] as int;
            assert(is_open(nodes, p));
            assert(parent_of(nodes1, i) == p);
        }
    }
}

proof fn lemma_add_nesting(
    nodes: Seq<SyntaxNode>,
    open: Seq<usize>,
    last: Option<usize>,
    node: SyntaxNode,
)
    requires
        building(nodes, open, last),
        fits(nodes, open, last, node),
    ensures
        ({
            let nodes1 = nodes.push(node);
            let ends1 = growing_ends(nodes1);
            forall|i: int, j: int|
                #![trigger ends1[i], nodes1[j]]
                0 <= i < j < ends1[i] && j < nodes1.len() ==> parent_of(nodes1, j) >= i
                    && ends1[j] <= ends1[i]
        }),
{
    reveal(well_formed);
    let n = nodes.len() as int;
    let nodes1 = nodes.push(node);
    let ends0 = growing_ends(nodes);
    let ends1 = growing_ends(nodes1);
    lemma_add_ends(nodes, node);
    assert forall|i: int, j: int|
        #![trigger ends1[i], nodes1[j]]
        0 <= i < j < ends1[i] && j < nodes1.len() implies parent_of(nodes1, j) >= i && ends1[j]
        <= ends1[i] by {
        if j < n {
            assert(ends0[i] <= nodes.len());
            assert(0 <= i < j < ends0[i]);
            assert(nodes[j] == nodes[j]);
            assert(parent_of(nodes, j) >= i && ends0[j] <= ends0[i]);
            assert(parent_of(nodes1, j) == parent_of(nodes, j));
            if is_open(nodes, j) && !is_open(nodes, i) {
                assert(nodes[i] == nodes[i]);
                assert(j >= nodes[i].subtree_end);
            }
        } else {
            assert(ends0[i] <= nodes.len());
            assert(is_open(nodes, i));
            lemma_open_below_top(nodes, open, i);
        }
    }
}

proof fn lemma_add_order(
    nodes: Seq<SyntaxNode>,
    open: Seq<usize>,
    last: Option<usize>,
    node: SyntaxNode,
)
    requires
        building(nodes, open, last),
        fits(nodes, open, last, node),
    ensures
        ({
            let nodes1 = nodes.push(node);
            let ends1 = growing_ends(nodes1);
            forall|i: int|
                0 < i < nodes1.len() && (#[trigger] ends1[i]) < ends1[parent_of(nodes1, i)]
                    ==> byte_ordered(nodes1[i], nodes1[ends1[i]])
        }),
{
    reveal(well_formed);
    let n = nodes.len() as int;
    let nodes1 = nodes.push(node);
    let ends0 = growing_ends(nodes);
    let ends1 = growing_ends(nodes1);
    lemma_add_ends(nodes, node);
    assert forall|i: int|
        0 < i < nodes1.len() && (#[trigger] ends1[i]) < ends1[parent_of(
            nodes1,
            i,
        )] implies byte_ordered(nodes1[i], nodes1[ends1[i]]) by {
        if i < n {
            let p = parent_of(nodes, i);
            assert(parent_of(nodes1, i) == p);
            assert(nodes[i] == nodes[i]);
            assert(0 <= p < i);
            assert(ends0[i] <= nodes.len());
            assert(ends0[p] <= nodes.len());
            if is_open(nodes, i) {
                lemma_open_parent(nodes, open, i);
            } else if is_open(nodes, p) {
                if nodes[i].subtree_end == n {
                    assert(last == Some(i as usize));
                    assert(nodes1[ends1[i]] == node);
                } else {
                    assert(ends0[i] < ends0[p]);
                    assert(byte_ordered(nodes[i], nodes[ends0[i]]));
                    assert(nodes1[ends1[i]] == nodes[ends0[i]]);
                }
            } else {
                assert(ends0[i] < ends0[p]);
                assert(byte_ordered(nodes[i], nodes[ends0[i]]));
                assert(nodes1[ends1[i]] == nodes[ends0[i]]);
            }
        } else {
            let p = open[open.len() - 1] as int;
            assert(is_open(nodes, p));
            assert(parent_of(nodes1, i) == p);
        }
    }
}

proof fn lemma_add_stack(
    nodes: Seq<SyntaxNode>,
    open: Seq<usize>,
    last: Option<usize>,
    node: SyntaxNode,
)
    requires
        building(nodes, open, last),
        fits(nodes, open, last, node),
        nodes.len() < usize::MAX,
    ensures
        stack_ok(nodes.push(node), open.push(nodes.len() as usize)),
        apart_ok(nodes.push(node)),
        last_ok(nodes.push(node), open.push(nodes.len() as usize), None),
        pending_ok(nodes.push(node), None),
{
    reveal(well_formed);
    let n = nodes.len() as int;
    let nodes1 = nodes.push(node);
    let open1 = open.push(n as usize);
    let ends0 = growing_ends(nodes);
    lemma_add_ends(nodes, node);
    assert forall|k: int| 0 <= k < open1.len() implies (#[trigger] open1[k]) < nodes1.len()
        && is_open(nodes1, open1[k] as int) by {
        if k < open.len() {
            assert(open1[k] == open[k]);
        }
    }
    assert forall|i: int| 0 <= i < nodes1.len() && is_open(nodes1, i) implies exists|k: int|
        0 <= k < open1.len() && #[trigger] open1[k] == i by {
        if i < n {
            assert(is_open(nodes, i));
            let k = choose|k: int| 0 <= k < open.len() && #[trigger] open[k] == i;
            assert(open1[k] == i);
        } else {
            assert(open1[open.len() as int] == i);
        }
    }
    assert forall|k: int| 0 < k < open1.len() implies (#[trigger] nodes1[open1[k] as int]).parent
        == Some(open1[k - 1]) by {
        if k < open.len() {
            assert(open1[k] == open[k]);
            assert(open1[k - 1] == open[k - 1]);
            assert(nodes[open[k] as int].parent == Some(open[k - 1]));
        } else {
            assert(open1[k - 1] == open[k - 1]);
        }
    }
    if open.len() > 0 {
        assert(open1[0] == open[0]);
    }
    assert forall|c: int, o: int|
        #![trigger nodes1[c], nodes1[o]]
        0 <= c < o < nodes1.len() && !is_open(nodes1, c) && is_open(nodes1, o) implies o
        >= nodes1[c].subtree_end by {
        assert(nodes1[c] == nodes[c]);
        if o < n {
            assert(nodes1[o] == nodes[o]);
            assert(nodes[c] == nodes[c] && nodes[o] == nodes[o]);
        } else {
            assert(ends0[c] <= nodes.len());
        }
    }
    assert forall|i: int|
        0 < i < nodes1.len() && !is_open(nodes1, i) && is_open(
            nodes1,
            parent_of(nodes1, i),
        ) implies (#[trigger] nodes1[i]).subtree_end < nodes1.len() by {
        assert(ends0[i] <= nodes.len());
    }
}

/// Adding a node that fits keeps the tree under construction in order.
pub proof fn lemma_add(
    nodes: Seq<SyntaxNode>,
    open: Seq<usize>,
    last: Option<usize>,
    node: SyntaxNode,
)
    requires
        building(nodes, open, last),
        fits(nodes, open, last, node),
        nodes.len() < usize::MAX,
    ensures
        building(nodes.push(node), open.push(nodes.len() as usize), None),
{
    reveal(well_formed);
    lemma_add_links(nodes, open, last, node);
    lemma_add_nesting(nodes, open, last, node);
    lemma_add_order(nodes, open, last, node);
    lemma_add_stack(nodes, open, last, node);
}

/// The nodes with the innermost open node closed at the last node added.
pub open spec fn closed_top(nodes: Seq<SyntaxNode>, t: int) -> Seq<SyntaxNode> {
    nodes.update(
        t,
        SyntaxNode {
            kind: nodes[t].kind,
            start_byte: nodes[t].start_byte,
            end_byte: nodes[t].end_byte,
            start_row: nodes[t].start_row,
            end_row: nodes[t].end_row,
            parent: nodes[t].parent,
            subtree_end: nodes.len() as usize,
        },
    )
}

proof fn lemma_close_wf(nodes: Seq<SyntaxNode>, open: Seq<usize>, last: Option<usize>)
    requires
        building(nodes, open, last),
        open.len() > 0,
        nodes.len() <= usize::MAX,
    ensures
        well_formed(
            closed_top(nodes, open[open.len() - 1] as int),
            growing_ends(closed_top(nodes, open[open.len() - 1] as int)),
        ),
{
    reveal(well_formed);
    let t = open[open.len() - 1] as int;
    let nodes1 = closed_top(nodes, t);
    let ends = growing_ends(nodes);
    assert(is_open(nodes, t));
    assert(growing_ends(nodes1) =~= ends);
    assert forall|i: int| 0 <= i < nodes.len() implies (#[trigger] nodes1[i]).parent
        == nodes[i].parent && nodes1[i].start_byte == nodes[i].start_byte && nodes1[i].end_byte
        == nodes[i].end_byte by {}
    assert forall|i: int| 0 <= i < nodes1.len() implies (if i == 0 {
        (#[trigger] nodes1[i]).parent is None
    } else {
        nodes1[i].parent is Some && parent_of(nodes1, i) < i
    }) by {
        assert(nodes[i] == nodes[i]);
    }
    assert forall|i: int| 0 < i < nodes1.len() implies #[trigger] ends[i] <= ends[parent_of(
        nodes1,
        i,
    )] by {
        assert(parent_of(nodes1, i) == parent_of(nodes, i));
    }
    assert forall|i: int, j: int|
        #![trigger ends[i], nodes1[j]]
        0 <= i < j < ends[i] && j < nodes1.len() implies parent_of(nodes1, j) >= i && ends[j]
        <= ends[i] by {
        assert(nodes[j] == nodes[j]);
        assert(parent_of(nodes1, j) == parent_of(nodes, j));
    }
    assert forall|i: int|
        0 < i < nodes1.len() && (#[trigger] ends[i]) < ends[parent_of(
            nodes1,
            i,
        )] implies byte_ordered(nodes1[i], nodes1[ends[i]]) by {
        assert(parent_of(nodes1, i) == parent_of(nodes, i));
        assert(byte_ordered(nodes[i], nodes[ends[i]]));
        assert(ends[i] < nodes.len());
    }
}

proof fn lemma_close_same(nodes: Seq<SyntaxNode>, t: int)
    requires
        0 <= t < nodes.len(),
        nodes.len() <= usize::MAX,
    ensures
        closed_top(nodes, t).len() == nodes.len(),
        closed_top(nodes, t)[t].subtree_end == nodes.len(),
        closed_top(nodes, t)[t].parent == nodes[t].parent,
        forall|i: int| 0 <= i < nodes.len() && i != t ==> #[trigger] closed_top(nodes, t)[i] == nodes[i],
        forall|i: int|
            0 <= i < nodes.len() ==> #[trigger] parent_of(closed_top(nodes, t), i) == parent_of(nodes, i),
        forall|i: int|
            0 <= i < nodes.len() ==> #[trigger] is_open(closed_top(nodes, t), i) == (i != t
                && is_open(nodes, i)),
{
}

proof fn lemma_close_stack(nodes: Seq<SyntaxNode>, open: Seq<usize>, last: Option<usize>)
    requires
        building(nodes, open, last),
        open.len() > 0,
        nodes.len() <= usize::MAX,
    ensures
        stack_ok(closed_top(nodes, open[open.len() - 1] as int), open.drop_last()),
{
    reveal(well_formed);
    let t = open[open.len() - 1] as int;
    let nodes1 = closed_top(nodes, t);
    let open1 = open.drop_last();
    assert(is_open(nodes, t));
    lemma_close_same(nodes, t);
    assert forall|k: int| 0 <= k < open1.len() implies (#[trigger] open1[k]) < nodes1.len()
        && is_open(nodes1, open1[k] as int) by {
        assert(open1[k] == open[k]);
        lemma_stack_increasing(nodes, open, k, open.len() - 1);
        assert(is_open(nodes, open[k] as int));
    }
    assert forall|i: int| 0 <= i < nodes1.len() && is_open(nodes1, i) implies exists|k: int|
        0 <= k < open1.len() && #[trigger] open1[k] == i by {
        assert(is_open(nodes, i));
        let k = choose|k: int| 0 <= k < open.len() && #[trigger] open[k] == i;
        assert(open1[k] == i);
    }
    assert forall|k: int| 0 < k < open1.len() implies (#[trigger] nodes1[open1[k] as int]).parent
        == Some(open1[k - 1]) by {
        assert(open1[k] == open[k]);
        assert(open1[k - 1] == open[k - 1]);
        assert(nodes[open[k] as int].parent == Some(open[k - 1]));
        lemma_stack_increasing(nodes, open, k, open.len() - 1);
    }
    if open1.len() > 0 {
        assert(open1[0] == open[0]);
    }
}

proof fn lemma_close_apart(nodes: Seq<SyntaxNode>, open: Seq<usize>, last: Option<usize>)
    requires
        building(nodes, open, last),
        open.len() > 0,
        nodes.len() <= usize::MAX,
    ensures
        apart_ok(closed_top(nodes, open[open.len() - 1] as int)),
{
    reveal(well_formed);
    let t = open[open.len() - 1] as int;
    let nodes1 = closed_top(nodes, t);
    assert(is_open(nodes, t));
    lemma_close_same(nodes, t);
    assert forall|c: int, o: int|
        #![trigger nodes1[c], nodes1[o]]
        0 <= c < o < nodes1.len() && !is_open(nodes1, c) && is_open(nodes1, o) implies o
        >= nodes1[c].subtree_end by {
        assert(is_open(nodes, o));
        if c == t {
            lemma_open_below_top(nodes, open, o);
        } else {
            assert(nodes1[c] == nodes[c]);
            assert(!is_open(nodes, c));
            assert(nodes[c] == nodes[c] && nodes[o] == nodes[o]);
        }
    }
}

proof fn lemma_close_last(nodes: Seq<SyntaxNode>, open: Seq<usize>, last: Option<usize>)
    requires
        building(nodes, open, last),
        open.len() > 0,
        nodes.len() <= usize::MAX,
    ensures
        last_ok(
            closed_top(nodes, open[open.len() - 1] as int),
            open.drop_last(),
            Some(open[open.len() - 1]),
        ),
{
    reveal(well_formed);
    let t = open[open.len() - 1] as int;
    let nodes1 = closed_top(nodes, t);
    let open1 = open.drop_last();
    assert(is_open(nodes, t));
    lemma_close_same(nodes, t);
    if open1.len() > 0 {
        assert(nodes[open[open.len() - 1] as int].parent == Some(open[open.len() - 2]));
        assert(open1[open1.len() - 1] == open[open.len() - 2]);
    } else {
        assert(open[0] == 0);
    }
}

proof fn lemma_close_pending(nodes: Seq<SyntaxNode>, open: Seq<usize>, last: Option<usize>)
    requires
        building(nodes, open, last),
        open.len() > 0,
        nodes.len() <= usize::MAX,
    ensures
        pending_ok(closed_top(nodes, open[open.len() - 1] as int), Some(open[open.len() - 1])),
{
    reveal(well_formed);
    let t = open[open.len() - 1] as int;
    let nodes1 = closed_top(nodes, t);
    assert(is_open(nodes, t));
    lemma_close_same(nodes, t);
    assert forall|i: int|
        0 < i < nodes1.len() && !is_open(nodes1, i) && is_open(
            nodes1,
            parent_of(nodes1, i),
        ) implies (#[trigger] nodes1[i]).subtree_end < nodes1.len() || Some(open[open.len() - 1])
        == Some(i as usize) by {
        if i != t {
            assert(nodes1[i] == nodes[i]);
            assert(nodes[i] == nodes[i]);
            let p = parent_of(nodes, i);
            assert(parent_of(nodes1, i) == p);
            assert(0 <= p < i);
            assert(p != t);
            assert(is_open(nodes, p));
            assert(!is_open(nodes, i));
            if last == Some(i as usize) {
                assert(nodes[i].parent == Some(open[open.len() - 1]));
            }
        }
    }
}

/// A builder with no nodes holds a tree under construction.
pub proof fn lemma_nothing_built()
    ensures
        building(Seq::<SyntaxNode>::empty(), Seq::<usize>::empty(), None),
{
    reveal(well_formed);
}

/// Closing the innermost open node keeps the tree under construction in order.
pub proof fn lemma_close(nodes: Seq<SyntaxNode>, open: Seq<usize>, last: Option<usize>)
    requires
        building(nodes, open, last),
        open.len() > 0,
        nodes.len() <= usize::MAX,
    ensures
        building(
            closed_top(nodes, open[open.len() - 1] as int),
            open.drop_last(),
            Some(open[open.len() - 1]),
        ),
        closed_top(nodes, open[open.len() - 1] as int).len() == nodes.len(),
{
    lemma_close_wf(nodes, open, last);
    lemma_close_stack(nodes, open, last);
    lemma_close_apart(nodes, open, last);
    lemma_close_last(nodes, open, last);
    lemma_close_pending(nodes, open, last);
}

/// A tree under construction with no open node is a well-formed tree.
pub proof fn lemma_all_closed(nodes: Seq<SyntaxNode>, open: Seq<usize>, last: Option<usize>)
    requires
        building(nodes, open, last),
        open.len() == 0,
        nodes.len() <= usize::MAX,
    ensures
        is_tree(nodes),
{
    assert(growing_ends(nodes) =~= recorded_ends(nodes));
}

/// Builds a syntax tree from the events of a depth-first walk: `open` on
/// entering a node, `close` on leaving it.
pub struct TreeBuilder {
    pub nodes: Vec<SyntaxNode>,
    /// The open nodes, from the root down.
    pub open: Vec<usize>,
    /// The node closed last, while no node was opened since.
    pub last_closed: Option<usize>,
}

/// The value of a builder.
pub struct BuilderState {
    pub nodes: Seq<SyntaxNode>,
    pub open: Seq<usize>,
    pub last_closed: Option<usize>,
}

impl View for TreeBuilder {
    type V = BuilderState;

    open spec fn view(&self) -> BuilderState {
        BuilderState { nodes: self.nodes@, open: self.open@, last_closed: self.last_closed }
    }
}

/// A node with this byte range may be opened: there is an open node to hold
/// it, or no node yet; and it does not come before the sibling that was
/// closed last.
pub open spec fn can_take(s: BuilderState, start_byte: usize, end_byte: usize) -> bool {
    &&& s.open.len() > 0 || s.nodes.len() == 0
    &&& s.nodes.len() < usize::MAX
    &&& match s.last_closed {
        Some(c) => {
            let prev = s.nodes[c as int];
            prev.start_byte < start_byte || (prev.start_byte == start_byte && prev.end_byte
                <= end_byte)
        },
        None => true,
    }
}

/// The builder after a node was opened: the node is the last node, open,
/// with the innermost open node as its parent.
pub open spec fn after_open(
    s: BuilderState,
    kind: String,
    start_byte: usize,
    end_byte: usize,
    start_row: usize,
    end_row: usize,
) -> BuilderState {
    BuilderState {
        nodes: s.nodes.push(
            SyntaxNode {
                kind,
                start_byte,
                end_byte,
                start_row,
                end_row,
                parent: if s.open.len() > 0 {
                    Some(s.open.last())
                } else {
                    None
                },
                subtree_end: 0,
            },
        ),
        open: s.open.push(s.nodes.len() as usize),
        last_closed: None,
    }
}

/// The builder after the innermost open node was closed: its subtree ends
/// at the last node.
pub open spec fn after_close(s: BuilderState) -> BuilderState {
    if s.open.len() > 0 {
        BuilderState {
            nodes: closed_top(s.nodes, s.open.last() as int),
            open: s.open.drop_last(),
            last_closed: Some(s.open.last()),
        }
    } else {
        s
    }
}

impl TreeBuilder {
    /// The state of a builder that keeps to its rules.
    pub open spec fn inv(&self) -> bool {
        building(self.nodes@, self.open@, self.last_closed)
    }

    /// A builder with no nodes.
    pub fn new() -> (b: TreeBuilder)
        ensures
            b.inv(),
            b@ == (BuilderState { nodes: Seq::empty(), open: Seq::empty(), last_closed: None }),
    {
        proof {
            reveal(well_formed);
        }
        TreeBuilder { nodes: Vec::new(), open: Vec::new(), last_closed: None }
    }

    /// Enters a node as the next child of the innermost open node, or as the
    /// root. Returns whether the node was taken; a node that is not taken
    /// leaves the builder as it was.
    pub fn open(
        &mut self,
        kind: String,
        start_byte: usize,
        end_byte: usize,
        start_row: usize,
        end_row: usize,
    ) -> (taken: bool)
        requires
            old(self).inv(),
        ensures
            final(self).inv(),
            taken == can_take(old(self)@, start_byte, end_byte),
            final(self)@ == if taken {
                after_open(old(self)@, kind, start_byte, end_byte, start_row, end_row)
            } else {
                old(self)@
            },
    {
        let n = self.nodes.len();
        if (self.open.len() == 0 && n > 0) || n == usize::MAX {
            return false;
        }
        match self.last_closed {
            Some(c) => {
                let prev = &self.nodes[c];
                if !(prev.start_byte < start_byte || (prev.start_byte == start_byte
                    && prev.end_byte <= end_byte)) {
                    return false;
                }
            },
            None => {},
        }
        let parent = if self.open.len() > 0 {
            Some(self.open[self.open.len() - 1])
        } else {
            None
        };
        let node = SyntaxNode {
            kind,
            start_byte,
            end_byte,
            start_row,
            end_row,
            parent,
            subtree_end: 0,
        };
        proof {
            lemma_add(self.nodes@, self.open@, self.last_closed, node);
        }
        self.nodes.push(node);
        self.open.push(n);
        self.last_closed = None;
        true
    }

    /// Leaves the innermost open node. Returns false, and changes nothing, if
    /// no node is open.
    pub fn close(&mut self) -> (closed: bool)
        requires
            old(self).inv(),
        ensures
            final(self).inv(),
            closed == (old(self).open@.len() > 0),
            final(self)@ == after_close(old(self)@),
    {
        if self.open.len() == 0 {
            return false;
        }
        let n = self.nodes.len();
        proof {
            lemma_close(self.nodes@, self.open@, self.last_closed);
        }
        let ghost old_nodes = self.nodes@;
        let t = self.open.pop().unwrap();
        self.nodes[t].subtree_end = n;
        self.last_closed = Some(t);
        assert(self.nodes@ =~= closed_top(old_nodes, t as int));
        assert(self.open@ =~= old(self).open@.drop_last());
        true
    }

    /// Ends the walk. Gives the tree if every node that was opened was closed.
    pub fn finish(self) -> (tree: Option<SyntaxTree>)
        requires
            self.inv(),
        ensures
            tree is Some == (self.open@.len() == 0),
            tree is Some ==> tree->0.wf() && tree->0.nodes@ == self.nodes@,
    {
        if self.open.len() == 0 {
            let n = self.nodes.len();
            proof {
                assert(growing_ends(self.nodes@) =~= recorded_ends(self.nodes@));
            }
            Some(SyntaxTree { nodes: self.nodes })
        } else {
            None
        }
    }
}

} // verus!
