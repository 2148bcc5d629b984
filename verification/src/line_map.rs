//! The line map: for every source line, the most specific syntax node that
//! covers it, with the context that a block for the line is drawn from.

use vstd::prelude::*;
use crate::context::comment_context;
use crate::context::find_comment_context_node;
use crate::context::nearest_acceptable_ancestor;
use crate::language::NodeFacts;
use crate::priority::is_comment;
use crate::priority::is_comment_kind;
use crate::tree::SyntaxNode;
use crate::tree::SyntaxTree;
use crate::tree::lemma_next_sibling_parent;
use crate::tree::lemma_root_spans;
use crate::tree::parent_of;
use crate::tree::recorded_ends;

verus! {

/// What the line map records for one line.
#[derive(Clone, Copy, Debug, PartialEq, Eq, Structural)]
pub struct NodeInfo {
    /// The most specific node that covers the line.
    pub node: usize,
    /// The node is a comment.
    pub is_comment: bool,
    /// For a comment, the declaration it documents; for a node that forms no
    /// block, the nearest ancestor that does.
    pub context_node: Option<usize>,
    /// The node is test code and tests are excluded.
    pub is_test: bool,
    /// How much the node covers: the smaller, the more specific.
    pub specificity: u128,
}

/// What a line map is built from and for.
pub struct MapSetting {
    pub nodes: Seq<SyntaxNode>,
    pub facts: Seq<NodeFacts>,
    pub allow_tests: bool,
    /// The ranges of lines that the map is wanted for, each with both ends included.
    pub ranges: Seq<(usize, usize)>,
    /// The line that the first entry of the map stands for.
    pub offset: usize,
    /// The number of entries of the map.
    pub size: nat,
}

/// The setting of a map of `size` entries built from the nodes of a tree and their facts.
pub open spec fn setting_of(
    nodes: Seq<SyntaxNode>,
    facts: Seq<NodeFacts>,
    allow_tests: bool,
    ranges: Seq<(usize, usize)>,
    offset: usize,
    size: nat,
) -> MapSetting {
    MapSetting { nodes, facts, allow_tests, ranges, offset, size }
}

/// `a - b`, or 0 where `b` is the larger.
pub open spec fn minus_or_zero(a: usize, b: usize) -> int {
    if a >= b {
        a - b
    } else {
        0
    }
}

/// The specificity of a node: 1000 for each row it covers, plus one for each
/// 100 bytes.
pub open spec fn specificity_of(node: SyntaxNode) -> int {
    (minus_or_zero(node.end_row, node.start_row) + 1) * 1000 + minus_or_zero(
        node.end_byte,
        node.start_byte,
    ) / 100
}

/// The context of node `i`: for a comment, the declaration it documents; for
/// any other node that forms no block, the nearest ancestor that does; for a
/// node that forms a block, none.
pub open spec fn context_of(s: MapSetting, i: int) -> Option<usize> {
    if is_comment_kind(s.nodes[i].kind@) {
        comment_context(s.nodes, s.facts, i)
    } else if !s.facts[i].acceptable {
        nearest_acceptable_ancestor(s.nodes, s.facts, i)
    } else {
        None
    }
}

/// The record that node `i` writes into the lines it wins.
pub open spec fn info_of(s: MapSetting, i: int) -> NodeInfo {
    NodeInfo {
        node: i as usize,
        is_comment: is_comment_kind(s.nodes[i].kind@),
        context_node: context_of(s, i),
        is_test: !s.allow_tests && s.facts[i].is_test,
        specificity: specificity_of(s.nodes[i]) as u128,
    }
}

/// Whether a node takes a line from the record that holds it. A comment keeps
/// its line against the declaration it documents, and takes the line from that
/// declaration; otherwise the more specific node wins, and the earlier one on
/// a tie.
pub open spec fn takes_line(
    current: Option<NodeInfo>,
    node: usize,
    is_comment: bool,
    context_node: Option<usize>,
    specificity: u128,
) -> bool {
    match current {
        None => true,
        Some(cur) => if cur.is_comment && cur.context_node == Some(node) {
            false
        } else if is_comment && context_node == Some(cur.node) {
            true
        } else {
            specificity < cur.specificity
        },
    }
}

/// Whether the node of a record takes a line from the record that holds it.
pub open spec fn should_update(current: Option<NodeInfo>, incoming: NodeInfo) -> bool {
    takes_line(
        current,
        incoming.node,
        incoming.is_comment,
        incoming.context_node,
        incoming.specificity,
    )
}

/// Decides whether a node takes a line of the map from the record that holds it.
pub fn should_update_line_map(
    line_map: &[Option<NodeInfo>],
    line: usize,
    node: usize,
    is_comment: bool,
    context_node: Option<usize>,
    specificity: u128,
) -> (r: bool)
    requires
        line < line_map@.len(),
    ensures
        r == takes_line(line_map@[line as int], node, is_comment, context_node, specificity),
{
    match &line_map[line] {
        None => true,
        Some(current) => {
            if current.is_comment {
                match current.context_node {
                    Some(ctx) => {
                        if ctx == node {
                            return false;
                        }
                    },
                    None => {},
                }
            }
            if is_comment {
                match context_node {
                    Some(ctx) => {
                        if ctx == current.node {
                            return true;
                        }
                    },
                    None => {},
                }
            }
            specificity < current.specificity
        },
    }
}

/// The line lies in one of the ranges.
pub open spec fn in_ranges(ranges: Seq<(usize, usize)>, line: int) -> bool {
    exists|r: int| 0 <= r < ranges.len() && (#[trigger] ranges[r]).0 <= line <= ranges[r].1
}

/// The rows of the node meet one of the ranges.
pub open spec fn meets_ranges(ranges: Seq<(usize, usize)>, node: SyntaxNode) -> bool {
    exists|r: int|
        0 <= r < ranges.len() && node.start_row <= (#[trigger] ranges[r]).1 && node.end_row
            >= ranges[r].0
}

/// Node `i` passes the filter by itself: its rows meet a wanted range and it
/// starts inside the map.
pub open spec fn passes(s: MapSetting, i: int) -> bool {
    meets_ranges(s.ranges, s.nodes[i]) && minus_or_zero(s.nodes[i].start_row, s.offset) < s.size
}

/// Node `i` is visited: it and all its ancestors pass the filter.
pub open spec fn visited(s: MapSetting, i: int) -> bool
    decreases i,
{
    if 0 <= i < s.nodes.len() {
        passes(s, i) && (i == 0 || {
            let p = parent_of(s.nodes, i);
            0 <= p < i && visited(s, p)
        })
    } else {
        false
    }
}

/// Node `i` covers the entry `line` of the map: the entry stands for one of
/// the node's rows and for a wanted line.
pub open spec fn covers(s: MapSetting, i: int, line: int) -> bool {
    &&& minus_or_zero(s.nodes[i].start_row, s.offset) <= line <= minus_or_zero(
        s.nodes[i].end_row,
        s.offset,
    )
    &&& 0 <= line < s.size
    &&& in_ranges(s.ranges, line + s.offset)
}

/// The entry `line` of the map once the first `n` nodes, in depth-first order,
/// had their turn: each visited node that covers the entry takes it if
/// `should_update` says so.
pub open spec fn line_entry(s: MapSetting, line: int, n: int) -> Option<NodeInfo>
    decreases n,
{
    if n <= 0 {
        None
    } else {
        let before = line_entry(s, line, n - 1);
        if visited(s, n - 1) && covers(s, n - 1, line) && should_update(before, info_of(s, n - 1)) {
            Some(info_of(s, n - 1))
        } else {
            before
        }
    }
}

/// The line map of a tree.
pub open spec fn line_map_of(s: MapSetting) -> Seq<Option<NodeInfo>> {
    Seq::new(s.size, |line: int| line_entry(s, line, s.nodes.len() as int))
}

/// The map holds, for every entry, what the first `n` nodes left there.
pub open spec fn map_after(s: MapSetting, map: Seq<Option<NodeInfo>>, n: int) -> bool {
    &&& map.len() == s.size
    &&& forall|line: int| 0 <= line < map.len() ==> #[trigger] map[line] == line_entry(s, line, n)
}

/// The record names nodes of a tree with `len` nodes.
pub open spec fn info_fits(info: NodeInfo, len: nat) -> bool {
    &&& info.node < len
    &&& info.context_node is Some ==> info.context_node->0 < len
}

/// Every record of the map names nodes of a tree with `len` nodes.
pub open spec fn entries_fit(map: Seq<Option<NodeInfo>>, len: nat) -> bool {
    forall|line: int|
        0 <= line < map.len() && (#[trigger] map[line]) is Some ==> info_fits(map[line]->0, len)
}

/// Below a node that is not visited no node is visited.
pub proof fn lemma_skipped_subtree(s: MapSetting, ends: Seq<int>, i: int, j: int)
    requires
        crate::tree::well_formed(s.nodes, ends),
        0 <= i <= j < ends[i],
        i < s.nodes.len(),
        !visited(s, i),
    ensures
        !visited(s, j),
    decreases j - i,
{
    if j > i {
        let p = parent_of(s.nodes, j);
        crate::tree::lemma_inside(s.nodes, ends, i, j);
        lemma_skipped_subtree(s, ends, i, p);
    }
}

/// Nodes that are not visited leave every entry as it was.
pub proof fn lemma_skipped_entries(s: MapSetting, ends: Seq<int>, i: int, n: int, line: int)
    requires
        crate::tree::well_formed(s.nodes, ends),
        0 <= i < s.nodes.len(),
        i <= n <= ends[i],
        !visited(s, i),
    ensures
        line_entry(s, line, n) == line_entry(s, line, i),
    decreases n - i,
{
    if n > i {
        crate::tree::lemma_links(s.nodes, ends, i);
        lemma_skipped_entries(s, ends, i, n - 1, line);
        lemma_skipped_subtree(s, ends, i, n - 1);
    }
}

/// Tests whether a line lies in one of the ranges.
fn line_in_ranges(ranges: &[(usize, usize)], line: usize) -> (r: bool)
    ensures
        r == in_ranges(ranges@, line as int),
{
    let mut k: usize = 0;
    while k < ranges.len()
        invariant
            k <= ranges@.len(),
            forall|q: int| 0 <= q < k ==> !((#[trigger] ranges@[q]).0 <= line <= ranges@[q].1),
        decreases ranges@.len() - k,
    {
        if line >= ranges[k].0 && line <= ranges[k].1 {
            return true;
        }
        k += 1;
    }
    false
}

/// Tests whether the rows of a node meet one of the ranges.
fn rows_meet_ranges(ranges: &[(usize, usize)], node: &SyntaxNode) -> (r: bool)
    ensures
        r == meets_ranges(ranges@, *node),
{
    let mut k: usize = 0;
    while k < ranges.len()
        invariant
            k <= ranges@.len(),
            forall|q: int|
                0 <= q < k ==> !(node.start_row <= (#[trigger] ranges@[q]).1 && node.end_row
                    >= ranges@[q].0),
        decreases ranges@.len() - k,
    {
        if node.start_row <= ranges[k].1 && node.end_row >= ranges[k].0 {
            return true;
        }
        k += 1;
    }
    false
}

fn sub_or_zero(a: usize, b: usize) -> (r: usize)
    ensures
        r == minus_or_zero(a, b),
{
    if a >= b {
        a - b
    } else {
        0
    }
}

/// Computes the specificity of a node.
pub fn node_specificity(node: &SyntaxNode) -> (r: u128)
    ensures
        r == specificity_of(*node),
{
    let rows = sub_or_zero(node.end_row, node.start_row) as u128;
    let bytes = sub_or_zero(node.end_byte, node.start_byte) as u128;
    (rows + 1) * 1000 + bytes / 100
}

/// Gives one visited node its turn at the entries between `first` and `last`.
fn write_lines(
    line_map: &mut Vec<Option<NodeInfo>>,
    info: NodeInfo,
    first: usize,
    last: usize,
    ranges: &[(usize, usize)],
    offset: usize,
    Ghost(s): Ghost<MapSetting>,
)
    requires
        s.size == old(line_map)@.len(),
        s.ranges == ranges@,
        s.offset == offset,
        offset + old(line_map)@.len() <= usize::MAX,
        info.node < s.nodes.len(),
        visited(s, info.node as int),
        info == info_of(s, info.node as int),
        first == minus_or_zero(s.nodes[info.node as int].start_row, offset),
        last == minus_or_zero(s.nodes[info.node as int].end_row, offset),
        first < old(line_map)@.len(),
        map_after(s, old(line_map)@, info.node as int),
        info_fits(info, s.nodes.len()),
        entries_fit(old(line_map)@, s.nodes.len()),
    ensures
        map_after(s, final(line_map)@, info.node + 1),
        entries_fit(final(line_map)@, s.nodes.len()),
{
    let ghost node = info.node as int;
    let stop: usize = if last < line_map.len() - 1 {
        last + 1
    } else {
        line_map.len()
    };
    let mut line: usize = first;
    while line < stop
        invariant
            s.size == line_map@.len(),
            s.ranges == ranges@,
            s.offset == offset,
            offset + line_map@.len() <= usize::MAX,
            node == info.node,
            0 <= node < s.nodes.len(),
            visited(s, node),
            info == info_of(s, node),
            first == minus_or_zero(s.nodes[node].start_row, offset),
            last == minus_or_zero(s.nodes[node].end_row, offset),
            stop <= line_map@.len(),
            stop == last + 1 || (stop == line_map@.len() && last >= stop - 1),
            info_fits(info, s.nodes.len()),
            entries_fit(line_map@, s.nodes.len()),
            first <= line,
            forall|l: int|
                0 <= l < line_map@.len() && (l < line || l >= stop) ==> #[trigger] line_map@[l]
                    == line_entry(s, l, node + 1),
            forall|l: int|
                line <= l < stop ==> #[trigger] line_map@[l] == line_entry(s, l, node),
        decreases stop - line,
    {
        let ghost before = line_map@[line as int];
        let ghost after = line_entry(s, line as int, node + 1);
        assert(before == line_entry(s, line as int, node));
        let original_line = line + offset;
        let wanted = line_in_ranges(ranges, original_line);
        assert(covers(s, node, line as int) == wanted);
        let take = wanted && should_update_line_map(
            line_map.as_slice(),
            line,
            info.node,
            info.is_comment,
            info.context_node,
            info.specificity,
        );
        assert(take == (wanted && should_update(before, info)));
        assert(after == if take {
            Some(info)
        } else {
            before
        });
        if take {
            line_map.set(line, Some(info));
        }
        line += 1;
    }
}

/// Works out the record that a node writes into the lines it wins.
pub fn describe_node(
    tree: &SyntaxTree,
    facts: &Vec<NodeFacts>,
    node: usize,
    allow_tests: bool,
    current_ancestor: Option<usize>,
) -> (info: NodeInfo)
    requires
        tree.wf(),
        facts@.len() == tree.nodes@.len(),
        node < tree.nodes@.len(),
        current_ancestor == nearest_acceptable_ancestor(tree.nodes@, facts@, node as int),
        current_ancestor is Some ==> current_ancestor->0 < node,
    ensures
        forall|ranges: Seq<(usize, usize)>, offset: usize, size: nat|
            info == info_of(
                #[trigger] setting_of(tree.nodes@, facts@, allow_tests, ranges, offset, size),
                node as int,
            ),
        info_fits(info, tree.nodes@.len()),
{
    let this = &tree.nodes[node];
    let is_comment_node = is_comment(this.kind.as_str());
    let context_node = if is_comment_node {
        find_comment_context_node(tree, facts, node)
    } else if !facts[node].acceptable {
        current_ancestor
    } else {
        None
    };
    NodeInfo {
        node,
        is_comment: is_comment_node,
        context_node,
        is_test: !allow_tests && facts[node].is_test,
        specificity: node_specificity(this),
    }
}

/// Gives a node and its descendants their turn at the line map, in
/// depth-first order. `current_ancestor` is the nearest ancestor that forms a
/// block. A node whose rows meet no wanted range, or that starts beyond the
/// map, is passed over with all its descendants. Children are taken in the
/// order of the tree, which is the order of their bytes.
pub fn process_node(
    tree: &SyntaxTree,
    facts: &Vec<NodeFacts>,
    node: usize,
    line_map: &mut Vec<Option<NodeInfo>>,
    allow_tests: bool,
    current_ancestor: Option<usize>,
    target_line_ranges: &[(usize, usize)],
    line_map_base_offset: usize,
)
    requires
        tree.wf(),
        facts@.len() == tree.nodes@.len(),
        node < tree.nodes@.len(),
        line_map_base_offset + old(line_map)@.len() <= usize::MAX,
        current_ancestor == nearest_acceptable_ancestor(tree.nodes@, facts@, node as int),
        current_ancestor is Some ==> current_ancestor->0 < node,
        entries_fit(old(line_map)@, tree.nodes@.len()),
        node == 0 || visited(
            setting_of(
                tree.nodes@,
                facts@,
                allow_tests,
                target_line_ranges@,
                line_map_base_offset,
                old(line_map)@.len(),
            ),
            parent_of(tree.nodes@, node as int),
        ),
        map_after(
            setting_of(
                tree.nodes@,
                facts@,
                allow_tests,
                target_line_ranges@,
                line_map_base_offset,
                old(line_map)@.len(),
            ),
            old(line_map)@,
            node as int,
        ),
    ensures
        map_after(
            setting_of(
                tree.nodes@,
                facts@,
                allow_tests,
                target_line_ranges@,
                line_map_base_offset,
                old(line_map)@.len(),
            ),
            final(line_map)@,
            tree.nodes@[node as int].subtree_end as int,
        ),
        entries_fit(final(line_map)@, tree.nodes@.len()),
    decreases tree.nodes@.len() - node,
{
    let ghost nodes = tree.nodes@;
    let ghost ends = recorded_ends(nodes);
    let ghost s = setting_of(
        tree.nodes@,
        facts@,
        allow_tests,
        target_line_ranges@,
        line_map_base_offset,
        line_map@.len(),
    );
    let this = &tree.nodes[node];
    let end = tree.subtree_end(node);
    proof {
        assert(ends[node as int] == end);
        crate::tree::lemma_links(nodes, ends, node as int);
    }
    let adjusted_start_row = sub_or_zero(this.start_row, line_map_base_offset);
    if !rows_meet_ranges(target_line_ranges, this) || adjusted_start_row >= line_map.len() {
        proof {
            assert(!visited(s, node as int));
            assert forall|line: int| 0 <= line < line_map@.len() implies #[trigger] line_map@[line]
                == line_entry(s, line, end as int) by {
                lemma_skipped_entries(s, ends, node as int, end as int, line);
            }
        }
        return ;
    }
    assert(visited(s, node as int));
    let info = describe_node(tree, facts, node, allow_tests, current_ancestor);
    assert(info == info_of(s, node as int));
    let adjusted_end_row = sub_or_zero(this.end_row, line_map_base_offset);
    write_lines(
        line_map,
        info,
        adjusted_start_row,
        adjusted_end_row,
        target_line_ranges,
        line_map_base_offset,
        Ghost(s),
    );
    let next_ancestor = if facts[node].acceptable {
        Some(node)
    } else {
        current_ancestor
    };
    proof {
        if node + 1 < end {
            crate::tree::lemma_inside(nodes, ends, node as int, node + 1);
        }
    }
    let mut child: usize = node + 1;
    while child < end
        invariant
            tree.wf(),
            nodes == tree.nodes@,
            ends == recorded_ends(nodes),
            s == setting_of(
                tree.nodes@,
                facts@,
                allow_tests,
                target_line_ranges@,
                line_map_base_offset,
                line_map@.len(),
            ),
            facts@.len() == tree.nodes@.len(),
            node < child <= end <= tree.nodes@.len(),
            end == ends[node as int],
            child < end ==> nodes[child as int].parent == Some(node),
            line_map_base_offset + line_map@.len() <= usize::MAX,
            visited(s, node as int),
            entries_fit(line_map@, tree.nodes@.len()),
            next_ancestor is Some ==> next_ancestor->0 <= node,
            next_ancestor == if facts@[node as int].acceptable {
                Some(node)
            } else {
                nearest_acceptable_ancestor(tree.nodes@, facts@, node as int)
            },
            map_after(s, line_map@, child as int),
        decreases end - child,
    {
        proof {
            assert(parent_of(nodes, child as int) == node);
            assert(ends[child as int] == nodes[child as int].subtree_end);
            crate::tree::lemma_links(nodes, ends, child as int);
            if ends[child as int] < ends[node as int] {
                lemma_next_sibling_parent(nodes, ends, child as int);
            }
        }
        process_node(
            tree,
            facts,
            child,
            line_map,
            allow_tests,
            next_ancestor,
            target_line_ranges,
            line_map_base_offset,
        );
        child = tree.subtree_end(child);
    }
}

/// Builds the line map of a tree: `line_map_size` entries, the first for the
/// line `line_map_base_offset`, filled for the lines of `target_line_ranges`.
pub fn build_line_map(
    tree: &SyntaxTree,
    facts: &Vec<NodeFacts>,
    allow_tests: bool,
    target_line_ranges: &[(usize, usize)],
    line_map_base_offset: usize,
    line_map_size: usize,
) -> (line_map: Vec<Option<NodeInfo>>)
    requires
        tree.wf(),
        facts@.len() == tree.nodes@.len(),
        line_map_base_offset + line_map_size <= usize::MAX,
    ensures
        line_map@ == line_map_of(
            setting_of(
                tree.nodes@,
                facts@,
                allow_tests,
                target_line_ranges@,
                line_map_base_offset,
                line_map_size as nat,
            ),
        ),
        entries_fit(line_map@, tree.nodes@.len()),
{
    let ghost s = setting_of(
        tree.nodes@,
        facts@,
        allow_tests,
        target_line_ranges@,
        line_map_base_offset,
        line_map_size as nat,
    );
    let mut line_map: Vec<Option<NodeInfo>> = Vec::new();
    let mut k: usize = 0;
    while k < line_map_size
        invariant
            k <= line_map_size,
            line_map@.len() == k,
            forall|l: int| 0 <= l < k ==> (#[trigger] line_map@[l]) is None,
        decreases line_map_size - k,
    {
        line_map.push(None);
        k += 1;
    }
    if tree.nodes.len() > 0 {
        process_node(
            tree,
            facts,
            0,
            &mut line_map,
            allow_tests,
            None,
            target_line_ranges,
            line_map_base_offset,
        );
        proof {
            let ends = recorded_ends(tree.nodes@);
            lemma_root_spans(tree.nodes@, ends, tree.nodes@.len() - 1);
            crate::tree::lemma_links(tree.nodes@, ends, 0);
            assert(ends[0] == tree.nodes@[0].subtree_end);
        }
    }
    assert(line_map@ =~= line_map_of(s));
    line_map
}

} // verus!
