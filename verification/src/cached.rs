//! The projection of a line map that can be kept after the tree is gone.

use vstd::prelude::*;
use crate::block::CachedInfoView;
use crate::block::CachedNodeInfo;
use crate::block::line_map_view;
use crate::context::facts_fit;
use crate::language::NodeFacts;
use crate::line_map::NodeInfo;
use crate::line_map::entries_fit;
use crate::line_map::info_fits;
use crate::tree::SyntaxNode;
use crate::tree::SyntaxTree;

verus! {

/// The context of the record may be shown: there is one, and tests are allowed
/// or it is not test code.
pub open spec fn context_shown(facts: Seq<NodeFacts>, allow_tests: bool, info: NodeInfo) -> bool {
    info.context_node is Some && (allow_tests || !facts[info.context_node->0 as int].is_test)
}

/// The node that a block for the record stands for: the context where it may
/// be shown and the recorded node is not excluded as test code, the recorded
/// node otherwise.
pub open spec fn representative(facts: Seq<NodeFacts>, allow_tests: bool, info: NodeInfo) -> usize {
    if context_shown(facts, allow_tests, info) && (info.is_comment || !info.is_test) {
        info.context_node->0
    } else {
        info.node
    }
}

/// The rows of a node.
pub open spec fn rows_of(node: SyntaxNode) -> (nat, nat) {
    (node.start_row as nat, node.end_row as nat)
}

/// The bytes of a node.
pub open spec fn bytes_range_of(node: SyntaxNode) -> (nat, nat) {
    (node.start_byte as nat, node.end_byte as nat)
}

/// The record of a line with every node replaced by its ranges and kind. The
/// enclosing declaration is that of the representative node.
pub open spec fn project(
    nodes: Seq<SyntaxNode>,
    facts: Seq<NodeFacts>,
    allow_tests: bool,
    info: NodeInfo,
) -> CachedInfoView {
    let own = nodes[info.node as int];
    let enclosing = facts[representative(facts, allow_tests, info) as int].enclosing;
    CachedInfoView {
        start_byte: own.start_byte as nat,
        end_byte: own.end_byte as nat,
        start_row: own.start_row as nat,
        end_row: own.end_row as nat,
        node_kind: own.kind@,
        is_comment: info.is_comment,
        is_test: info.is_test,
        original_node_is_acceptable: facts[info.node as int].acceptable,
        context_node_bytes: match info.context_node {
            Some(c) => Some(bytes_range_of(nodes[c as int])),
            None => None,
        },
        context_node_rows: match info.context_node {
            Some(c) => Some(rows_of(nodes[c as int])),
            None => None,
        },
        context_node_kind: match info.context_node {
            Some(c) => Some(nodes[c as int].kind@),
            None => None,
        },
        context_node_is_test: match info.context_node {
            Some(c) => Some(facts[c as int].is_test),
            None => None,
        },
        parent_node_type: match enclosing {
            Some(e) => Some(nodes[e as int].kind@),
            None => None,
        },
        parent_start_row: match enclosing {
            Some(e) => Some(nodes[e as int].start_row as nat),
            None => None,
        },
        parent_end_row: match enclosing {
            Some(e) => Some(nodes[e as int].end_row as nat),
            None => None,
        },
    }
}

/// The projection of one entry of a line map.
pub open spec fn project_entry(
    nodes: Seq<SyntaxNode>,
    facts: Seq<NodeFacts>,
    allow_tests: bool,
    entry: Option<NodeInfo>,
) -> Option<CachedInfoView> {
    match entry {
        Some(info) => Some(project(nodes, facts, allow_tests, info)),
        None => None,
    }
}

/// The projection of a line map, entry by entry.
pub open spec fn project_map(
    nodes: Seq<SyntaxNode>,
    facts: Seq<NodeFacts>,
    allow_tests: bool,
    map: Seq<Option<NodeInfo>>,
) -> Seq<Option<CachedInfoView>> {
    Seq::new(map.len(), |line: int| project_entry(nodes, facts, allow_tests, map[line]))
}

impl CachedNodeInfo {
    /// Projects the record of a line.
    pub fn from_node_info(
        info: &NodeInfo,
        tree: &SyntaxTree,
        facts: &Vec<NodeFacts>,
        allow_tests: bool,
    ) -> (cached: CachedNodeInfo)
        requires
            info_fits(*info, tree.nodes@.len()),
            facts_fit(facts@, tree.nodes@.len()),
        ensures
            cached@ == project(tree.nodes@, facts@, allow_tests, *info),
    {
        let own = &tree.nodes[info.node];
        let mut rep_node = info.node;
        match info.context_node {
            Some(ctx) => {
                if (allow_tests || !facts[ctx].is_test) && (info.is_comment || !info.is_test) {
                    rep_node = ctx;
                }
            },
            None => {},
        }
        assert(rep_node == representative(facts@, allow_tests, *info));
        let enclosing = facts[rep_node].enclosing;
        CachedNodeInfo {
            start_byte: own.start_byte,
            end_byte: own.end_byte,
            start_row: own.start_row,
            end_row: own.end_row,
            node_kind: own.kind.clone(),
            is_comment: info.is_comment,
            is_test: info.is_test,
            original_node_is_acceptable: facts[info.node].acceptable,
            context_node_bytes: match info.context_node {
                Some(c) => Some((tree.nodes[c].start_byte, tree.nodes[c].end_byte)),
                None => None,
            },
            context_node_rows: match info.context_node {
                Some(c) => Some((tree.nodes[c].start_row, tree.nodes[c].end_row)),
                None => None,
            },
            context_node_kind: match info.context_node {
                Some(c) => Some(tree.nodes[c].kind.clone()),
                None => None,
            },
            context_node_is_test: match info.context_node {
                Some(c) => Some(facts[c].is_test),
                None => None,
            },
            parent_node_type: match enclosing {
                Some(e) => Some(tree.nodes[e].kind.clone()),
                None => None,
            },
            parent_start_row: match enclosing {
                Some(e) => Some(tree.nodes[e].start_row),
                None => None,
            },
            parent_end_row: match enclosing {
                Some(e) => Some(tree.nodes[e].end_row),
                None => None,
            },
        }
    }
}

/// Projects a line map, entry by entry.
pub fn cache_line_map(
    line_map: &Vec<Option<NodeInfo>>,
    tree: &SyntaxTree,
    facts: &Vec<NodeFacts>,
    allow_tests: bool,
) -> (cached: Vec<Option<CachedNodeInfo>>)
    requires
        entries_fit(line_map@, tree.nodes@.len()),
        facts_fit(facts@, tree.nodes@.len()),
    ensures
        line_map_view(cached@) == project_map(tree.nodes@, facts@, allow_tests, line_map@),
{
    let mut cached: Vec<Option<CachedNodeInfo>> = Vec::new();
    let mut i: usize = 0;
    while i < line_map.len()
        invariant
            i <= line_map@.len(),
            cached@.len() == i,
            entries_fit(line_map@, tree.nodes@.len()),
            facts_fit(facts@, tree.nodes@.len()),
            forall|l: int|
                0 <= l < i ==> crate::block::entry_view(#[trigger] cached@[l]) == project_entry(
                    tree.nodes@,
                    facts@,
                    allow_tests,
                    line_map@[l],
                ),
        decreases line_map@.len() - i,
    {
        let entry = match &line_map[i] {
            Some(info) => Some(CachedNodeInfo::from_node_info(info, tree, facts, allow_tests)),
            None => None,
        };
        cached.push(entry);
        i += 1;
    }
    assert(line_map_view(cached@) =~= project_map(tree.nodes@, facts@, allow_tests, line_map@));
    cached
}

} // verus!
