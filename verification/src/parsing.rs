//! Parsing with tree-sitter, and the copy of its tree into plain values.

use vstd::prelude::*;
use crate::error::ExtractError;
use crate::language::Grammar;
use crate::positions::tree_fits;
use crate::positions::tree_matches_source;
use crate::text::bytes_of;
use crate::tree::BuilderState;
use crate::tree::SyntaxNode;
use crate::tree::SyntaxTree;
use crate::tree::TreeBuilder;
use crate::tree::after_close;
use crate::tree::after_open;
use crate::tree::can_take;

verus! {

/// `tree_sitter::Tree`: a parsed tree. Its values are looked into through
/// `tree_nodes` alone.
#[verifier::external_type_specification]
#[verifier::external_body]
pub struct ExTree(tree_sitter::Tree);

/// One node as the parser reports it.
pub struct RawNode {
    /// The node's kind, as the grammar names it.
    pub kind: String,
    pub start_byte: usize,
    pub end_byte: usize,
    pub start_row: usize,
    pub end_row: usize,
    /// The number of ancestors of the node.
    pub depth: usize,
}

/// What a parsed tree holds: its nodes in depth-first order, the root first.
pub uninterp spec fn tree_nodes(tree: tree_sitter::Tree) -> Seq<RawNode>;

/// The nodes that the parser gives for a content under the grammar of Rust;
/// none if it gives no tree.
pub uninterp spec fn rust_parse(content: Seq<char>) -> Option<Seq<RawNode>>;

/// The nodes that the parser gives for a content under the grammar of
/// JavaScript; none if it gives no tree.
pub uninterp spec fn javascript_parse(content: Seq<char>) -> Option<Seq<RawNode>>;

/// The nodes that the parser gives for a content under the grammar of Python;
/// none if it gives no tree.
pub uninterp spec fn python_parse(content: Seq<char>) -> Option<Seq<RawNode>>;

/// The nodes that the parser gives for a content under the grammar of Go;
/// none if it gives no tree.
pub uninterp spec fn go_parse(content: Seq<char>) -> Option<Seq<RawNode>>;

/// A parse gave what the name of its result says: the tree with those nodes,
/// or no tree.
pub open spec fn parse_agrees(parsed: Option<tree_sitter::Tree>, named: Option<Seq<RawNode>>) -> bool {
    match parsed {
        Some(tree) => named == Some(tree_nodes(tree)),
        None => named is None,
    }
}

/// `tree_sitter::Parser::parse` on the bytes of `content`, with a new parser
/// (`Parser::new`) that was given the grammar `tree_sitter_rust::LANGUAGE`
/// (`Parser::set_language`). The tree depends on the content alone: it is the
/// one that `rust_parse` names. No tree is given if the parser refuses the
/// grammar or gives none.
#[verifier::external_body]
fn parse_rust(content: &str) -> (parsed: Option<tree_sitter::Tree>)
    ensures
        parse_agrees(parsed, rust_parse(content@)),
{
    let mut parser = tree_sitter::Parser::new();
    parser.set_language(&tree_sitter_rust::LANGUAGE.into()).ok()?;
    parser.parse(content, None)
}

/// `tree_sitter::Parser::parse` on the bytes of `content`, with a new parser
/// that was given the grammar `tree_sitter_javascript::LANGUAGE`. The tree
/// depends on the content alone: it is the one that `javascript_parse` names.
#[verifier::external_body]
fn parse_javascript(content: &str) -> (parsed: Option<tree_sitter::Tree>)
    ensures
        parse_agrees(parsed, javascript_parse(content@)),
{
    let mut parser = tree_sitter::Parser::new();
    parser.set_language(&tree_sitter_javascript::LANGUAGE.into()).ok()?;
    parser.parse(content, None)
}

/// `tree_sitter::Parser::parse` on the bytes of `content`, with a new parser
/// that was given the grammar `tree_sitter_python::LANGUAGE`. The tree depends
/// on the content alone: it is the one that `python_parse` names.
#[verifier::external_body]
fn parse_python(content: &str) -> (parsed: Option<tree_sitter::Tree>)
    ensures
        parse_agrees(parsed, python_parse(content@)),
{
    let mut parser = tree_sitter::Parser::new();
    parser.set_language(&tree_sitter_python::LANGUAGE.into()).ok()?;
    parser.parse(content, None)
}

/// `tree_sitter::Parser::parse` on the bytes of `content`, with a new parser
/// that was given the grammar `tree_sitter_go::LANGUAGE`. The tree depends on
/// the content alone: it is the one that `go_parse` names.
#[verifier::external_body]
fn parse_go(content: &str) -> (parsed: Option<tree_sitter::Tree>)
    ensures
        parse_agrees(parsed, go_parse(content@)),
{
    let mut parser = tree_sitter::Parser::new();
    parser.set_language(&tree_sitter_go::LANGUAGE.into()).ok()?;
    parser.parse(content, None)
}

/// `tree_sitter::Node::descendant_count` of the root (`Tree::root_node`): the
/// number of nodes of the tree, the root included.
#[verifier::external_body]
fn tree_node_count(tree: &tree_sitter::Tree) -> (count: usize)
    ensures
        count == tree_nodes(*tree).len(),
{
    tree.root_node().descendant_count()
}

/// The node at a place in the depth-first order of the tree: a cursor
/// (`Tree::walk`) is moved there (`TreeCursor::goto_descendant`), and the kind,
/// the byte offsets and the rows of its node (`TreeCursor::node`, `Node::kind`,
/// `start_byte`, `end_byte`, `start_position`, `end_position`) are copied out
/// with the depth of the cursor (`TreeCursor::depth`).
#[verifier::external_body]
fn tree_node_at(tree: &tree_sitter::Tree, index: usize) -> (node: RawNode)
    requires
        index < tree_nodes(*tree).len(),
    ensures
        node == tree_nodes(*tree)[index as int],
{
    let mut cursor = tree.walk();
    cursor.goto_descendant(index);
    let node = cursor.node();
    RawNode {
        kind: node.kind().to_string(),
        start_byte: node.start_byte(),
        end_byte: node.end_byte(),
        start_row: node.start_position().row,
        end_row: node.end_position().row,
        depth: cursor.depth() as usize,
    }
}

/// The nodes that the parser gives for a content under a grammar; none if it
/// gives no tree.
pub open spec fn parsed_records(grammar: Grammar, content: Seq<char>) -> Option<Seq<RawNode>> {
    match grammar {
        Grammar::Rust => rust_parse(content),
        Grammar::JavaScript => javascript_parse(content),
        Grammar::Python => python_parse(content),
        Grammar::Go => go_parse(content),
    }
}

/// Parses a content under a grammar and lists the nodes of the tree.
pub fn parse_records(content: &str, grammar: Grammar) -> (records: Option<Vec<RawNode>>)
    ensures
        match records {
            Some(r) => parsed_records(grammar, content@) == Some(r@),
            None => parsed_records(grammar, content@) is None,
        },
{
    let parsed = match grammar {
        Grammar::Rust => parse_rust(content),
        Grammar::JavaScript => parse_javascript(content),
        Grammar::Python => parse_python(content),
        Grammar::Go => parse_go(content),
    };
    match parsed {
        Some(tree) => {
            let count = tree_node_count(&tree);
            let mut records: Vec<RawNode> = Vec::new();
            let mut i: usize = 0;
            while i < count
                invariant
                    i <= count,
                    count == tree_nodes(tree).len(),
                    records@ == tree_nodes(tree).take(i as int),
                decreases count - i,
            {
                let node = tree_node_at(&tree, i);
                records.push(node);
                assert(records@ =~= tree_nodes(tree).take(i + 1));
                i += 1;
            }
            assert(tree_nodes(tree).take(count as int) =~= tree_nodes(tree));
            Some(records)
        },
        None => None,
    }
}

/// The builder after its open nodes were closed down to `depth` of them.
pub open spec fn closed_to(s: BuilderState, depth: int) -> BuilderState
    decreases s.open.len(),
{
    if s.open.len() > depth && s.open.len() > 0 {
        closed_to(after_close(s), depth)
    } else {
        s
    }
}

/// The builder after one more node of a depth-first list: the open nodes are
/// closed down to the depth of the node, and the node is opened. None if the
/// node is deeper than a child of the last node would be, or is not taken.
pub open spec fn entered(s: BuilderState, raw: RawNode) -> Option<BuilderState> {
    let c = closed_to(s, raw.depth as int);
    if c.open.len() == raw.depth && can_take(c, raw.start_byte, raw.end_byte) {
        Some(after_open(c, raw.kind, raw.start_byte, raw.end_byte, raw.start_row, raw.end_row))
    } else {
        None
    }
}

/// The builder after the first `n` nodes of a depth-first list.
pub open spec fn replayed(records: Seq<RawNode>, n: int) -> Option<BuilderState>
    decreases n,
{
    if n <= 0 || n > records.len() {
        Some(BuilderState { nodes: Seq::empty(), open: Seq::empty(), last_closed: None })
    } else {
        match replayed(records, n - 1) {
            Some(s) => entered(s, records[n - 1]),
            None => None,
        }
    }
}

/// The tree that a depth-first list of nodes describes: each node becomes
/// the next child of the last node that is less deep. None if the list
/// describes no tree: a node deeper than a child of the node before it, a
/// second root, or a node that comes before the sibling it follows.
pub open spec fn built(records: Seq<RawNode>) -> Option<Seq<SyntaxNode>> {
    match replayed(records, records.len() as int) {
        Some(s) => Some(closed_to(s, 0).nodes),
        None => None,
    }
}

/// Closes the open nodes of a builder down to `depth` of them.
fn close_to(builder: &mut TreeBuilder, depth: usize)
    requires
        old(builder).inv(),
    ensures
        final(builder).inv(),
        final(builder)@ == closed_to(old(builder)@, depth as int),
        final(builder).open@.len() <= old(builder).open@.len(),
        final(builder).open@.len() <= depth || final(builder).open@.len() == 0,
{
    while builder.open.len() > depth
        invariant
            builder.inv(),
            closed_to(builder@, depth as int) == closed_to(old(builder)@, depth as int),
            builder.open@.len() <= old(builder).open@.len(),
        decreases builder.open@.len(),
    {
        builder.close();
    }
}

/// Builds the tree that a depth-first list of nodes describes.
pub fn build_tree(records: &Vec<RawNode>) -> (tree: Option<SyntaxTree>)
    ensures
        match tree {
            Some(t) => built(records@) == Some(t.nodes@) && t.wf(),
            None => built(records@) is None,
        },
{
    let mut builder = TreeBuilder::new();
    let mut i: usize = 0;
    while i < records.len()
        invariant
            i <= records@.len(),
            builder.inv(),
            replayed(records@, i as int) == Some(builder@),
        decreases records@.len() - i,
    {
        let raw = &records[i];
        close_to(&mut builder, raw.depth);
        if builder.open.len() != raw.depth {
            assert(replayed(records@, i + 1) is None);
            proof {
                lemma_replay_stays_none(records@, i + 1, records@.len() as int);
            }
            return None;
        }
        if !builder.open(
            raw.kind.clone(),
            raw.start_byte,
            raw.end_byte,
            raw.start_row,
            raw.end_row,
        ) {
            assert(replayed(records@, i + 1) is None);
            proof {
                lemma_replay_stays_none(records@, i + 1, records@.len() as int);
            }
            return None;
        }
        i += 1;
    }
    close_to(&mut builder, 0);
    builder.finish()
}

/// Once a list describes no tree, no longer list does.
pub proof fn lemma_replay_stays_none(records: Seq<RawNode>, n: int, m: int)
    requires
        0 < n <= m <= records.len(),
        replayed(records, n) is None,
    ensures
        replayed(records, m) is None,
    decreases m - n,
{
    if n < m {
        lemma_replay_stays_none(records, n, m - 1);
    }
}

/// The syntax tree of a content under a grammar: the tree that the nodes
/// given by the parser describe, provided that the rows of its nodes are the
/// rows of their byte offsets in the content. None if the parser gives no
/// tree, or one that does not meet this.
pub open spec fn parsed_tree(grammar: Grammar, content: Seq<char>) -> Option<Seq<SyntaxNode>> {
    match parsed_records(grammar, content) {
        Some(records) => match built(records) {
            Some(nodes) => if tree_fits(bytes_of(content), nodes) {
                Some(nodes)
            } else {
                None
            },
            None => None,
        },
        None => None,
    }
}

/// Parses the content of a file with the grammar of its language.
pub fn parse_source(content: &str, grammar: Grammar) -> (r: Result<SyntaxTree, ExtractError>)
    ensures
        match r {
            Ok(tree) => parsed_tree(grammar, content@) == Some(tree.nodes@) && tree.wf() && tree_fits(
                bytes_of(content@),
                tree.nodes@,
            ),
            Err(e) => e == ExtractError::ParseFailure && parsed_tree(grammar, content@) is None,
        },
{
    match parse_records(content, grammar) {
        Some(records) => match build_tree(&records) {
            Some(tree) => if tree_matches_source(&tree, content.as_bytes()) {
                Ok(tree)
            } else {
                Err(ExtractError::ParseFailure)
            },
            None => Err(ExtractError::ParseFailure),
        },
        None => Err(ExtractError::ParseFailure),
    }
}

} // verus!
