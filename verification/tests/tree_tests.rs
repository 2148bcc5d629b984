use probe_blocks::block::CachedNodeInfo;
use probe_blocks::cached::cache_line_map;
use probe_blocks::context::find_acceptable_child;
use probe_blocks::context::find_comment_context_node;
use probe_blocks::context::find_immediate_next_node;
use probe_blocks::context::find_prev_sibling;
use probe_blocks::extract::process_cached_line_map;
use probe_blocks::language::Grammar;
use probe_blocks::language::LanguageImpl;
use probe_blocks::language::NodeFacts;
use probe_blocks::language::Place;
use probe_blocks::language::TestRule;
use probe_blocks::language::TextMatch;
use probe_blocks::line_map::build_line_map;
use probe_blocks::line_map::node_specificity;
use probe_blocks::line_map::should_update_line_map;
use probe_blocks::line_map::NodeInfo;
use probe_blocks::positions::line_starts;
use probe_blocks::positions::point_matches;
use probe_blocks::parsing::build_tree;
use probe_blocks::parsing::RawNode;
use probe_blocks::positions::tree_matches_source;
use probe_blocks::tree::SyntaxTree;
use probe_blocks::tree::TreeBuilder;
use std::collections::HashSet;

// A language for hand-made trees.
fn toy_language() -> LanguageImpl {
    LanguageImpl {
        grammar: Grammar::Go,
        acceptable_kinds: vec![
            "function".to_string(),
            "type_declaration".to_string(),
            "struct_type".to_string(),
        ],
        enclosing_kinds: vec!["type_declaration".to_string()],
        test_rules: vec![TestRule {
            holder_kind: "function".to_string(),
            part_kind: "attribute".to_string(),
            place: Place::Child,
            how: TextMatch::Contains,
            text: "#[test".to_string(),
        }],
    }
}

// Builds a tree from (depth, kind, start_byte, end_byte, start_row, end_row), in depth-first order.
fn tree_of(nodes: &[(usize, &str, usize, usize, usize, usize)]) -> SyntaxTree {
    let mut builder = TreeBuilder::new();
    let mut depth = 0;
    for (i, n) in nodes.iter().enumerate() {
        if i > 0 {
            while depth >= n.0 + 1 {
                assert!(builder.close());
                depth -= 1;
            }
        }
        assert!(builder.open(n.1.to_string(), n.2, n.3, n.4, n.5), "node {} is not taken", i);
        depth = n.0 + 1;
    }
    while depth > 0 {
        assert!(builder.close());
        depth -= 1;
    }
    builder.finish().expect("every node is closed")
}

fn lines(items: &[usize]) -> HashSet<usize> {
    items.iter().cloned().collect()
}

fn sample() -> SyntaxTree {
    tree_of(&[
        (0, "file", 0, 100, 0, 9),
        (1, "comment", 0, 9, 0, 0),
        (1, "comment", 10, 19, 1, 1),
        (1, "function", 20, 49, 2, 4),
        (2, "name", 20, 25, 2, 2),
        (2, "body", 26, 49, 2, 4),
        (3, "statement", 30, 39, 3, 3),
        (1, "wrapper", 50, 89, 5, 8),
        (2, "comment", 50, 59, 5, 5),
        (2, "holder", 60, 89, 6, 8),
        (3, "type_declaration", 60, 89, 6, 8),
        (1, "comment", 90, 99, 9, 9),
    ])
}

#[test]
fn builder_records_parents_and_subtrees() {
    let tree = sample();
    assert_eq!(tree.len(), 12);
    let parents: Vec<Option<usize>> = tree.nodes.iter().map(|n| n.parent).collect();
    assert_eq!(
        parents,
        vec![None, Some(0), Some(0), Some(0), Some(3), Some(3), Some(5), Some(0), Some(7), Some(7), Some(9), Some(0)]
    );
    let ends: Vec<usize> = tree.nodes.iter().map(|n| n.subtree_end).collect();
    assert_eq!(ends, vec![12, 2, 3, 7, 5, 7, 7, 11, 9, 11, 11, 12]);
    assert_eq!(tree.nodes[6].kind, "statement");
    assert_eq!((tree.nodes[6].start_byte, tree.nodes[6].end_byte), (30, 39));
    assert_eq!((tree.nodes[6].start_row, tree.nodes[6].end_row), (3, 3));
}

#[test]
fn navigation() {
    let tree = sample();
    assert_eq!(tree.parent(0), None);
    assert_eq!(tree.parent(6), Some(5));
    assert_eq!(tree.next_sibling(0), None);
    assert_eq!(tree.next_sibling(1), Some(2));
    assert_eq!(tree.next_sibling(3), Some(7));
    assert_eq!(tree.next_sibling(6), None);
    assert_eq!(tree.next_sibling(11), None);
    assert_eq!(tree.prev_sibling(0), None);
    assert_eq!(tree.prev_sibling(1), None);
    assert_eq!(tree.prev_sibling(7), Some(3));
    assert_eq!(tree.prev_sibling(11), Some(7));
    assert_eq!(find_prev_sibling(&tree, 9), Some(8));
    assert_eq!(find_prev_sibling(&tree, 4), None);
    assert_eq!(find_immediate_next_node(&tree, 4), Some(5));
    assert_eq!(find_immediate_next_node(&tree, 6), None);
    assert_eq!(find_immediate_next_node(&tree, 5), Some(7));
    assert_eq!(find_immediate_next_node(&tree, 10), None);
    assert_eq!(find_immediate_next_node(&tree, 9), Some(11));
}

#[test]
fn builder_refuses_what_is_no_tree() {
    let mut builder = TreeBuilder::new();
    assert!(!builder.close());
    assert!(builder.finish().is_some());

    let mut builder = TreeBuilder::new();
    assert!(builder.open("file".to_string(), 0, 10, 0, 1));
    assert!(builder.finish().is_none());

    let mut builder = TreeBuilder::new();
    assert!(builder.open("file".to_string(), 0, 10, 0, 1));
    assert!(builder.close());
    // a second root
    assert!(!builder.open("file".to_string(), 0, 10, 0, 1));
    assert_eq!(builder.nodes.len(), 1);

    let mut builder = TreeBuilder::new();
    assert!(builder.open("file".to_string(), 0, 10, 0, 1));
    assert!(builder.open("a".to_string(), 5, 8, 0, 0));
    assert!(builder.close());
    // a sibling that comes before the one it follows
    assert!(!builder.open("b".to_string(), 4, 9, 0, 0));
    assert!(!builder.open("b".to_string(), 5, 7, 0, 0));
    assert!(builder.open("b".to_string(), 5, 8, 0, 0));
    assert!(builder.close());
    assert!(builder.open("c".to_string(), 5, 9, 0, 0));
}

#[test]
fn facts_of_the_sample() {
    let tree = sample();
    let source = vec![b' '; 100];
    let facts = toy_language().classify(&tree, &source);
    let acceptable: Vec<bool> = facts.iter().map(|f| f.acceptable).collect();
    assert_eq!(
        acceptable,
        vec![false, false, false, true, false, false, false, false, false, false, true, false]
    );
    assert!(facts.iter().all(|f| !f.is_test && f.enclosing.is_none()));
}

#[test]
fn comment_contexts() {
    let tree = sample();
    let source = vec![b' '; 100];
    let facts = toy_language().classify(&tree, &source);
    // the siblings after the comment, passing over other comments
    assert_eq!(find_comment_context_node(&tree, &facts, 1), Some(3));
    assert_eq!(find_comment_context_node(&tree, &facts, 2), Some(3));
    // the next sibling forms no block but holds a node that does
    assert_eq!(find_comment_context_node(&tree, &facts, 8), Some(10));
    assert_eq!(find_acceptable_child(&tree, &facts, 9), Some(10));
    assert_eq!(find_acceptable_child(&tree, &facts, 0), Some(3));
    assert_eq!(find_acceptable_child(&tree, &facts, 4), None);
    // a trailing comment: the sibling before it, or what it holds
    assert_eq!(find_comment_context_node(&tree, &facts, 11), Some(10));
}

#[test]
fn comment_without_any_context() {
    let tree = tree_of(&[(0, "file", 0, 30, 0, 2), (1, "comment", 0, 9, 0, 0), (1, "other", 10, 19, 1, 1)]);
    let facts = toy_language().classify(&tree, &vec![b' '; 30]);
    assert_eq!(find_comment_context_node(&tree, &facts, 1), None);
}

#[test]
fn comment_inside_a_block_finds_the_ancestor() {
    let tree = tree_of(&[
        (0, "file", 0, 50, 0, 4),
        (1, "function", 0, 50, 0, 4),
        (2, "body", 5, 50, 0, 4),
        (3, "statement", 10, 19, 1, 1),
        (3, "comment", 20, 29, 2, 2),
        (3, "statement", 30, 39, 3, 3),
    ]);
    let facts = toy_language().classify(&tree, &vec![b' '; 50]);
    assert_eq!(find_comment_context_node(&tree, &facts, 4), Some(1));
}

#[test]
fn specificity_formula() {
    let tree = tree_of(&[(0, "file", 0, 1234, 0, 9), (1, "a", 10, 10, 3, 3), (1, "b", 100, 399, 4, 6)]);
    assert_eq!(node_specificity(&tree.nodes[0]), 10 * 1000 + 12);
    assert_eq!(node_specificity(&tree.nodes[1]), 1000);
    assert_eq!(node_specificity(&tree.nodes[2]), 3 * 1000 + 2);
}

#[test]
fn rules_for_taking_a_line() {
    let held = |info: NodeInfo| vec![Some(info)];
    let plain = NodeInfo { node: 5, is_comment: false, context_node: Some(3), is_test: false, specificity: 2000 };
    assert!(should_update_line_map(&[None], 0, 7, false, None, 9999));
    // the more specific node wins; a tie keeps the record
    assert!(should_update_line_map(&held(plain), 0, 7, false, None, 1999));
    assert!(!should_update_line_map(&held(plain), 0, 7, false, None, 2000));
    assert!(!should_update_line_map(&held(plain), 0, 7, false, None, 2001));
    // a comment keeps its line against the declaration it documents
    let comment = NodeInfo { node: 2, is_comment: true, context_node: Some(7), is_test: false, specificity: 5000 };
    assert!(!should_update_line_map(&held(comment), 0, 7, false, None, 1));
    assert!(should_update_line_map(&held(comment), 0, 8, false, None, 1));
    // a comment takes the line from the declaration it documents
    assert!(should_update_line_map(&held(plain), 0, 9, true, Some(5), 9999));
    assert!(!should_update_line_map(&held(plain), 0, 9, true, Some(6), 9999));
    assert!(!should_update_line_map(&held(plain), 0, 9, false, Some(5), 9999));
}

#[test]
fn line_map_of_the_sample() {
    let tree = sample();
    let facts = toy_language().classify(&tree, &vec![b' '; 100]);
    let map = build_line_map(&tree, &facts, true, &[(0, 9)], 0, 10);
    let nodes: Vec<Option<usize>> = map.iter().map(|e| e.map(|i| i.node)).collect();
    assert_eq!(
        nodes,
        vec![Some(1), Some(2), Some(4), Some(6), Some(3), Some(8), Some(9), Some(9), Some(9), Some(11)]
    );
    let contexts: Vec<Option<usize>> = map.iter().map(|e| e.and_then(|i| i.context_node)).collect();
    assert_eq!(
        contexts,
        vec![Some(3), Some(3), Some(3), Some(3), None, Some(10), None, None, None, Some(10)]
    );
    // the body covers as many rows as the function and comes later: the function keeps row 4
    assert_eq!(map[4].unwrap().specificity, 3000);
    assert!(map[0].unwrap().is_comment);
    assert!(!map[2].unwrap().is_comment);
    assert_eq!(map[3].unwrap().specificity, 1000);
}

#[test]
fn line_map_within_a_window() {
    let tree = sample();
    let facts = toy_language().classify(&tree, &vec![b' '; 100]);
    // entries for the lines 2 to 5, filled for the lines 3 and 4 only
    let map = build_line_map(&tree, &facts, true, &[(3, 4)], 2, 4);
    let nodes: Vec<Option<usize>> = map.iter().map(|e| e.map(|i| i.node)).collect();
    assert_eq!(nodes, vec![None, Some(6), Some(3), None]);
    // no range, no entries
    let map = build_line_map(&tree, &facts, true, &[], 0, 10);
    assert!(map.iter().all(|e| e.is_none()));
    // an empty tree
    let empty = TreeBuilder::new().finish().expect("an empty tree");
    let map = build_line_map(&empty, &Vec::<NodeFacts>::new(), true, &[(0, 2)], 0, 3);
    assert_eq!(map, vec![None, None, None]);
}

#[test]
fn nested_struct_type_reports_the_enclosing_declaration() {
    // An outer type at lines 4-10 holds a struct type at lines 6-9.
    let tree = tree_of(&[
        (0, "file", 0, 200, 0, 10),
        (1, "type_declaration", 30, 109, 3, 9),
        (2, "type", 30, 34, 3, 3),
        (2, "struct_type", 50, 99, 5, 8),
        (3, "field", 60, 69, 6, 6),
        (3, "field", 70, 79, 7, 7),
    ]);
    let facts = toy_language().classify(&tree, &vec![b' '; 200]);
    assert_eq!(facts[3].enclosing, Some(1));
    assert_eq!(facts[1].enclosing, None);
    let map = build_line_map(&tree, &facts, true, &[(0, 10)], 0, 11);
    let cached = cache_line_map(&map, &tree, &facts, true);
    let blocks = process_cached_line_map(&cached, &lines(&[7]), true);
    assert_eq!(blocks.len(), 1);
    assert_eq!(blocks[0].node_type, "struct_type");
    assert_eq!((blocks[0].start_row, blocks[0].end_row), (5, 8));
    assert_eq!(blocks[0].parent_node_type, Some("type_declaration".to_string()));
    assert_eq!(blocks[0].parent_start_row, Some(3));
    assert_eq!(blocks[0].parent_end_row, Some(9));
}

#[test]
fn test_function_is_excluded() {
    // A test function at lines 10-14, with its attribute on the first line.
    let mut source = vec![b' '; 140];
    source[90..97].copy_from_slice(b"#[test]");
    let tree = tree_of(&[
        (0, "file", 0, 140, 0, 13),
        (1, "function", 90, 139, 9, 13),
        (2, "attribute", 90, 97, 9, 9),
    ]);
    let language = toy_language();
    let facts = language.classify(&tree, &source);
    assert!(facts[1].is_test);
    assert!(!facts[0].is_test);
    assert!(language.is_test_node(&tree, &source, 1));

    let map = build_line_map(&tree, &facts, false, &[(0, 13)], 0, 14);
    assert!(map[11].unwrap().is_test);
    let cached = cache_line_map(&map, &tree, &facts, false);
    assert_eq!(process_cached_line_map(&cached, &lines(&[12]), false), vec![]);

    let map = build_line_map(&tree, &facts, true, &[(0, 13)], 0, 14);
    assert!(!map[11].unwrap().is_test);
    let cached = cache_line_map(&map, &tree, &facts, true);
    let blocks = process_cached_line_map(&cached, &lines(&[12]), true);
    assert_eq!(blocks.len(), 1);
    assert_eq!((blocks[0].start_row, blocks[0].end_row), (9, 13));
    assert_eq!(blocks[0].node_type, "function");
}

#[test]
fn projection_of_a_record() {
    let tree = sample();
    let facts = toy_language().classify(&tree, &vec![b' '; 100]);
    let info = NodeInfo { node: 1, is_comment: true, context_node: Some(3), is_test: false, specificity: 1000 };
    let cached = CachedNodeInfo::from_node_info(&info, &tree, &facts, true);
    assert_eq!(
        cached,
        CachedNodeInfo {
            start_byte: 0,
            end_byte: 9,
            start_row: 0,
            end_row: 0,
            node_kind: "comment".to_string(),
            is_comment: true,
            is_test: false,
            original_node_is_acceptable: false,
            context_node_bytes: Some((20, 49)),
            context_node_rows: Some((2, 4)),
            context_node_kind: Some("function".to_string()),
            context_node_is_test: Some(false),
            parent_node_type: None,
            parent_start_row: None,
            parent_end_row: None,
        }
    );
}

#[test]
fn rows_of_byte_offsets() {
    let source = b"ab\ncd\n\nxyz";
    let starts = line_starts(source);
    assert_eq!(starts, vec![0, 3, 6, 7]);
    assert!(point_matches(source, &starts, 0, 0));
    assert!(point_matches(source, &starts, 2, 0));
    assert!(!point_matches(source, &starts, 3, 0));
    assert!(point_matches(source, &starts, 3, 1));
    assert!(point_matches(source, &starts, 6, 2));
    assert!(point_matches(source, &starts, 7, 3));
    assert!(point_matches(source, &starts, 10, 3));
    assert!(!point_matches(source, &starts, 11, 3));
    assert!(!point_matches(source, &starts, 7, 2));
    assert!(!point_matches(source, &starts, 7, 4));
    assert_eq!(line_starts(b""), vec![0]);
    assert_eq!(line_starts(b"\n"), vec![0, 1]);
}

#[test]
fn tree_positions_are_checked() {
    let source = b"ab\ncd\n\nxyz";
    let good = tree_of(&[(0, "file", 0, 10, 0, 3), (1, "a", 3, 5, 1, 1)]);
    assert!(tree_matches_source(&good, source));
    let bad_row = tree_of(&[(0, "file", 0, 10, 0, 3), (1, "a", 3, 5, 1, 2)]);
    assert!(!tree_matches_source(&bad_row, source));
    let bad_range = tree_of(&[(0, "file", 0, 10, 0, 3), (1, "a", 5, 3, 1, 1)]);
    assert!(!tree_matches_source(&bad_range, source));
    let beyond = tree_of(&[(0, "file", 0, 11, 0, 3)]);
    assert!(!tree_matches_source(&beyond, source));
}

fn raw(depth: usize, kind: &str, start_byte: usize, end_byte: usize) -> RawNode {
    RawNode { kind: kind.to_string(), start_byte, end_byte, start_row: 0, end_row: 0, depth }
}

#[test]
fn tree_from_a_depth_first_list() {
    let tree = build_tree(&vec![
        raw(0, "file", 0, 50),
        raw(1, "a", 0, 10),
        raw(2, "b", 0, 5),
        raw(3, "c", 1, 2),
        raw(1, "d", 10, 20),
        raw(2, "e", 12, 14),
        raw(2, "f", 14, 18),
    ])
    .expect("the list describes a tree");
    let parents: Vec<Option<usize>> = tree.nodes.iter().map(|n| n.parent).collect();
    assert_eq!(parents, vec![None, Some(0), Some(1), Some(2), Some(0), Some(4), Some(4)]);
    let ends: Vec<usize> = tree.nodes.iter().map(|n| n.subtree_end).collect();
    assert_eq!(ends, vec![7, 4, 4, 4, 7, 6, 7]);
    let kinds: Vec<&str> = tree.nodes.iter().map(|n| n.kind.as_str()).collect();
    assert_eq!(kinds, vec!["file", "a", "b", "c", "d", "e", "f"]);
    assert_eq!((tree.nodes[5].start_byte, tree.nodes[5].end_byte), (12, 14));
}

#[test]
fn lists_that_describe_no_tree() {
    // an empty list describes the empty tree
    assert_eq!(build_tree(&vec![]).expect("a tree").len(), 0);
    // the first node must be a root
    assert!(build_tree(&vec![raw(1, "a", 0, 1)]).is_none());
    // a second root
    assert!(build_tree(&vec![raw(0, "a", 0, 1), raw(0, "b", 1, 2)]).is_none());
    // a node deeper than a child of the node before it
    assert!(build_tree(&vec![raw(0, "a", 0, 9), raw(2, "b", 1, 2)]).is_none());
    // a sibling that comes before the one it follows
    assert!(build_tree(&vec![raw(0, "a", 0, 9), raw(1, "b", 5, 6), raw(1, "c", 4, 8)]).is_none());
    assert!(build_tree(&vec![raw(0, "a", 0, 9), raw(1, "b", 5, 6), raw(1, "c", 5, 8)]).is_some());
}
