use probe_blocks::block::CachedNodeInfo;
use probe_blocks::block::CodeBlock;
use probe_blocks::candidate::candidate_block;
use probe_blocks::candidate::emit_block;
use probe_blocks::candidate::kind_outranks;
use probe_blocks::dedupe::block_verdict;
use probe_blocks::dedupe::dedupe_blocks;
use probe_blocks::dedupe::Verdict;
use probe_blocks::extract::extract_blocks;
use probe_blocks::extract::process_cached_line_map;
use probe_blocks::order::sort_blocks;
use probe_blocks::order::sorted_lines;
use std::collections::HashSet;

fn block(start_row: usize, end_row: usize, node_type: &str) -> CodeBlock {
    CodeBlock {
        start_row,
        end_row,
        start_byte: start_row * 10,
        end_byte: end_row * 10 + 9,
        node_type: node_type.to_string(),
        parent_node_type: None,
        parent_start_row: None,
        parent_end_row: None,
    }
}

// A record for a node that forms a block by itself.
fn node(start_row: usize, end_row: usize, kind: &str) -> CachedNodeInfo {
    CachedNodeInfo {
        start_byte: start_row * 10,
        end_byte: end_row * 10 + 9,
        start_row,
        end_row,
        node_kind: kind.to_string(),
        is_comment: false,
        is_test: false,
        original_node_is_acceptable: true,
        context_node_bytes: None,
        context_node_rows: None,
        context_node_kind: None,
        context_node_is_test: None,
        parent_node_type: None,
        parent_start_row: None,
        parent_end_row: None,
    }
}

// A record for a node inside a context.
fn inside(row: usize, kind: &str, ctx: (usize, usize), ctx_kind: &str, ctx_is_test: bool) -> CachedNodeInfo {
    CachedNodeInfo {
        original_node_is_acceptable: false,
        context_node_bytes: Some((ctx.0 * 10, ctx.1 * 10 + 9)),
        context_node_rows: Some(ctx),
        context_node_kind: Some(ctx_kind.to_string()),
        context_node_is_test: Some(ctx_is_test),
        ..node(row, row, kind)
    }
}

fn lines(items: &[usize]) -> HashSet<usize> {
    items.iter().cloned().collect()
}

fn spans(blocks: &[CodeBlock]) -> Vec<(usize, usize, String)> {
    blocks.iter().map(|b| (b.start_row, b.end_row, b.node_type.clone())).collect()
}

#[test]
fn requested_lines_are_taken_in_ascending_order() {
    assert_eq!(sorted_lines(&lines(&[9, 2, 7, 2, 100, 0])), vec![0, 2, 7, 9, 100]);
    assert_eq!(sorted_lines(&lines(&[])), Vec::<usize>::new());
}

#[test]
fn comment_with_context_proposes_the_merged_block() {
    let mut info = inside(2, "comment", (4, 6), "type_declaration", false);
    info.is_comment = true;
    info.parent_node_type = Some("ignored".to_string());
    let block = candidate_block(&info, true).expect("a block");
    assert_eq!(
        block,
        CodeBlock {
            start_row: 2,
            end_row: 6,
            start_byte: 20,
            end_byte: 69,
            node_type: "type_declaration".to_string(),
            parent_node_type: None,
            parent_start_row: None,
            parent_end_row: None,
        }
    );
}

#[test]
fn trailing_comment_merges_backwards() {
    let mut info = inside(9, "comment", (4, 6), "function_item", false);
    info.is_comment = true;
    let block = candidate_block(&info, false).expect("a block");
    assert_eq!((block.start_row, block.end_row), (4, 9));
    assert_eq!((block.start_byte, block.end_byte), (40, 99));
    assert_eq!(block.node_type, "function_item");
}

#[test]
fn comment_with_test_context_stands_alone_when_tests_are_excluded() {
    let mut info = inside(2, "comment", (4, 6), "function_item", true);
    info.is_comment = true;
    let alone = candidate_block(&info, false).expect("a block");
    assert_eq!((alone.start_row, alone.end_row), (2, 2));
    assert_eq!(alone.node_type, "comment");
    let merged = candidate_block(&info, true).expect("a block");
    assert_eq!((merged.start_row, merged.end_row), (2, 6));
    assert_eq!(merged.node_type, "function_item");
}

#[test]
fn comment_without_context_stands_alone() {
    let mut info = node(3, 4, "comment");
    info.is_comment = true;
    info.original_node_is_acceptable = false;
    let block = candidate_block(&info, true).expect("a block");
    assert_eq!((block.start_row, block.end_row), (3, 4));
    assert_eq!(block.node_type, "comment");
}

#[test]
fn test_node_proposes_nothing_when_tests_are_excluded() {
    let mut info = node(9, 13, "function_item");
    info.is_test = true;
    assert_eq!(candidate_block(&info, false), None);
    assert!(candidate_block(&info, true).is_some());
}

#[test]
fn context_is_proposed_with_the_enclosing_declaration() {
    let mut info = inside(6, "field_declaration", (5, 8), "struct_type", false);
    info.parent_node_type = Some("type_declaration".to_string());
    info.parent_start_row = Some(3);
    info.parent_end_row = Some(9);
    let block = candidate_block(&info, false).expect("a block");
    assert_eq!((block.start_row, block.end_row), (5, 8));
    assert_eq!(block.node_type, "struct_type");
    assert_eq!(block.parent_node_type, Some("type_declaration".to_string()));
    assert_eq!(block.parent_start_row, Some(3));
    assert_eq!(block.parent_end_row, Some(9));
}

#[test]
fn node_inside_a_test_proposes_nothing_when_tests_are_excluded() {
    let info = inside(11, "let_declaration", (9, 13), "function_item", true);
    assert_eq!(candidate_block(&info, false), None);
    let with_tests = candidate_block(&info, true).expect("a block");
    assert_eq!((with_tests.start_row, with_tests.end_row), (9, 13));
    assert_eq!(with_tests.node_type, "function_item");
}

#[test]
fn fallback_block_carries_no_enclosing_declaration() {
    let mut info = node(3, 3, "package_clause");
    info.original_node_is_acceptable = false;
    info.parent_node_type = Some("function_declaration".to_string());
    info.parent_start_row = Some(1);
    info.parent_end_row = Some(5);
    let block = candidate_block(&info, true).expect("a block");
    assert_eq!(block.node_type, "package_clause");
    assert_eq!(block.parent_node_type, None);
    assert_eq!(block.parent_start_row, None);
    info.original_node_is_acceptable = true;
    let block = candidate_block(&info, true).expect("a block");
    assert_eq!(block.parent_node_type, Some("function_declaration".to_string()));
    assert_eq!(block.parent_end_row, Some(5));
}

#[test]
fn incomplete_context_counts_as_none() {
    let mut info = inside(6, "x", (5, 8), "struct_type", false);
    info.context_node_kind = None;
    let block = candidate_block(&info, true).expect("a block");
    assert_eq!((block.start_row, block.end_row), (6, 6));
    assert_eq!(block.node_type, "x");
}

#[test]
fn emission_merges_equal_spans_by_priority() {
    let mut blocks = Vec::new();
    emit_block(&mut blocks, block(9, 19, "function_declaration"));
    emit_block(&mut blocks, block(0, 49, "compilation_unit"));
    assert_eq!(blocks.len(), 2);
    emit_block(&mut blocks, block(9, 19, "global_attribute"));
    assert_eq!(spans(&blocks), vec![
        (9, 19, "global_attribute".to_string()),
        (0, 49, "compilation_unit".to_string()),
    ]);
    emit_block(&mut blocks, block(9, 19, "function_declaration"));
    assert_eq!(blocks[0].node_type, "global_attribute");
    emit_block(&mut blocks, block(9, 19, "global_attribute"));
    assert_eq!(blocks.len(), 2);
}

#[test]
fn rank_of_kinds_on_equal_spans() {
    assert!(kind_outranks("global_attribute", "function_declaration"));
    assert!(!kind_outranks("function_declaration", "global_attribute"));
    assert!(!kind_outranks("function_item", "function_item"));
    assert!(kind_outranks("function_item", "identifier"));
    assert!(!kind_outranks("identifier", "function_item"));
    assert!(kind_outranks("alpha", "beta"));
    assert!(!kind_outranks("beta", "alpha"));
    assert!(!kind_outranks("alpha", "alpha"));
}

#[test]
fn sorting_is_stable() {
    let sorted = sort_blocks(&vec![
        block(5, 6, "a"),
        block(1, 9, "b"),
        block(5, 5, "c"),
        block(1, 2, "d"),
        block(0, 0, "e"),
    ]);
    assert_eq!(spans(&sorted), vec![
        (0, 0, "e".to_string()),
        (1, 9, "b".to_string()),
        (1, 2, "d".to_string()),
        (5, 6, "a".to_string()),
        (5, 5, "c".to_string()),
    ]);
}

#[test]
fn verdicts() {
    // no row in common
    assert_eq!(block_verdict(&block(0, 4, "a"), &block(5, 9, "b")), Verdict::Apart);
    // accepted comments do not compete
    assert_eq!(block_verdict(&block(0, 4, "a"), &block(0, 9, "line_comment")), Verdict::Apart);
    // partial overlap
    assert_eq!(block_verdict(&block(0, 5, "function_item"), &block(3, 9, "x")), Verdict::DropIncoming);
    // incoming inside existing
    assert_eq!(block_verdict(&block(2, 3, "function_item"), &block(0, 9, "x")), Verdict::KeepBoth);
    assert_eq!(block_verdict(&block(2, 3, "x"), &block(0, 9, "function_item")), Verdict::DropIncoming);
    assert_eq!(
        block_verdict(&block(2, 3, "function_declaration"), &block(0, 9, "compilation_unit")),
        Verdict::ReplaceExisting
    );
    assert_eq!(
        block_verdict(&block(2, 3, "compilation_unit"), &block(0, 9, "function_declaration")),
        Verdict::DropIncoming
    );
    assert_eq!(
        block_verdict(&block(2, 3, "function_item"), &block(0, 9, "function_item")),
        Verdict::DropIncoming
    );
    assert_eq!(block_verdict(&block(2, 3, "x"), &block(0, 9, "y")), Verdict::ReplaceExisting);
    assert_eq!(block_verdict(&block(2, 3, "class"), &block(0, 9, "y")), Verdict::ReplaceExisting);
    // existing inside incoming
    assert_eq!(block_verdict(&block(0, 9, "function_item"), &block(2, 3, "x")), Verdict::KeepBoth);
    assert_eq!(block_verdict(&block(0, 9, "x"), &block(2, 3, "function_item")), Verdict::DropIncoming);
    assert_eq!(
        block_verdict(&block(0, 9, "type_declaration"), &block(2, 3, "function_declaration")),
        Verdict::ReplaceExisting
    );
    assert_eq!(
        block_verdict(&block(0, 9, "function_declaration"), &block(2, 3, "type_declaration")),
        Verdict::DropIncoming
    );
    assert_eq!(block_verdict(&block(0, 9, "x"), &block(2, 3, "y")), Verdict::DropIncoming);
    assert_eq!(
        block_verdict(&block(0, 9, "function_item"), &block(2, 3, "function_item")),
        Verdict::DropIncoming
    );
}

#[test]
fn overlap_with_priority() {
    // A compilation unit over rows 0-49 and a function over rows 9-19.
    let mut map: Vec<Option<CachedNodeInfo>> = vec![None; 50];
    map[14] = Some(inside(14, "identifier", (9, 19), "function_declaration", false));
    map[29] = Some(node(0, 49, "compilation_unit"));
    let blocks = process_cached_line_map(&map, &lines(&[15, 30]), true);
    assert_eq!(spans(&blocks), vec![(9, 19, "function_declaration".to_string())]);

    // A global attribute over the same rows takes the place of the function.
    map[15] = Some(inside(15, "identifier", (9, 19), "global_attribute", false));
    let blocks = process_cached_line_map(&map, &lines(&[15, 16, 30]), true);
    assert_eq!(spans(&blocks), vec![(9, 19, "global_attribute".to_string())]);
}

#[test]
fn comments_come_through_deduplication_unchanged() {
    let deduped = dedupe_blocks(&vec![
        block(0, 20, "function_item"),
        block(2, 3, "line_comment"),
        block(5, 30, "impl_item"),
        block(6, 7, "comment"),
    ]);
    assert_eq!(spans(&deduped), vec![
        (2, 3, "line_comment".to_string()),
        (6, 7, "comment".to_string()),
        (0, 20, "function_item".to_string()),
    ]);
}

#[test]
fn replaced_blocks_leave_even_if_the_incoming_block_is_dropped() {
    // x lies inside a and outranks it, then overlaps b in part.
    let deduped = dedupe_blocks(&vec![
        block(0, 10, "function_declaration"),
        block(0, 4, "aaa"),
        block(2, 8, "type_declaration"),
    ]);
    // "aaa" lies inside the function and is plain: dropped.
    // the type declaration lies inside the function and outranks it.
    assert_eq!(spans(&deduped), vec![(2, 8, "type_declaration".to_string())]);
}

#[test]
fn out_of_range_lines_are_skipped() {
    let map: Vec<Option<CachedNodeInfo>> = vec![Some(node(0, 0, "function_item")), None];
    assert_eq!(process_cached_line_map(&map, &lines(&[3, 4, 1000]), true), vec![]);
    assert_eq!(process_cached_line_map(&map, &lines(&[2]), true), vec![]);
    assert_eq!(process_cached_line_map(&map, &lines(&[]), true), vec![]);
    let blocks = process_cached_line_map(&map, &lines(&[1, 1000]), true);
    assert_eq!(spans(&blocks), vec![(0, 0, "function_item".to_string())]);
    assert_eq!(process_cached_line_map(&[], &lines(&[1]), true), vec![]);
}

#[test]
fn line_zero_is_read_as_line_one() {
    let map: Vec<Option<CachedNodeInfo>> = vec![Some(node(0, 0, "function_item"))];
    let blocks = process_cached_line_map(&map, &lines(&[0]), true);
    assert_eq!(spans(&blocks), vec![(0, 0, "function_item".to_string())]);
}

#[test]
fn output_is_sorted_and_free_of_partial_overlap() {
    let mut map: Vec<Option<CachedNodeInfo>> = vec![None; 60];
    map[40] = Some(node(38, 45, "function_item"));
    map[3] = Some(node(2, 8, "function_item"));
    map[5] = Some(node(5, 12, "struct_item"));
    map[20] = Some(inside(20, "x", (15, 30), "impl_item", false));
    map[22] = Some(node(21, 23, "function_item"));
    map[50] = Some(node(44, 55, "plain"));
    let blocks = process_cached_line_map(&map, &lines(&[41, 4, 6, 21, 23, 51]), true);
    for pair in blocks.windows(2) {
        assert!(pair[0].start_row <= pair[1].start_row);
    }
    for a in &blocks {
        for b in &blocks {
            let overlap = a.start_row <= b.end_row && a.end_row >= b.start_row;
            let a_in_b = a.start_row >= b.start_row && a.end_row <= b.end_row;
            let b_in_a = b.start_row >= a.start_row && b.end_row <= a.end_row;
            assert!(!overlap || a_in_b || b_in_a);
        }
    }
    // the struct overlaps the first function in part; the inner function yields
    // to the impl that holds it; the plain block overlaps the last function in part
    assert_eq!(spans(&blocks), vec![
        (2, 8, "function_item".to_string()),
        (15, 30, "impl_item".to_string()),
        (38, 45, "function_item".to_string()),
    ]);
}

#[test]
fn extraction_depends_on_the_set_of_lines_alone() {
    let mut map: Vec<Option<CachedNodeInfo>> = vec![None; 30];
    map[3] = Some(node(2, 8, "function_item"));
    map[20] = Some(node(15, 25, "impl_item"));
    let one = process_cached_line_map(&map, &lines(&[4, 21]), false);
    let other = process_cached_line_map(&map, &lines(&[21, 4]), false);
    assert_eq!(one, other);
    assert_eq!(one, extract_blocks(&map, &[4, 21], false));
}
