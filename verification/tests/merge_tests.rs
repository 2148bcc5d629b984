use probe_blocks::block::CodeBlock;
use probe_blocks::merge::merge_blocks_within;
use probe_blocks::merge::merge_code_blocks;
use probe_blocks::merge::merge_if_enabled;
use probe_blocks::merge::DEFAULT_MERGE_THRESHOLD;

fn block(start_row: usize, end_row: usize, node_type: &str) -> CodeBlock {
    CodeBlock {
        start_row,
        end_row,
        start_byte: start_row * 10,
        end_byte: end_row * 10 + 9,
        node_type: node_type.to_string(),
        parent_node_type: None,
        parent_start_row: None,
        parent_end_row: None,
    }
}

#[test]
fn default_threshold_is_five() {
    assert_eq!(DEFAULT_MERGE_THRESHOLD, 5);
}

#[test]
fn blocks_within_the_gap_are_merged() {
    let merged = merge_code_blocks(vec![
        block(1, 3, "function_declaration"),
        block(5, 7, "function_declaration"),
    ]);
    assert_eq!(merged.len(), 1);
    assert_eq!(merged[0].start_row, 1);
    assert_eq!(merged[0].end_row, 7);
    assert_eq!(merged[0].start_byte, 10);
    assert_eq!(merged[0].end_byte, 79);
    assert_eq!(merged[0].node_type, "function_declaration");
}

#[test]
fn gap_of_exactly_the_threshold_merges_and_one_more_does_not() {
    let merged = merge_code_blocks(vec![block(0, 2, "a"), block(7, 9, "a")]);
    assert_eq!(merged.len(), 1);
    let apart = merge_code_blocks(vec![block(0, 2, "a"), block(8, 9, "a")]);
    assert_eq!(apart.len(), 2);
    assert_eq!(apart[0], block(0, 2, "a"));
    assert_eq!(apart[1], block(8, 9, "a"));
}

#[test]
fn runs_grow_as_blocks_are_joined() {
    let merged = merge_blocks_within(
        &vec![block(0, 1, "x"), block(3, 4, "x"), block(6, 20, "x"), block(23, 24, "x"), block(40, 41, "x")],
        2,
    );
    assert_eq!(merged.len(), 3);
    assert_eq!((merged[0].start_row, merged[0].end_row), (0, 20));
    assert_eq!((merged[1].start_row, merged[1].end_row), (23, 24));
    assert_eq!((merged[2].start_row, merged[2].end_row), (40, 41));
}

#[test]
fn merged_kind_is_the_one_of_higher_priority() {
    let merged = merge_code_blocks(vec![
        block(0, 2, "function_declaration"),
        block(3, 5, "type_declaration"),
    ]);
    assert_eq!(merged.len(), 1);
    assert_eq!(merged[0].node_type, "type_declaration");
    let merged = merge_code_blocks(vec![
        block(0, 2, "type_declaration"),
        block(3, 5, "function_declaration"),
    ]);
    assert_eq!(merged[0].node_type, "type_declaration");
    let merged = merge_code_blocks(vec![block(0, 2, "zzz"), block(3, 5, "aaa")]);
    assert_eq!(merged[0].node_type, "aaa");
}

#[test]
fn threshold_zero_leaves_separate_blocks_alone() {
    let blocks = vec![block(0, 2, "a"), block(3, 5, "b"), block(9, 9, "c")];
    let merged = merge_blocks_within(&blocks, 0);
    assert_eq!(merged, blocks);
}

#[test]
fn merging_twice_is_merging_once() {
    let blocks = vec![
        block(0, 2, "a"),
        block(4, 5, "function_item"),
        block(5, 30, "b"),
        block(33, 34, "c"),
        block(50, 60, "d"),
        block(61, 61, "impl_item"),
    ];
    for threshold in [0usize, 1, 2, 5, 100] {
        let once = merge_blocks_within(&blocks, threshold);
        let twice = merge_blocks_within(&once, threshold);
        assert_eq!(once, twice);
    }
}

#[test]
fn merging_can_be_switched_off() {
    let blocks = vec![block(0, 2, "a"), block(3, 5, "a")];
    let kept = merge_if_enabled(vec![block(0, 2, "a"), block(3, 5, "a")], false, None);
    assert_eq!(kept, blocks);
    let merged = merge_if_enabled(vec![block(0, 2, "a"), block(3, 5, "a")], true, None);
    assert_eq!(merged.len(), 1);
    let apart = merge_if_enabled(vec![block(0, 2, "a"), block(4, 5, "a")], true, Some(1));
    assert_eq!(apart.len(), 2);
}
