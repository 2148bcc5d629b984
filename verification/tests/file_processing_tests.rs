use probe_blocks::parser::ParseCaches;
use probe_blocks::file_processing::fallback_window;
use probe_blocks::file_processing::line_has_test_marker;
use probe_blocks::file_processing::process_file_by_filename;
use probe_blocks::file_processing::process_file_with_results;
use probe_blocks::file_processing::results_for_blocks;
use probe_blocks::file_processing::should_return_full_file;
use probe_blocks::block::CodeBlock;
use probe_blocks::results::count_term_matches;
use probe_blocks::results::SearchResult;
use std::collections::HashMap;
use std::collections::HashSet;

fn no_queries() -> HashSet<usize> {
    HashSet::new()
}

#[test]
fn test_process_file_by_filename() {
    let content = "function test() {\n  console.log('Hello, world!');\n}\n";
    let file_path = "/tmp/work/test.js";

    let result = process_file_by_filename(file_path, content, 0, None);

    assert_eq!(result.file, file_path);
    assert_eq!(result.lines, (1, 3)); // 3 lines in the file
    assert_eq!(result.node_type, "file");
    assert_eq!(result.code, content);
    assert_eq!(result.matched_by_filename, Some(true));
}

#[test]
fn test_process_file_with_results_single_line() {
    let content = "line 1\nline 2\nline 3\nline 4\nline 5\n";
    let file_path = "/tmp/work/test.txt";

    let mut line_numbers = HashSet::new();
    line_numbers.insert(3); // Match on "line 3"

    let mut cache = ParseCaches::new();
    let results = process_file_with_results(
        file_path,
        content,
        "txt",
        &line_numbers,
        false,
        None,
        false,
        0,
        &no_queries(),
        false,
        false,
        &mut cache,
    );

    assert!(!results.is_empty());
    // Should get context around line 3
    let result = &results[0];
    assert_eq!(result.file, file_path);
    assert!(result.lines.0 <= 3); // Start line should be at or before line 3
    assert!(result.lines.1 >= 3); // End line should be at or after line 3
}

#[test]
fn test_process_file_with_results_multiple_lines() {
    let content = r#"
function test1() {
  console.log('Test 1');
}

function test2() {
  console.log('Test 2');
}
"#;
    let file_path = "/tmp/work/test.js";

    let mut line_numbers = HashSet::new();
    line_numbers.insert(3); // Line in test1 function
    line_numbers.insert(7); // Line in test2 function

    let mut cache = ParseCaches::new();
    let results = process_file_with_results(
        file_path,
        content,
        "js",
        &line_numbers,
        false,
        None,
        false,
        0,
        &no_queries(),
        false,
        false,
        &mut cache,
    );

    assert!(!results.is_empty());
    assert!(results.len() >= 1);
}

#[test]
fn test_process_file_with_results_high_coverage() {
    let content = "line 1\nline 2\nline 3\nline 4\nline 5\n";
    let file_path = "/tmp/work/test.txt";

    // Match on most lines to trigger high coverage behavior
    let mut line_numbers = HashSet::new();
    line_numbers.insert(1);
    line_numbers.insert(2);
    line_numbers.insert(3);
    line_numbers.insert(4);

    let mut cache = ParseCaches::new();
    let results = process_file_with_results(
        file_path,
        content,
        "txt",
        &line_numbers,
        false,
        None,
        false,
        0,
        &no_queries(),
        false,
        true,
        &mut cache,
    );

    assert_eq!(results.len(), 1);
    // When coverage is high, we should just get the whole file
    let result = &results[0];
    assert_eq!(result.file, file_path);
    assert_eq!(result.lines, (1, 5)); // All 5 lines
    assert_eq!(result.node_type, "file");
    assert_eq!(result.code, content);
}

#[test]
fn test_process_empty_file() {
    let content = "";
    let file_path = "/tmp/work/empty.txt";

    let result = process_file_by_filename(file_path, content, 0, None);

    assert_eq!(result.file, file_path);
    assert_eq!(result.lines, (1, 0)); // 0 lines in the file
    assert_eq!(result.node_type, "file");
    assert_eq!(result.code, content);
}

#[test]
fn test_blocks_remain_separate() {
    let content = r#"
function test1() {
  console.log('Test 1');
}

function test2() {
  console.log('Test 2');
}

function test3() {
  console.log('Test 3');
}
"#;
    let file_path = "/tmp/work/test.js";

    let mut line_numbers = HashSet::new();
    line_numbers.insert(2); // Line in test1 function
    line_numbers.insert(6); // Line in test2 function
    line_numbers.insert(10); // Line in test3 function

    let mut cache = ParseCaches::new();
    let results = process_file_with_results(
        file_path,
        content,
        "js",
        &line_numbers,
        true,  // Allow tests
        None,  // No term matches
        false, // All terms mode
        0,     // No queries
        &no_queries(),
        false,
        false,
        &mut cache,
    );

    for result in &results {
        // Each result should have a parent_file_id that matches the file path
        if let Some(parent_id) = &result.parent_file_id {
            assert!(parent_id.contains(file_path));
        }

        // Each result should have a unique block_id
        assert!(result.block_id.is_some());
    }

    // Check if file paths are set correctly
    for result in &results {
        assert_eq!(result.file, file_path);
    }

    // Check if there are no duplicate block_ids within the same file
    let mut seen_block_ids = HashSet::new();
    for result in &results {
        if let Some(block_id) = result.block_id {
            // We should not have seen this block_id before
            assert!(!seen_block_ids.contains(&block_id));
            seen_block_ids.insert(block_id);
        }
    }
}

#[test]
fn window_of_a_line_without_a_block() {
    let content = "line 1\nline 2\nline 3\nline 4\nline 5\n";
    let mut cache = ParseCaches::new();
    let results = process_file_with_results(
        "notes.txt", content, "txt", &[3usize].into_iter().collect(), false, None, false, 0,
        &no_queries(), false, false, &mut cache,
    );
    assert_eq!(results.len(), 1);
    assert_eq!(results[0].lines, (0, 5));
    assert_eq!(results[0].node_type, "context");
    assert_eq!(results[0].code, "line 1\nline 2\nline 3\nline 4\nline 5");
    assert_eq!(results[0].block_id, Some(0));
    assert_eq!(results[0].parent_file_id, Some("notes.txt".to_string()));
    assert_eq!(results[0].matched_by_filename, None);
    assert_eq!(results[0].block_unique_terms, None);
}

#[test]
fn windows_of_a_long_file() {
    let content: String = (1..=100).map(|i| format!("line {}\n", i)).collect();
    let mut cache = ParseCaches::new();
    let lines: HashSet<usize> = [50usize, 60, 95, 71].into_iter().collect();
    let results = process_file_with_results(
        "long.txt", &content, "txt", &lines, false, None, false, 0, &no_queries(), false, true, &mut cache,
    );
    // line 50 gives lines 30-70, which cover line 60; line 71 gives 51-91; line 95 gives 75-100
    let spans: Vec<(usize, usize)> = results.iter().map(|r| r.lines).collect();
    assert_eq!(spans, vec![(30, 70), (51, 91), (75, 100)]);
    assert!(results[0].code.starts_with("line 30\nline 31\n"));
    assert!(results[0].code.ends_with("\nline 70"));
    let ids: Vec<Option<usize>> = results.iter().map(|r| r.block_id).collect();
    assert_eq!(ids, vec![Some(0), Some(1), Some(2)]);
}

#[test]
fn windows_are_withheld_for_test_code() {
    let content = "fn helper() {}\n#[test]\nfn test_it() {}\nmod tests {}\nplain\n";
    let lines: HashSet<usize> = [2usize].into_iter().collect();
    let mut cache = ParseCaches::new();
    let withheld = process_file_with_results(
        "x.txt", content, "txt", &lines, false, None, false, 0, &no_queries(), false, false, &mut cache,
    );
    assert_eq!(withheld, vec![]);
    let shown = process_file_with_results(
        "x.txt", content, "txt", &lines, true, None, false, 0, &no_queries(), false, false, &mut cache,
    );
    assert_eq!(shown.len(), 1);
    let plain: HashSet<usize> = [5usize].into_iter().collect();
    let in_test_file = process_file_with_results(
        "x_test.txt", content, "txt", &plain, false, None, false, 0, &no_queries(), true, false, &mut cache,
    );
    assert_eq!(in_test_file, vec![]);
    let in_other_file = process_file_with_results(
        "x.txt", content, "txt", &plain, false, None, false, 0, &no_queries(), false, false, &mut cache,
    );
    assert_eq!(in_other_file.len(), 1);
}

#[test]
fn test_markers() {
    assert!(line_has_test_marker("    fn test_something() {"));
    assert!(line_has_test_marker("#[test]"));
    assert!(line_has_test_marker("  #[cfg(test)]"));
    assert!(line_has_test_marker("mod tests {"));
    assert!(!line_has_test_marker("fn tests() {"));
    assert!(!line_has_test_marker("#[tes"));
    assert!(!line_has_test_marker(""));
}

#[test]
fn window_bounds() {
    assert_eq!(fallback_window(3, 5), (0, 5));
    assert_eq!(fallback_window(20, 100), (0, 40));
    assert_eq!(fallback_window(21, 100), (1, 41));
    assert_eq!(fallback_window(95, 100), (75, 100));
    assert_eq!(fallback_window(200, 100), (180, 100));
    assert_eq!(fallback_window(0, 0), (0, 0));
    assert_eq!(fallback_window(usize::MAX, 10), (usize::MAX - 20, 10));
}

#[test]
fn full_file_threshold() {
    assert!(should_return_full_file(5, 5));
    assert!(should_return_full_file(6, 5));
    assert!(!should_return_full_file(4, 5));
    assert!(!should_return_full_file(4, 4));
    assert!(should_return_full_file(99, 100));
    assert!(!should_return_full_file(98, 100));
    assert!(should_return_full_file(198, 200));
    assert!(!should_return_full_file(197, 200));
    assert!(!should_return_full_file(0, 0));
}

#[test]
fn blocks_become_results() {
    let content = "a\nb\nc\nd\ne\nf\n";
    let block = CodeBlock {
        start_row: 1,
        end_row: 2,
        start_byte: 2,
        end_byte: 5,
        node_type: "function_item".to_string(),
        parent_node_type: None,
        parent_start_row: None,
        parent_end_row: None,
    };
    let beyond = CodeBlock { start_row: 4, end_row: 6, ..block.clone() };
    let lines: HashSet<usize> = [2usize, 3].into_iter().collect();
    let results = results_for_blocks(
        "f.rs", content, Some(vec![block, beyond]), &lines, true, None, false, 0, &no_queries(), false, false,
    );
    assert_eq!(results.len(), 2);
    assert_eq!(results[0].lines, (2, 3));
    assert_eq!(results[0].code, "b\nc");
    assert_eq!(results[0].node_type, "file");
    // a block that reaches beyond the file has no code
    assert_eq!(results[1].lines, (5, 7));
    assert_eq!(results[1].code, "");
}

#[test]
fn results_are_filtered_by_term_matches() {
    let content = "a\nb\nc\nd\ne\nf\n";
    let block = |start_row: usize, end_row: usize| CodeBlock {
        start_row,
        end_row,
        start_byte: 0,
        end_byte: 0,
        node_type: "function_item".to_string(),
        parent_node_type: None,
        parent_start_row: None,
        parent_end_row: None,
    };
    let mut term_matches: HashMap<usize, HashSet<usize>> = HashMap::new();
    term_matches.insert(0, [1usize, 5].into_iter().collect());
    term_matches.insert(1, [2usize].into_iter().collect());
    let lines: HashSet<usize> = [1usize, 5].into_iter().collect();
    let all_terms = results_for_blocks(
        "f.rs", content, Some(vec![block(0, 1), block(4, 5)]), &lines, true, Some(&term_matches), false, 2,
        &no_queries(), false, false,
    );
    let spans: Vec<(usize, usize)> = all_terms.iter().map(|r| r.lines).collect();
    assert_eq!(spans, vec![(1, 2)]);
    let any_term = results_for_blocks(
        "f.rs", content, Some(vec![block(0, 1), block(4, 5)]), &lines, true, Some(&term_matches), true, 2,
        &no_queries(), false, false,
    );
    let spans: Vec<(usize, usize)> = any_term.iter().map(|r| r.lines).collect();
    assert_eq!(spans, vec![(1, 2), (5, 6)]);
}

#[test]
fn filename_match_with_statistics() {
    let result = process_file_by_filename("a/b.rs", "x\ny", 3, None);
    assert_eq!(result.lines, (1, 2));
    assert_eq!(result.file_unique_terms, Some(3));
    assert_eq!(result.file_total_matches, Some(0));
    assert_eq!(result.block_unique_terms, Some(3));
    assert_eq!(result.block_total_matches, Some(0));
    assert_eq!(result.block_id, None);
    let result = process_file_by_filename("a/b.rs", "x\ny", 3, Some((2, 7)));
    assert_eq!(result.file_unique_terms, Some(2));
    assert_eq!(result.file_total_matches, Some(7));
    assert_eq!(result.block_unique_terms, Some(3));
}

#[test]
fn term_statistics() {
    let terms = |items: &[&str]| -> Vec<String> { items.iter().map(|s| s.to_string()).collect() };
    let block = terms(&["parse", "file", "parse", "tree", "walk", "file", "parse"]);
    assert_eq!(count_term_matches(&block, &terms(&["parse", "walk", "none"])), (2, 4));
    assert_eq!(count_term_matches(&block, &terms(&[])), (0, 0));
    assert_eq!(count_term_matches(&terms(&[]), &terms(&["parse"])), (0, 0));
    assert_eq!(count_term_matches(&block, &terms(&["file", "file"])), (1, 2));

    let counted = SearchResult::plain("f", (1, 2), "file", "code".to_string())
        .with_term_statistics(&block, &terms(&["parse"]));
    assert_eq!(counted.block_unique_terms, Some(1));
    assert_eq!(counted.block_total_matches, Some(3));
    assert_eq!(counted.file_unique_terms, Some(1));
    assert_eq!(counted.file_total_matches, Some(3));
    let window = SearchResult::plain("f", (1, 2), "context", "code".to_string())
        .with_term_statistics(&block, &terms(&["parse"]));
    assert_eq!(window.block_unique_terms, Some(1));
    assert_eq!(window.block_total_matches, Some(3));
    assert_eq!(window.file_unique_terms, None);
    assert_eq!(window.file_total_matches, None);
}
