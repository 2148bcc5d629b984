use probe_blocks::filter::filter_code_block;
use probe_blocks::filter::lines_meet;
use std::collections::HashMap;
use std::collections::HashSet;

fn set(items: &[usize]) -> HashSet<usize> {
    items.iter().cloned().collect()
}

fn matches(entries: &[(usize, &[usize])]) -> HashMap<usize, HashSet<usize>> {
    entries.iter().map(|(q, lines)| (*q, set(lines))).collect()
}

#[test]
fn lines_in_a_range() {
    assert!(lines_meet(&set(&[1, 5, 9]), 5, 5));
    assert!(lines_meet(&set(&[1, 5, 9]), 2, 6));
    assert!(!lines_meet(&set(&[1, 5, 9]), 6, 8));
    assert!(!lines_meet(&set(&[]), 0, 100));
    assert!(!lines_meet(&set(&[3]), 4, 2));
}

#[test]
fn all_terms_mode_needs_every_query() {
    let term_matches = matches(&[(0, &[3, 40]), (1, &[5])]);
    assert!(filter_code_block((1, 10), &term_matches, false, 2, &set(&[])));
    assert!(!filter_code_block((1, 4), &term_matches, false, 2, &set(&[])));
    assert!(!filter_code_block((1, 10), &term_matches, false, 3, &set(&[])));
}

#[test]
fn all_terms_mode_counts_filename_matches() {
    let term_matches = matches(&[(0, &[3])]);
    assert!(filter_code_block((1, 10), &term_matches, false, 2, &set(&[1])));
    assert!(filter_code_block((20, 30), &term_matches, false, 2, &set(&[0, 1])));
    assert!(!filter_code_block((20, 30), &term_matches, false, 2, &set(&[1])));
}

#[test]
fn all_terms_mode_without_queries_includes_everything() {
    assert!(filter_code_block((1, 1), &matches(&[]), false, 0, &set(&[])));
}

#[test]
fn any_term_mode_needs_one_query_in_the_block() {
    let term_matches = matches(&[(0, &[3, 40]), (1, &[50])]);
    assert!(filter_code_block((1, 10), &term_matches, true, 2, &set(&[])));
    assert!(filter_code_block((45, 50), &term_matches, true, 2, &set(&[])));
    assert!(!filter_code_block((10, 30), &term_matches, true, 2, &set(&[])));
}

#[test]
fn any_term_mode_ignores_filename_matches() {
    let term_matches = matches(&[(0, &[3])]);
    assert!(!filter_code_block((10, 30), &term_matches, true, 2, &set(&[0, 1])));
    assert!(!filter_code_block((1, 5), &matches(&[]), true, 2, &set(&[0, 1])));
}
