use probe_blocks::block::CachedNodeInfo;
use probe_blocks::cache::LineMapCache;
use probe_blocks::parser::ParseCaches;
use probe_blocks::tree_cache::get_or_parse_tree;
use probe_blocks::tree_cache::tree_key_for;
use probe_blocks::tree_cache::TreeCache;
use probe_blocks::error::ExtractError;
use probe_blocks::hash::calculate_content_hash;
use probe_blocks::parser::blocks_for_tree;
use probe_blocks::parser::build_file_line_map;
use probe_blocks::parser::parse_file_for_code_blocks;
use probe_blocks::language::Grammar;
use probe_blocks::parsing::parse_source;
use probe_blocks::registry::get_language_impl;
use probe_blocks::registry::grammar_for_extension;
use probe_blocks::registry::language_for;
use std::collections::HashSet;

fn record(kind: &str) -> CachedNodeInfo {
    CachedNodeInfo {
        start_byte: 0,
        end_byte: 9,
        start_row: 0,
        end_row: 0,
        node_kind: kind.to_string(),
        is_comment: false,
        is_test: false,
        original_node_is_acceptable: true,
        context_node_bytes: None,
        context_node_rows: None,
        context_node_kind: None,
        context_node_is_test: None,
        parent_node_type: None,
        parent_start_row: None,
        parent_end_row: None,
    }
}

fn lines(items: &[usize]) -> HashSet<usize> {
    items.iter().cloned().collect()
}

const GO_STRUCT: &str = "package main\n\n// DatasourceResponse represents the response\n// @Description model\ntype DatasourceResponse struct {\n  Type string\n}\n";

#[test]
fn new_cache_holds_nothing() {
    let cache = LineMapCache::new();
    assert_eq!(cache.get("go", 1, true), None);
    assert_eq!(cache.get("", 0, false), None);
}

#[test]
fn cache_gives_back_what_was_stored() {
    let mut cache = LineMapCache::new();
    cache.insert("go", 7, true, vec![Some(record("a")), None]);
    assert_eq!(cache.get("go", 7, true), Some(vec![Some(record("a")), None]));
    // every part of the key counts
    assert_eq!(cache.get("go", 7, false), None);
    assert_eq!(cache.get("go", 8, true), None);
    assert_eq!(cache.get("rs", 7, true), None);
    // a second line map under the same key takes the place of the first
    cache.insert("go", 7, true, vec![Some(record("b"))]);
    assert_eq!(cache.get("go", 7, true), Some(vec![Some(record("b"))]));
    cache.insert("rs", 7, true, vec![]);
    assert_eq!(cache.get("rs", 7, true), Some(vec![]));
    assert_eq!(cache.get("go", 7, true), Some(vec![Some(record("b"))]));
}

#[test]
fn unsupported_extension_is_an_error() {
    let mut cache = ParseCaches::new();
    let r = parse_file_for_code_blocks("line 1\n", "txt", &lines(&[1]), true, None, &mut cache);
    assert_eq!(r, Err(ExtractError::UnsupportedExtension));
    let r = parse_file_for_code_blocks("", "", &lines(&[]), false, None, &mut cache);
    assert_eq!(r, Err(ExtractError::UnsupportedExtension));
    assert_eq!(cache.line_maps.get("txt", calculate_content_hash("line 1\n"), true), None);
    assert_eq!(cache.trees.get("file_txt").map(|t| t.0), None);
}

#[test]
fn error_messages() {
    assert_eq!(ExtractError::UnsupportedExtension.message(), "unsupported file type");
    assert_eq!(ExtractError::ParseFailure.message(), "parse failed");
}

#[test]
fn extensions_and_grammars() {
    assert_eq!(grammar_for_extension("rs"), Some(Grammar::Rust));
    assert_eq!(grammar_for_extension("js"), Some(Grammar::JavaScript));
    assert_eq!(grammar_for_extension("jsx"), Some(Grammar::JavaScript));
    assert_eq!(grammar_for_extension("py"), Some(Grammar::Python));
    assert_eq!(grammar_for_extension("go"), Some(Grammar::Go));
    assert_eq!(grammar_for_extension("txt"), None);
    assert_eq!(grammar_for_extension("GO"), None);
    assert_eq!(grammar_for_extension(""), None);
    assert!(get_language_impl("txt").is_none());
    let go = get_language_impl("go").expect("Go is known");
    assert_eq!(go.grammar, Grammar::Go);
    assert!(go.is_acceptable_parent("type_declaration"));
    assert!(go.is_acceptable_parent("struct_type"));
    assert!(!go.is_acceptable_parent("source_file"));
    let rust = language_for(Grammar::Rust);
    assert!(rust.is_acceptable_parent("function_item"));
    assert!(!rust.is_acceptable_parent("function_declaration"));
    assert_eq!(rust.test_rules.len(), 4);
    assert_eq!(language_for(Grammar::Python).acceptable_kinds, vec!["function_definition", "class_definition"]);
    assert_eq!(language_for(Grammar::JavaScript).enclosing_kinds.len(), 4);
}

#[test]
fn comment_line_gives_the_comment_merged_with_the_struct() {
    let mut cache = ParseCaches::new();
    let blocks = parse_file_for_code_blocks(GO_STRUCT, "go", &lines(&[3]), true, None, &mut cache)
        .expect("Go is parsed");
    assert_eq!(blocks.len(), 1);
    assert_eq!(blocks[0].node_type, "type_declaration");
    assert_eq!(blocks[0].start_row, 2);
    assert_eq!(blocks[0].end_row, 6);
    assert_eq!(&GO_STRUCT[blocks[0].start_byte..blocks[0].end_byte],
        "// DatasourceResponse represents the response\n// @Description model\ntype DatasourceResponse struct {\n  Type string\n}");
    assert_eq!(blocks[0].parent_node_type, None);
}

#[test]
fn declaration_line_gives_the_struct_alone() {
    let mut cache = ParseCaches::new();
    let blocks = parse_file_for_code_blocks(GO_STRUCT, "go", &lines(&[5]), true, None, &mut cache)
        .expect("Go is parsed");
    assert_eq!(blocks.len(), 1);
    assert_eq!(blocks[0].node_type, "type_declaration");
    assert_eq!((blocks[0].start_row, blocks[0].end_row), (4, 6));
}

#[test]
fn comment_and_declaration_lines_give_one_block() {
    let mut cache = ParseCaches::new();
    let blocks = parse_file_for_code_blocks(GO_STRUCT, "go", &lines(&[3, 4, 5, 6]), true, None, &mut cache)
        .expect("Go is parsed");
    assert_eq!(blocks.len(), 1);
    assert_eq!((blocks[0].start_row, blocks[0].end_row), (2, 6));
}

#[test]
fn two_adjacent_structs_stay_apart() {
    let code = "package main\n\n// First\ntype First struct {\n  A string\n}\n\n// Second\ntype Second struct {\n  B string\n}\n";
    let mut cache = ParseCaches::new();
    let blocks = parse_file_for_code_blocks(code, "go", &lines(&[4, 9]), true, None, &mut cache)
        .expect("Go is parsed");
    assert_eq!(blocks.len(), 2);
    assert_eq!((blocks[0].start_row, blocks[0].end_row), (3, 5));
    assert_eq!((blocks[1].start_row, blocks[1].end_row), (8, 10));
    assert!(blocks[0].end_row < blocks[1].start_row);
    assert_eq!(blocks[0].node_type, "type_declaration");
    assert_eq!(blocks[1].node_type, "type_declaration");
}

#[test]
fn second_call_is_answered_from_the_cache() {
    let mut cache = ParseCaches::new();
    let hash = calculate_content_hash(GO_STRUCT);
    assert_eq!(cache.line_maps.get("go", hash, true), None);
    let first = parse_file_for_code_blocks(GO_STRUCT, "go", &lines(&[3]), true, None, &mut cache)
        .expect("Go is parsed");
    let stored = cache.line_maps.get("go", hash, true).expect("the line map is stored");
    assert_eq!(stored.len(), 7);
    let second = parse_file_for_code_blocks(GO_STRUCT, "go", &lines(&[3]), true, None, &mut cache)
        .expect("the line map is cached");
    assert_eq!(first, second);
    assert_eq!(cache.line_maps.get("go", hash, true), Some(stored));
    // the test policy is part of the key
    assert_eq!(cache.line_maps.get("go", hash, false), None);
}

#[test]
fn cached_line_map_serves_other_lines() {
    let mut cache = ParseCaches::new();
    let mut fresh = ParseCaches::new();
    parse_file_for_code_blocks(GO_STRUCT, "go", &lines(&[1]), true, None, &mut cache).expect("parsed");
    let from_cache = parse_file_for_code_blocks(GO_STRUCT, "go", &lines(&[4, 6]), true, None, &mut cache)
        .expect("cached");
    let from_parse = parse_file_for_code_blocks(GO_STRUCT, "go", &lines(&[4, 6]), true, None, &mut fresh)
        .expect("parsed");
    assert_eq!(from_cache, from_parse);
}

#[test]
fn a_hit_reads_what_the_cache_holds() {
    let mut cache = ParseCaches::new();
    let hash = calculate_content_hash(GO_STRUCT);
    cache.line_maps.insert("go", hash, true, vec![Some(record("planted"))]);
    let blocks = parse_file_for_code_blocks(GO_STRUCT, "go", &lines(&[1, 3]), true, None, &mut cache)
        .expect("cached");
    assert_eq!(blocks.len(), 1);
    assert_eq!(blocks[0].node_type, "planted");
}

#[test]
fn blocks_of_a_tree() {
    let tree = parse_source(GO_STRUCT, Grammar::Go).expect("Go is parsed");
    let language = language_for(Grammar::Go);
    let (blocks, map) = blocks_for_tree(&tree, &language, GO_STRUCT, &lines(&[3]), true);
    assert_eq!(map, build_file_line_map(&tree, &language, GO_STRUCT, true));
    assert_eq!(map.len(), 7);
    assert_eq!(blocks.len(), 1);
    assert_eq!((blocks[0].start_row, blocks[0].end_row), (2, 6));
    let first = map[0].as_ref().expect("line 1 is covered");
    assert_eq!(first.node_kind, "package_clause");
    assert!(!first.original_node_is_acceptable);
    // the empty line is covered by the root alone
    let second = map[1].as_ref().expect("line 2 is covered");
    assert_eq!(second.node_kind, "source_file");
    assert_eq!((second.start_row, second.end_row), (0, 7));
    assert_eq!(second.context_node_kind, None);
    let third = map[2].as_ref().expect("line 3 is covered");
    assert!(third.is_comment);
    assert_eq!(third.context_node_kind, Some("type_declaration".to_string()));
    assert_eq!(third.context_node_rows, Some((4, 6)));
}

#[test]
fn blocks_have_the_rows_of_their_bytes() {
    let code = "package main\n\nimport \"fmt\"\n\n// Greeter greets.\ntype Greeter struct {\n\tName string\n}\n\n// Greet prints a greeting.\nfunc (g Greeter) Greet() {\n\tfmt.Println(\"hi \" + g.Name)\n}\n\nfunc main() {\n\tGreeter{Name: \"x\"}.Greet()\n}\n";
    let mut cache = ParseCaches::new();
    let all: HashSet<usize> = (1..=17).collect();
    let blocks = parse_file_for_code_blocks(code, "go", &all, true, None, &mut cache).expect("parsed");
    assert!(!blocks.is_empty());
    for pair in blocks.windows(2) {
        assert!(pair[0].start_row <= pair[1].start_row);
    }
    for b in &blocks {
        assert!(b.start_byte <= b.end_byte && b.end_byte <= code.len());
        assert_eq!(code[..b.start_byte].matches('\n').count(), b.start_row);
        assert_eq!(code[..b.end_byte].matches('\n').count(), b.end_row);
    }
    for a in &blocks {
        for b in &blocks {
            if a.node_type.contains("comment") || b.node_type.contains("comment") {
                continue;
            }
            let overlap = a.start_row <= b.end_row && a.end_row >= b.start_row;
            let a_in_b = a.start_row >= b.start_row && a.end_row <= b.end_row;
            let b_in_a = b.start_row >= a.start_row && b.end_row <= a.end_row;
            assert!(!overlap || a_in_b || b_in_a);
        }
    }
}

#[test]
fn tree_cache_keeps_the_tree_of_the_last_content() {
    let mut trees = TreeCache::new();
    assert!(trees.get("file_go").is_none());
    let key = tree_key_for("go");
    assert_eq!(key, "file_go");
    let first = get_or_parse_tree(&mut trees, &key, GO_STRUCT, Grammar::Go).expect("parsed");
    let (hash, stored) = trees.get("file_go").expect("the tree is stored");
    assert_eq!(hash, calculate_content_hash(GO_STRUCT));
    assert_eq!(stored.len(), first.len());
    let again = get_or_parse_tree(&mut trees, &key, GO_STRUCT, Grammar::Go).expect("cached");
    assert_eq!(again.len(), first.len());
    for (a, b) in again.nodes.iter().zip(first.nodes.iter()) {
        assert_eq!((a.kind.as_str(), a.start_byte, a.end_byte, a.parent), (b.kind.as_str(), b.start_byte, b.end_byte, b.parent));
    }
    // another content under the same key takes the place of the first
    let other = "package other\n";
    let tree = get_or_parse_tree(&mut trees, &key, other, Grammar::Go).expect("parsed");
    let (hash, stored) = trees.get("file_go").expect("the tree is stored");
    assert_eq!(hash, calculate_content_hash(other));
    assert_eq!(stored.len(), tree.len());
    assert!(stored.len() < first.len());
}

#[test]
fn tree_cache_does_not_answer_with_a_tree_of_another_content() {
    let mut trees = TreeCache::new();
    let other = parse_source("package other\n", Grammar::Go).expect("parsed");
    // a tree planted under the hash of a content it was not parsed from
    trees.insert("file_go", calculate_content_hash(GO_STRUCT), other);
    let tree = get_or_parse_tree(&mut trees, "file_go", GO_STRUCT, Grammar::Go).expect("parsed");
    assert_eq!(tree.nodes[0].end_byte, GO_STRUCT.len());
    let (_, stored) = trees.get("file_go").expect("the tree is stored");
    assert_eq!(stored.nodes[0].end_byte, GO_STRUCT.len());
}

#[test]
fn both_test_policies_share_the_tree() {
    let mut caches = ParseCaches::new();
    let with_tests = parse_file_for_code_blocks(GO_STRUCT, "go", &lines(&[5]), true, None, &mut caches)
        .expect("parsed");
    let (hash, _) = caches.trees.get("file_go").expect("the tree is stored");
    assert_eq!(hash, calculate_content_hash(GO_STRUCT));
    let without_tests = parse_file_for_code_blocks(GO_STRUCT, "go", &lines(&[5]), false, None, &mut caches)
        .expect("parsed");
    assert_eq!(with_tests, without_tests);
    assert!(caches.line_maps.get("go", hash, true).is_some());
    assert!(caches.line_maps.get("go", hash, false).is_some());
}
