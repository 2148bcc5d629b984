use probe_blocks::parser::ParseCaches;
use probe_blocks::language::Grammar;
use probe_blocks::parser::parse_file_for_code_blocks;
use probe_blocks::parsing::parse_records;
use probe_blocks::parsing::parse_source;
use probe_blocks::positions::tree_matches_source;
use probe_blocks::registry::language_for;
use std::collections::HashSet;

fn lines(items: &[usize]) -> HashSet<usize> {
    items.iter().cloned().collect()
}

fn spans(code: &str, extension: &str, requested: &[usize], allow_tests: bool) -> Vec<(usize, usize, String)> {
    let mut cache = ParseCaches::new();
    parse_file_for_code_blocks(code, extension, &lines(requested), allow_tests, None, &mut cache)
        .expect("the code is parsed")
        .iter()
        .map(|b| (b.start_row, b.end_row, b.node_type.clone()))
        .collect()
}

const RUST_CODE: &str = "use std::fmt;\n\n// Adds two numbers.\nfn add(a: i32, b: i32) -> i32 {\n    a + b\n}\n\nstruct Point {\n    x: i32,\n}\n\nimpl Point {\n    fn norm(&self) -> i32 {\n        self.x\n    }\n}\n\n#[test]\nfn check() {\n    assert_eq!(add(1, 2), 3);\n}\n\nfn test_named() {\n    add(1, 2);\n}\n\nmod tests {\n    fn inner() {}\n}\n";

#[test]
fn parsed_trees_are_in_order_and_match_their_source() {
    for (code, grammar) in [
        (RUST_CODE, Grammar::Rust),
        ("def f():\n    return 1\n\nclass A:\n    pass\n", Grammar::Python),
        ("function f() {\n  return 1;\n}\n", Grammar::JavaScript),
        ("package main\n\nfunc main() {}\n", Grammar::Go),
        ("", Grammar::Go),
        ("fn broken( {", Grammar::Rust),
        ("żółć()\n日本語\n", Grammar::Python),
    ] {
        let tree = parse_source(code, grammar).expect("a tree");
        assert!(tree_matches_source(&tree, code.as_bytes()));
        assert!(tree.len() > 0);
        assert_eq!(tree.nodes[0].parent, None);
        assert_eq!(tree.nodes[0].subtree_end, tree.len());
        for (i, node) in tree.nodes.iter().enumerate().skip(1) {
            let parent = node.parent.expect("every other node has a parent");
            assert!(parent < i);
            assert!(i < node.subtree_end && node.subtree_end <= tree.nodes[parent].subtree_end);
        }
    }
}

#[test]
fn rust_function_with_its_doc_comment() {
    assert_eq!(spans(RUST_CODE, "rs", &[5], true), vec![(3, 5, "function_item".to_string())]);
    assert_eq!(spans(RUST_CODE, "rs", &[3], true), vec![(2, 5, "function_item".to_string())]);
}

#[test]
fn rust_method_inside_an_impl() {
    // the line lies in the method; the method is the nearest block
    assert_eq!(spans(RUST_CODE, "rs", &[14], true), vec![(12, 14, "function_item".to_string())]);
    // the line of the impl itself
    assert_eq!(spans(RUST_CODE, "rs", &[12], true), vec![(11, 15, "impl_item".to_string())]);
    // both: the method yields to the impl that holds it
    assert_eq!(spans(RUST_CODE, "rs", &[12, 14], true), vec![(11, 15, "impl_item".to_string())]);
}

#[test]
fn rust_tests_are_recognised() {
    let tree = parse_source(RUST_CODE, Grammar::Rust).expect("a tree");
    let language = language_for(Grammar::Rust);
    let facts = language.classify(&tree, RUST_CODE.as_bytes());
    let tests: Vec<(String, usize)> = tree
        .nodes
        .iter()
        .zip(facts.iter())
        .filter(|(_, f)| f.is_test)
        .map(|(n, _)| (n.kind.clone(), n.start_row))
        .collect();
    assert_eq!(
        tests,
        vec![
            ("function_item".to_string(), 18),
            ("function_item".to_string(), 22),
            ("mod_item".to_string(), 26),
        ]
    );
}

#[test]
fn rust_test_function_line_is_excluded() {
    // the line that opens the test function maps to the function itself
    assert_eq!(spans(RUST_CODE, "rs", &[19], false), vec![]);
    assert_eq!(spans(RUST_CODE, "rs", &[19], true), vec![(18, 20, "function_item".to_string())]);
    // a line inside the test function
    assert_eq!(spans(RUST_CODE, "rs", &[20], false), vec![]);
    assert_eq!(spans(RUST_CODE, "rs", &[20], true), vec![(18, 20, "function_item".to_string())]);
    assert_eq!(spans(RUST_CODE, "rs", &[23], false), vec![]);
    assert_eq!(spans(RUST_CODE, "rs", &[27], false), vec![]);
    // a function inside the test module is no test by itself
    assert_eq!(spans(RUST_CODE, "rs", &[28], false), vec![(27, 27, "function_item".to_string())]);
}

#[test]
fn go_test_functions() {
    let code = "package main\n\nfunc TestAdd(t *testing.T) {\n\tadd(1, 2)\n}\n\nfunc add(a int, b int) int {\n\treturn a + b\n}\n";
    assert_eq!(spans(code, "go", &[3], false), vec![]);
    assert_eq!(spans(code, "go", &[4], false), vec![]);
    assert_eq!(spans(code, "go", &[3], true), vec![(2, 4, "function_declaration".to_string())]);
    assert_eq!(spans(code, "go", &[8], false), vec![(6, 8, "function_declaration".to_string())]);
}

#[test]
fn python_functions_and_classes() {
    let code = "import os\n\ndef helper(x):\n    return x\n\nclass TestThing:\n    def test_it(self):\n        assert helper(1) == 1\n\ndef test_top():\n    pass\n";
    assert_eq!(spans(code, "py", &[4], false), vec![(2, 3, "function_definition".to_string())]);
    assert_eq!(spans(code, "py", &[6], false), vec![]);
    assert_eq!(spans(code, "py", &[10], false), vec![]);
    assert_eq!(spans(code, "py", &[10], true), vec![(9, 10, "function_definition".to_string())]);
}

#[test]
fn javascript_functions() {
    let code = "\nfunction test1() {\n  console.log('Test 1');\n}\n\nfunction test2() {\n  console.log('Test 2');\n}\n";
    assert_eq!(
        spans(code, "js", &[3, 7], true),
        vec![(1, 3, "function_declaration".to_string()), (5, 7, "function_declaration".to_string())]
    );
    assert_eq!(spans(code, "jsx", &[3], true), vec![(1, 3, "function_declaration".to_string())]);
}

#[test]
fn parser_lists_nodes_in_depth_first_order() {
    let code = "package main\n\nfunc main() {}\n";
    let records = parse_records(code, Grammar::Go).expect("a tree");
    let listed: Vec<(usize, &str)> = records.iter().map(|r| (r.depth, r.kind.as_str())).collect();
    assert_eq!(
        listed,
        vec![
            (0, "source_file"),
            (1, "package_clause"),
            (2, "package"),
            (2, "package_identifier"),
            (1, "function_declaration"),
            (2, "func"),
            (2, "identifier"),
            (2, "parameter_list"),
            (3, "("),
            (3, ")"),
            (2, "block"),
            (3, "{"),
            (3, "}"),
        ]
    );
    assert_eq!((records[0].start_byte, records[0].end_byte), (0, code.len()));
    assert_eq!((records[4].start_row, records[4].end_row), (2, 2));
    assert_eq!((records[6].start_byte, records[6].end_byte), (19, 23));
    let tree = parse_source(code, Grammar::Go).expect("a tree");
    assert_eq!(tree.len(), records.len());
    assert_eq!(tree.nodes[9].parent, Some(7));
}

#[test]
fn parsing_twice_gives_the_same_nodes() {
    let one = parse_records(RUST_CODE, Grammar::Rust).expect("a tree");
    let other = parse_records(RUST_CODE, Grammar::Rust).expect("a tree");
    assert_eq!(one.len(), other.len());
    for (a, b) in one.iter().zip(other.iter()) {
        assert_eq!(
            (a.kind.as_str(), a.start_byte, a.end_byte, a.start_row, a.end_row, a.depth),
            (b.kind.as_str(), b.start_byte, b.end_byte, b.start_row, b.end_row, b.depth)
        );
    }
}

#[test]
fn a_large_file_is_handled() {
    let mut code = String::from("package main\n\n");
    for i in 0..1500 {
        code.push_str(&format!("// F{} does something.\nfunc F{}(a int) int {{\n\treturn a + {}\n}}\n\n", i, i, i));
    }
    let requested: Vec<usize> = (0..1500).map(|i| 3 + 5 * i + 2).collect();
    let found = spans(&code, "go", &requested, true);
    assert_eq!(found.len(), 1500);
    for (i, block) in found.iter().enumerate() {
        assert_eq!(*block, (3 + 5 * i, 5 + 5 * i, "function_declaration".to_string()));
    }
    let comments: Vec<usize> = (0..1500).map(|i| 3 + 5 * i).collect();
    let merged = spans(&code, "go", &comments, true);
    assert_eq!(merged.len(), 1500);
    assert_eq!(merged[7], (2 + 5 * 7, 5 + 5 * 7, "function_declaration".to_string()));
}
