use probe_blocks::priority::is_comment;
use probe_blocks::priority::is_comment_block;
use probe_blocks::priority::is_important;
use probe_blocks::priority::is_nested_type;
use probe_blocks::priority::node_type_priority;
use probe_blocks::priority::select_priority_node_type;

#[test]
fn priority_table_in_order() {
    let table = [
        "compilation_unit",
        "function_declaration",
        "method_declaration",
        "function_item",
        "impl_item",
        "type_declaration",
        "struct_item",
        "class",
        "class_declaration",
        "global_attribute",
    ];
    for (i, kind) in table.iter().enumerate() {
        assert_eq!(node_type_priority(kind), Some(i));
    }
    assert_eq!(node_type_priority("identifier"), None);
    assert_eq!(node_type_priority(""), None);
}

#[test]
fn select_of_empty_list_is_unknown() {
    assert_eq!(select_priority_node_type(&[]), "unknown");
}

#[test]
fn select_prefers_highest_priority() {
    assert_eq!(
        select_priority_node_type(&["compilation_unit", "function_declaration"]),
        "function_declaration"
    );
    assert_eq!(
        select_priority_node_type(&["global_attribute", "function_declaration", "class"]),
        "global_attribute"
    );
    assert_eq!(
        select_priority_node_type(&["identifier", "struct_item", "block"]),
        "struct_item"
    );
}

#[test]
fn select_falls_back_to_string_order() {
    assert_eq!(select_priority_node_type(&["zeta", "alpha", "mid"]), "alpha");
    assert_eq!(select_priority_node_type(&["b", "ab", "abc"]), "ab");
    assert_eq!(select_priority_node_type(&["same", "same"]), "same");
}

#[test]
fn select_does_not_depend_on_order_of_candidates() {
    let a = select_priority_node_type(&["impl_item", "type_declaration", "x"]);
    let b = select_priority_node_type(&["x", "type_declaration", "impl_item"]);
    assert_eq!(a, "type_declaration");
    assert_eq!(a, b);
}

#[test]
fn important_kinds() {
    for kind in [
        "function_declaration",
        "method_declaration",
        "function_item",
        "impl_item",
        "type_declaration",
        "struct_item",
        "block_comment",
        "compilation_unit",
        "global_attribute",
    ] {
        assert!(is_important(kind));
    }
    assert!(!is_important("class"));
    assert!(!is_important("class_declaration"));
    assert!(!is_important("struct_type"));
}

#[test]
fn comment_kinds() {
    for kind in ["comment", "line_comment", "block_comment", "doc_comment", "//"] {
        assert!(is_comment(kind));
    }
    assert!(!is_comment("comments"));
    assert!(!is_comment("/*"));
    assert!(!is_comment("function_item"));
}

#[test]
fn comment_block_kinds() {
    assert!(is_comment_block("comment"));
    assert!(is_comment_block("line_comment"));
    assert!(is_comment_block("my_comment_kind"));
    assert!(is_comment_block("/*"));
    assert!(is_comment_block("*/"));
    assert!(!is_comment_block("//"));
    assert!(!is_comment_block("commen"));
    assert!(!is_comment_block("function_item"));
}

#[test]
fn nested_type_kind() {
    assert!(is_nested_type("struct_type"));
    assert!(!is_nested_type("struct_item"));
}
