//! Classification of node kinds: the priority table, the important kinds and the comment kinds.

use vstd::prelude::*;
use crate::text::bytes_contain;
use crate::text::bytes_less;
use crate::text::bytes_of;
use crate::text::contains_bytes;
use crate::text::lemma_bytes_of_injective;
use crate::text::lemma_lex_total;
use crate::text::lemma_lex_transitive;
use crate::text::lex_less;
use crate::text::str_eq;

verus! {

/// The position of a kind in the priority table, lowest priority first.
/// A kind outside the table has none.
pub open spec fn priority_of(kind: Seq<char>) -> Option<nat> {
    if kind == "compilation_unit"@ {
        Some(0)
    } else if kind == "function_declaration"@ {
        Some(1)
    } else if kind == "method_declaration"@ {
        Some(2)
    } else if kind == "function_item"@ {
        Some(3)
    } else if kind == "impl_item"@ {
        Some(4)
    } else if kind == "type_declaration"@ {
        Some(5)
    } else if kind == "struct_item"@ {
        Some(6)
    } else if kind == "class"@ {
        Some(7)
    } else if kind == "class_declaration"@ {
        Some(8)
    } else if kind == "global_attribute"@ {
        Some(9)
    } else {
        None
    }
}

/// The priority of a kind as an integer, with -1 for a kind outside the table.
pub open spec fn rank(kind: Seq<char>) -> int {
    match priority_of(kind) {
        Some(p) => p as int,
        None => -1,
    }
}

/// Looks a kind up in the priority table.
pub fn node_type_priority(kind: &str) -> (r: Option<usize>)
    ensures
        match r {
            Some(p) => priority_of(kind@) == Some(p as nat),
            None => priority_of(kind@) is None,
        },
{
    if str_eq(kind, "compilation_unit") {
        Some(0)
    } else if str_eq(kind, "function_declaration") {
        Some(1)
    } else if str_eq(kind, "method_declaration") {
        Some(2)
    } else if str_eq(kind, "function_item") {
        Some(3)
    } else if str_eq(kind, "impl_item") {
        Some(4)
    } else if str_eq(kind, "type_declaration") {
        Some(5)
    } else if str_eq(kind, "struct_item") {
        Some(6)
    } else if str_eq(kind, "class") {
        Some(7)
    } else if str_eq(kind, "class_declaration") {
        Some(8)
    } else if str_eq(kind, "global_attribute") {
        Some(9)
    } else {
        None
    }
}

/// Two kinds with the same place in the table are the same kind.
pub proof fn lemma_priority_injective(a: Seq<char>, b: Seq<char>)
    requires
        priority_of(a) is Some,
        priority_of(a) == priority_of(b),
    ensures
        a == b,
{
}

/// The kinds named by a list of string slices.
pub open spec fn kinds_of(types: Seq<&str>) -> Seq<Seq<char>> {
    types.map_values(|s: &str| s@)
}

/// `choice` is the kind that wins among `kinds`: `"unknown"` for an empty list;
/// the kind of highest priority where any kind is in the table; otherwise the
/// kind that sorts first as a string.
pub open spec fn is_priority_choice(kinds: Seq<Seq<char>>, choice: Seq<char>) -> bool {
    if kinds.len() == 0 {
        choice == "unknown"@
    } else if exists|j: int| 0 <= j < kinds.len() && priority_of(#[trigger] kinds[j]) is Some {
        &&& kinds.contains(choice)
        &&& priority_of(choice) is Some
        &&& forall|j: int| 0 <= j < kinds.len() ==> rank(#[trigger] kinds[j]) <= rank(choice)
    } else {
        &&& kinds.contains(choice)
        &&& forall|j: int|
            0 <= j < kinds.len() ==> !lex_less(bytes_of(#[trigger] kinds[j]), bytes_of(choice))
    }
}

/// At most one kind wins among a list of kinds.
pub proof fn lemma_priority_choice_unique(kinds: Seq<Seq<char>>, a: Seq<char>, b: Seq<char>)
    requires
        is_priority_choice(kinds, a),
        is_priority_choice(kinds, b),
    ensures
        a == b,
{
    if kinds.len() == 0 {
    } else if exists|j: int| 0 <= j < kinds.len() && priority_of(#[trigger] kinds[j]) is Some {
        let ia = choose|i: int| 0 <= i < kinds.len() && kinds[i] == a;
        let ib = choose|i: int| 0 <= i < kinds.len() && kinds[i] == b;
        assert(rank(kinds[ia]) <= rank(b));
        assert(rank(kinds[ib]) <= rank(a));
        lemma_priority_injective(a, b);
    } else {
        let ia = choose|i: int| 0 <= i < kinds.len() && kinds[i] == a;
        let ib = choose|i: int| 0 <= i < kinds.len() && kinds[i] == b;
        assert(!lex_less(bytes_of(kinds[ia]), bytes_of(b)));
        assert(!lex_less(bytes_of(kinds[ib]), bytes_of(a)));
        lemma_lex_total(bytes_of(a), bytes_of(b));
        lemma_bytes_of_injective(a, b);
    }
}

/// Selects the winning kind from a list of candidates, so that the choice does
/// not depend on anything but the list.
pub fn select_priority_node_type<'a>(node_types: &'a [&'a str]) -> (choice: &'a str)
    ensures
        is_priority_choice(kinds_of(node_types@), choice@),
{
    let ghost kinds = kinds_of(node_types@);
    if node_types.len() == 0 {
        return "unknown";
    }
    let mut best_priority: Option<usize> = None;
    let mut best_type: &'a str = node_types[0];
    let mut min_type: &'a str = node_types[0];
    let mut i: usize = 0;
    assert(kinds[0] == node_types[0]@);
    while i < node_types.len()
        invariant
            i <= node_types.len(),
            node_types.len() > 0,
            kinds == kinds_of(node_types@),
            kinds.len() == node_types.len(),
            kinds.contains(best_type@),
            kinds.contains(min_type@),
            forall|j: int| 0 <= j < i ==> !lex_less(bytes_of(#[trigger] kinds[j]), bytes_of(min_type@)),
            match best_priority {
                Some(p) => {
                    &&& priority_of(best_type@) == Some(p as nat)
                    &&& forall|j: int| 0 <= j < i ==> rank(#[trigger] kinds[j]) <= p
                },
                None => forall|j: int| 0 <= j < i ==> priority_of(#[trigger] kinds[j]) is None,
            },
        decreases node_types.len() - i,
    {
        let node_type: &'a str = node_types[i];
        assert(kinds[i as int] == node_type@);
        match node_type_priority(node_type) {
            Some(priority) => {
                let better = match best_priority {
                    Some(p) => priority > p,
                    None => true,
                };
                if better {
                    assert(kinds.contains(node_type@));
                    best_priority = Some(priority);
                    best_type = node_type;
                }
            },
            None => {},
        }
        if bytes_less(node_type.as_bytes(), min_type.as_bytes()) {
            proof {
                assert(kinds.contains(node_type@));
                assert forall|j: int| 0 <= j < i implies !lex_less(
                    bytes_of(#[trigger] kinds[j]),
                    bytes_of(node_type@),
                ) by {
                    if lex_less(bytes_of(kinds[j]), bytes_of(node_type@)) {
                        lemma_lex_transitive(
                            bytes_of(kinds[j]),
                            bytes_of(node_type@),
                            bytes_of(min_type@),
                        );
                    }
                }
                crate::text::lemma_lex_irreflexive(bytes_of(node_type@));
            }
            min_type = node_type;
        }
        i += 1;
    }
    match best_priority {
        Some(_) => {
            assert(kinds.contains(best_type@));
            let ghost w = choose|w: int| 0 <= w < kinds.len() && kinds[w] == best_type@;
            assert(priority_of(kinds[w]) is Some);
            best_type
        },
        None => min_type,
    }
}

/// The kinds that containment never suppresses in favour of a plain block.
pub open spec fn is_important_kind(kind: Seq<char>) -> bool {
    ||| kind == "function_declaration"@
    ||| kind == "method_declaration"@
    ||| kind == "function_item"@
    ||| kind == "impl_item"@
    ||| kind == "type_declaration"@
    ||| kind == "struct_item"@
    ||| kind == "block_comment"@
    ||| kind == "compilation_unit"@
    ||| kind == "global_attribute"@
}

/// Tests whether a kind is one of the important kinds.
pub fn is_important(kind: &str) -> (r: bool)
    ensures
        r == is_important_kind(kind@),
{
    str_eq(kind, "function_declaration") || str_eq(kind, "method_declaration") || str_eq(
        kind,
        "function_item",
    ) || str_eq(kind, "impl_item") || str_eq(kind, "type_declaration") || str_eq(
        kind,
        "struct_item",
    ) || str_eq(kind, "block_comment") || str_eq(kind, "compilation_unit") || str_eq(
        kind,
        "global_attribute",
    )
}

/// The kinds that every grammar's comments fall under.
pub open spec fn is_comment_kind(kind: Seq<char>) -> bool {
    ||| kind == "comment"@
    ||| kind == "line_comment"@
    ||| kind == "block_comment"@
    ||| kind == "doc_comment"@
    ||| kind == "//"@
}

/// Tests whether a node kind is a comment kind.
pub fn is_comment(kind: &str) -> (r: bool)
    ensures
        r == is_comment_kind(kind@),
{
    str_eq(kind, "comment") || str_eq(kind, "line_comment") || str_eq(kind, "block_comment")
        || str_eq(kind, "doc_comment") || str_eq(kind, "//")
}

/// A block counts as a comment block where its kind mentions `comment` or is a
/// block-comment delimiter.
pub open spec fn is_comment_block_kind(kind: Seq<char>) -> bool {
    ||| contains_bytes(bytes_of(kind), bytes_of("comment"@))
    ||| kind == "/*"@
    ||| kind == "*/"@
}

/// Tests whether a block of this kind counts as a comment block.
pub fn is_comment_block(kind: &str) -> (r: bool)
    ensures
        r == is_comment_block_kind(kind@),
{
    bytes_contain(kind.as_bytes(), "comment".as_bytes()) || str_eq(kind, "/*") || str_eq(kind, "*/")
}

/// The kind of a nested type whose enclosing declaration a block reports.
pub open spec fn is_nested_type_kind(kind: Seq<char>) -> bool {
    kind == "struct_type"@
}

/// Tests whether a kind is a nested type.
pub fn is_nested_type(kind: &str) -> (r: bool)
    ensures
        r == is_nested_type_kind(kind@),
{
    str_eq(kind, "struct_type")
}

} // verus!
