//! The table of languages: which grammar parses the files of an extension,
//! and the rules of each language.

use vstd::prelude::*;
use crate::language::Grammar;
use crate::language::LanguageImpl;
use crate::language::LanguageView;
use crate::language::RuleView;
use crate::language::kinds_view;
use crate::language::rules_view;
use crate::language::Place;
use crate::language::TestRule;
use crate::language::TextMatch;
use crate::text::str_eq;

verus! {

/// The grammar for the files of an extension; none for an extension that is
/// not supported.
pub open spec fn grammar_of(extension: Seq<char>) -> Option<Grammar> {
    if extension == "rs"@ {
        Some(Grammar::Rust)
    } else if extension == "js"@ || extension == "jsx"@ {
        Some(Grammar::JavaScript)
    } else if extension == "py"@ {
        Some(Grammar::Python)
    } else if extension == "go"@ {
        Some(Grammar::Go)
    } else {
        None
    }
}

/// The kinds of the nodes that form blocks in a language.
pub open spec fn acceptable_table(grammar: Grammar) -> Seq<Seq<char>> {
    match grammar {
        Grammar::Rust => seq![
            "function_item"@,
            "struct_item"@,
            "impl_item"@,
            "trait_item"@,
            "enum_item"@,
            "mod_item"@,
            "macro_definition"@,
        ],
        Grammar::JavaScript => seq![
            "function_declaration"@,
            "method_definition"@,
            "class_declaration"@,
            "arrow_function"@,
            "function_expression"@,
            "export_statement"@,
            "variable_declaration"@,
            "lexical_declaration"@,
        ],
        Grammar::Python => seq!["function_definition"@, "class_definition"@],
        Grammar::Go => seq![
            "function_declaration"@,
            "method_declaration"@,
            "type_declaration"@,
            "struct_type"@,
            "interface_type"@,
            "const_declaration"@,
            "var_declaration"@,
            "const_spec"@,
            "var_spec"@,
            "short_var_declaration"@,
            "type_spec"@,
        ],
    }
}

/// The kinds of the declarations that are reported as enclosing a nested type.
pub open spec fn enclosing_table(grammar: Grammar) -> Seq<Seq<char>> {
    match grammar {
        Grammar::Rust => seq!["function_item"@],
        Grammar::JavaScript => seq![
            "function_declaration"@,
            "method_definition"@,
            "arrow_function"@,
            "function_expression"@,
        ],
        Grammar::Python => seq!["function_definition"@],
        Grammar::Go => seq!["function_declaration"@, "method_declaration"@],
    }
}

/// A rule that reads the text of a child.
pub open spec fn child_rule(
    holder_kind: Seq<char>,
    part_kind: Seq<char>,
    how: TextMatch,
    text: Seq<char>,
) -> RuleView {
    RuleView { holder_kind, part_kind, place: Place::Child, how, text }
}

/// The ways to recognise test code in a language.
pub open spec fn rule_table(grammar: Grammar) -> Seq<RuleView> {
    match grammar {
        Grammar::Rust => seq![
            child_rule("function_item"@, "attribute_item"@, TextMatch::Contains, "#[test"@),
            RuleView {
                holder_kind: "function_item"@,
                part_kind: "attribute_item"@,
                place: Place::PrecedingSibling,
                how: TextMatch::Contains,
                text: "#[test"@,
            },
            child_rule("function_item"@, "identifier"@, TextMatch::Prefix, "test_"@),
            child_rule("mod_item"@, "identifier"@, TextMatch::Exact, "tests"@),
        ],
        Grammar::JavaScript => seq![
            child_rule("call_expression"@, "identifier"@, TextMatch::Exact, "describe"@),
            child_rule("call_expression"@, "identifier"@, TextMatch::Exact, "it"@),
            child_rule("call_expression"@, "identifier"@, TextMatch::Exact, "test"@),
            child_rule("call_expression"@, "identifier"@, TextMatch::Exact, "expect"@),
        ],
        Grammar::Python => seq![
            child_rule("function_definition"@, "identifier"@, TextMatch::Prefix, "test_"@),
            child_rule("class_definition"@, "identifier"@, TextMatch::Prefix, "Test"@),
        ],
        Grammar::Go => seq![
            child_rule("function_declaration"@, "identifier"@, TextMatch::Prefix, "Test"@),
        ],
    }
}

/// The rules of the language that a grammar parses.
pub open spec fn language_view(grammar: Grammar) -> LanguageView {
    LanguageView {
        acceptable_kinds: acceptable_table(grammar),
        enclosing_kinds: enclosing_table(grammar),
        test_rules: rule_table(grammar),
    }
}

/// The rules are those of the language that the grammar parses.
pub open spec fn describes(lang: LanguageImpl, grammar: Grammar) -> bool {
    lang.grammar == grammar && lang@ == language_view(grammar)
}

/// Copies a list of kinds.
fn kinds_from(names: &Vec<&str>) -> (kinds: Vec<String>)
    ensures
        kinds_view(kinds@) == names@.map_values(|s: &str| s@),
{
    let mut kinds: Vec<String> = Vec::new();
    let mut i: usize = 0;
    while i < names.len()
        invariant
            i <= names@.len(),
            kinds@.len() == i,
            forall|k: int| 0 <= k < i ==> (#[trigger] kinds@[k])@ == names@[k]@,
        decreases names@.len() - i,
    {
        kinds.push(names[i].to_owned());
        i += 1;
    }
    assert(kinds_view(kinds@) =~= names@.map_values(|s: &str| s@));
    kinds
}

/// Makes a rule.
fn rule(holder_kind: &str, part_kind: &str, place: Place, how: TextMatch, text: &str) -> (r:
    TestRule)
    ensures
        r@ == (RuleView {
            holder_kind: holder_kind@,
            part_kind: part_kind@,
            place,
            how,
            text: text@,
        }),
{
    TestRule {
        holder_kind: holder_kind.to_owned(),
        part_kind: part_kind.to_owned(),
        place,
        how,
        text: text.to_owned(),
    }
}

fn acceptable_kinds_for(grammar: Grammar) -> (kinds: Vec<String>)
    ensures
        kinds_view(kinds@) == acceptable_table(grammar),
{
    let names: Vec<&str> = match grammar {
        Grammar::Rust => vec![
            "function_item",
            "struct_item",
            "impl_item",
            "trait_item",
            "enum_item",
            "mod_item",
            "macro_definition",
        ],
        Grammar::JavaScript => vec![
            "function_declaration",
            "method_definition",
            "class_declaration",
            "arrow_function",
            "function_expression",
            "export_statement",
            "variable_declaration",
            "lexical_declaration",
        ],
        Grammar::Python => vec!["function_definition", "class_definition"],
        Grammar::Go => vec![
            "function_declaration",
            "method_declaration",
            "type_declaration",
            "struct_type",
            "interface_type",
            "const_declaration",
            "var_declaration",
            "const_spec",
            "var_spec",
            "short_var_declaration",
            "type_spec",
        ],
    };
    let kinds = kinds_from(&names);
    assert(kinds_view(kinds@) =~= acceptable_table(grammar));
    kinds
}

fn enclosing_kinds_for(grammar: Grammar) -> (kinds: Vec<String>)
    ensures
        kinds_view(kinds@) == enclosing_table(grammar),
{
    let names: Vec<&str> = match grammar {
        Grammar::Rust => vec!["function_item"],
        Grammar::JavaScript => vec![
            "function_declaration",
            "method_definition",
            "arrow_function",
            "function_expression",
        ],
        Grammar::Python => vec!["function_definition"],
        Grammar::Go => vec!["function_declaration", "method_declaration"],
    };
    let kinds = kinds_from(&names);
    assert(kinds_view(kinds@) =~= enclosing_table(grammar));
    kinds
}

fn test_rules_for(grammar: Grammar) -> (rules: Vec<TestRule>)
    ensures
        rules_view(rules@) == rule_table(grammar),
{
    let mut rules: Vec<TestRule> = Vec::new();
    match grammar {
        Grammar::Rust => {
            rules.push(
                rule("function_item", "attribute_item", Place::Child, TextMatch::Contains, "#[test"),
            );
            rules.push(
                rule(
                    "function_item",
                    "attribute_item",
                    Place::PrecedingSibling,
                    TextMatch::Contains,
                    "#[test",
                ),
            );
            rules.push(rule("function_item", "identifier", Place::Child, TextMatch::Prefix, "test_"));
            rules.push(rule("mod_item", "identifier", Place::Child, TextMatch::Exact, "tests"));
        },
        Grammar::JavaScript => {
            rules.push(
                rule("call_expression", "identifier", Place::Child, TextMatch::Exact, "describe"),
            );
            rules.push(rule("call_expression", "identifier", Place::Child, TextMatch::Exact, "it"));
            rules.push(rule("call_expression", "identifier", Place::Child, TextMatch::Exact, "test"));
            rules.push(
                rule("call_expression", "identifier", Place::Child, TextMatch::Exact, "expect"),
            );
        },
        Grammar::Python => {
            rules.push(
                rule("function_definition", "identifier", Place::Child, TextMatch::Prefix, "test_"),
            );
            rules.push(
                rule("class_definition", "identifier", Place::Child, TextMatch::Prefix, "Test"),
            );
        },
        Grammar::Go => {
            rules.push(
                rule("function_declaration", "identifier", Place::Child, TextMatch::Prefix, "Test"),
            );
        },
    }
    assert(rules_view(rules@) =~= rule_table(grammar));
    rules
}

/// Gives the rules of the language that a grammar parses.
pub fn language_for(grammar: Grammar) -> (lang: LanguageImpl)
    ensures
        describes(lang, grammar),
{
    LanguageImpl {
        grammar,
        acceptable_kinds: acceptable_kinds_for(grammar),
        enclosing_kinds: enclosing_kinds_for(grammar),
        test_rules: test_rules_for(grammar),
    }
}

/// Finds the grammar for the files of an extension.
pub fn grammar_for_extension(extension: &str) -> (r: Option<Grammar>)
    ensures
        r == grammar_of(extension@),
{
    if str_eq(extension, "rs") {
        Some(Grammar::Rust)
    } else if str_eq(extension, "js") || str_eq(extension, "jsx") {
        Some(Grammar::JavaScript)
    } else if str_eq(extension, "py") {
        Some(Grammar::Python)
    } else if str_eq(extension, "go") {
        Some(Grammar::Go)
    } else {
        None
    }
}

/// Finds the rules of the language for the files of an extension; none for an
/// extension that is not supported.
pub fn get_language_impl(extension: &str) -> (r: Option<LanguageImpl>)
    ensures
        match grammar_of(extension@) {
            Some(grammar) => r is Some && describes(r->0, grammar),
            None => r is None,
        },
{
    match grammar_for_extension(extension) {
        Some(grammar) => Some(language_for(grammar)),
        None => None,
    }
}

} // verus!
