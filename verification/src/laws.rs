//! What holds of the blocks of a file, whatever the file and the lines asked for.

use vstd::prelude::*;
use crate::block::BlockView;
use crate::cached::project;
use crate::cached::project_entry;
use crate::cached::representative;
use crate::candidate::candidate;
use crate::context::comment_context;
use crate::context::following_context;
use crate::context::immediate_next;
use crate::context::lemma_first_acceptable;
use crate::context::nearest_acceptable_ancestor;
use crate::context::node_or_descendant;
use crate::context::prev_sibling_of;
use crate::context::sibling_or_end;
use crate::extract::entry_at;
use crate::extract::extract_spec;
use crate::extract::lemma_extract_proposed;
use crate::extract::line_candidate;
use crate::extract::line_index;
use crate::language::Grammar;
use crate::language::LanguageView;
use crate::language::NodeFacts;
use crate::line_map::MapSetting;
use crate::line_map::info_of;
use crate::line_map::line_entry;
use crate::line_map::line_map_of;
use crate::line_map::setting_of;
use crate::dedupe::no_partial_overlap;
use crate::extract::lemma_extract_no_partial_overlap;
use crate::extract::lemma_extract_sorted;
use crate::order::ascending_of;
use crate::order::sorted_by_start;
use crate::parser::cache_key;
use crate::parser::CachesView;
use crate::parser::call_result;
use crate::parser::tree_for;
use crate::parser::file_line_map;
use crate::parser::whole_file;
use crate::positions::block_fits;
use crate::positions::lemma_row_monotone;
use crate::positions::node_fits;
use crate::positions::tree_fits;
use crate::priority::is_comment_kind;
use crate::text::bytes_of;
use crate::text::line_count;
use crate::tree::SyntaxNode;
use crate::parsing::RawNode;
use crate::parsing::built;
use crate::parsing::closed_to;
use crate::parsing::parsed_records;
use crate::parsing::parsed_tree;
use crate::parsing::replayed;
use crate::registry::grammar_of;
use crate::language::rule_matches;
use crate::registry::language_view;
use crate::tree::BuilderState;
use crate::tree::after_close;
use crate::tree::after_open;
use crate::tree::building;
use crate::tree::fits;
use crate::tree::is_tree;
use crate::tree::lemma_add;
use crate::tree::lemma_all_closed;
use crate::tree::lemma_close;
use crate::tree_cache::answers;
use crate::tree_cache::tree_key;
use crate::tree::is_prev_sibling;
use crate::tree::lemma_links;
use crate::tree::next_sibling_of;
use crate::tree::parent_of;
use crate::tree::recorded_ends;
use crate::tree::well_formed;

verus! {

/// The nearest ancestor that forms a block comes before the node.
pub proof fn lemma_ancestor_before(nodes: Seq<SyntaxNode>, facts: Seq<NodeFacts>, i: int)
    requires
        nodes.len() <= usize::MAX,
    ensures
        nearest_acceptable_ancestor(nodes, facts, i) is Some ==> nearest_acceptable_ancestor(
            nodes,
            facts,
            i,
        )->0 < i,
    decreases i,
{
    if 0 < i < nodes.len() {
        let p = parent_of(nodes, i);
        if 0 <= p < i && !facts[p].acceptable {
            lemma_ancestor_before(nodes, facts, p);
        }
    }
}

/// A node found at or below a node of the tree is a node of the tree.
pub proof fn lemma_descendant_in_tree(nodes: Seq<SyntaxNode>, facts: Seq<NodeFacts>, i: int)
    requires
        well_formed(nodes, recorded_ends(nodes)),
        facts.len() == nodes.len() <= usize::MAX,
        0 <= i < nodes.len(),
    ensures
        node_or_descendant(nodes, facts, i) is Some ==> node_or_descendant(nodes, facts, i)->0
            < nodes.len(),
{
    lemma_links(nodes, recorded_ends(nodes), i);
    assert(recorded_ends(nodes)[i] == nodes[i].subtree_end);
    lemma_first_acceptable(facts, i + 1, nodes[i].subtree_end as int);
}

/// The context that following siblings give is a node of the tree.
pub proof fn lemma_following_in_tree(nodes: Seq<SyntaxNode>, facts: Seq<NodeFacts>, j: int)
    requires
        well_formed(nodes, recorded_ends(nodes)),
        facts.len() == nodes.len() <= usize::MAX,
    ensures
        following_context(nodes, facts, j) is Some ==> following_context(nodes, facts, j)->0
            < nodes.len(),
    decreases nodes.len() - j,
{
    if 0 <= j < nodes.len() {
        let next = sibling_or_end(nodes, next_sibling_of(nodes, j));
        if next > j && next <= nodes.len() {
            lemma_descendant_in_tree(nodes, facts, j);
            lemma_following_in_tree(nodes, facts, next);
        }
    }
}

/// The declaration that a comment documents is a node of the tree.
pub proof fn lemma_comment_context_in_tree(nodes: Seq<SyntaxNode>, facts: Seq<NodeFacts>, i: int)
    requires
        well_formed(nodes, recorded_ends(nodes)),
        facts.len() == nodes.len() <= usize::MAX,
        0 <= i < nodes.len(),
    ensures
        comment_context(nodes, facts, i) is Some ==> comment_context(nodes, facts, i)->0
            < nodes.len(),
{
    let ends = recorded_ends(nodes);
    lemma_following_in_tree(nodes, facts, sibling_or_end(nodes, next_sibling_of(nodes, i)));
    if prev_sibling_of(nodes, i) is Some {
        let s = choose|s: int| is_prev_sibling(nodes, s, i);
        lemma_descendant_in_tree(nodes, facts, s);
    }
    lemma_ancestor_before(nodes, facts, i);
    lemma_links(nodes, ends, i);
    assert(ends[i] == nodes[i].subtree_end);
    match immediate_next(nodes, i) {
        Some(n) => {
            if next_sibling_of(nodes, i) is Some {
                let p = parent_of(nodes, i);
                lemma_links(nodes, ends, p);
                assert(ends[p] == nodes[p].subtree_end);
                lemma_descendant_in_tree(nodes, facts, n as int);
            } else {
                let p = parent_of(nodes, i);
                lemma_links(nodes, ends, p);
                assert(ends[p] == nodes[p].subtree_end);
                let q = parent_of(nodes, p);
                lemma_links(nodes, ends, q);
                assert(ends[q] == nodes[q].subtree_end);
                lemma_descendant_in_tree(nodes, facts, n as int);
            }
        },
        None => {},
    }
}

/// The record that a node writes names nodes of the tree.
pub proof fn lemma_info_in_tree(s: MapSetting, i: int)
    requires
        well_formed(s.nodes, recorded_ends(s.nodes)),
        s.facts.len() == s.nodes.len() <= usize::MAX,
        0 <= i < s.nodes.len(),
    ensures
        info_of(s, i).node == i,
        info_of(s, i).context_node is Some ==> info_of(s, i).context_node->0 < s.nodes.len(),
{
    lemma_comment_context_in_tree(s.nodes, s.facts, i);
    lemma_ancestor_before(s.nodes, s.facts, i);
}

/// The record of a line is the record that one of the nodes writes.
pub proof fn lemma_entry_written(s: MapSetting, line: int, n: int)
    requires
        0 <= n <= s.nodes.len() <= usize::MAX,
    ensures
        line_entry(s, line, n) is Some ==> 0 <= line_entry(s, line, n)->0.node < n && line_entry(
            s,
            line,
            n,
        )->0 == info_of(s, line_entry(s, line, n)->0.node as int),
    decreases n,
{
    if n > 0 {
        lemma_entry_written(s, line, n - 1);
    }
}

/// The setting of the line map of a whole file.
pub open spec fn file_setting(
    nodes: Seq<SyntaxNode>,
    lang: LanguageView,
    content: Seq<char>,
    allow_tests: bool,
) -> MapSetting {
    let source = bytes_of(content);
    setting_of(
        nodes,
        lang.all_facts(nodes, source),
        allow_tests,
        whole_file(line_count(source)),
        0,
        line_count(source),
    )
}

/// A block of a file is the proposal of the record that a node of the tree
/// wrote for a requested line.
pub proof fn lemma_block_origin(
    nodes: Seq<SyntaxNode>,
    lang: LanguageView,
    content: Seq<char>,
    lines: Seq<usize>,
    allow_tests: bool,
    b: BlockView,
) -> (i: int)
    requires
        is_tree(nodes),
        extract_spec(file_line_map(nodes, lang, content, allow_tests), lines, allow_tests).contains(
            b,
        ),
    ensures
        0 <= i < nodes.len(),
        info_of(file_setting(nodes, lang, content, allow_tests), i).context_node is Some ==> info_of(
            file_setting(nodes, lang, content, allow_tests),
            i,
        ).context_node->0 < nodes.len(),
        candidate(
            project(
                nodes,
                lang.all_facts(nodes, bytes_of(content)),
                allow_tests,
                info_of(file_setting(nodes, lang, content, allow_tests), i),
            ),
            allow_tests,
        ) == Some(b),
{
    let s = file_setting(nodes, lang, content, allow_tests);
    let map = file_line_map(nodes, lang, content, allow_tests);
    let raw = line_map_of(s);
    lemma_extract_proposed(map, lines, allow_tests);
    let k = choose|k: int|
        0 <= k < lines.len() && line_candidate(map, #[trigger] lines[k], allow_tests) == Some(b);
    let idx = line_index(lines[k]);
    assert(entry_at(map, lines[k]) is Some);
    assert(0 <= idx < map.len());
    assert(map[idx] == project_entry(nodes, s.facts, allow_tests, raw[idx]));
    assert(raw[idx] == line_entry(s, idx, nodes.len() as int));
    lemma_entry_written(s, idx, nodes.len() as int);
    let info = raw[idx]->0;
    let i = info.node as int;
    lemma_info_in_tree(s, i);
    i
}

/// Every block of a file has the rows of its first and last byte offset,
/// if every node of the tree has.
pub proof fn lemma_blocks_fit(
    nodes: Seq<SyntaxNode>,
    lang: LanguageView,
    content: Seq<char>,
    lines: Seq<usize>,
    allow_tests: bool,
    b: BlockView,
)
    requires
        is_tree(nodes),
        tree_fits(bytes_of(content), nodes),
        extract_spec(file_line_map(nodes, lang, content, allow_tests), lines, allow_tests).contains(
            b,
        ),
    ensures
        block_fits(bytes_of(content), b),
{
    let source = bytes_of(content);
    let s = file_setting(nodes, lang, content, allow_tests);
    let i = lemma_block_origin(nodes, lang, content, lines, allow_tests, b);
    let info = info_of(s, i);
    let own = nodes[i];
    let e = project(nodes, s.facts, allow_tests, info);
    assert(candidate(e, allow_tests) == Some(b));
    assert(node_fits(source, own));
    assert(e.start_byte == own.start_byte && e.end_byte == own.end_byte && e.start_row
        == own.start_row && e.end_row == own.end_row);
    match info.context_node {
        Some(c) => {
            let ctx = nodes[c as int];
            assert(node_fits(source, ctx));
            assert(e.context_node_bytes == Some((ctx.start_byte as nat, ctx.end_byte as nat)));
            assert(e.context_node_rows == Some((ctx.start_row as nat, ctx.end_row as nat)));
            if own.start_byte <= ctx.start_byte {
                lemma_row_monotone(source, own.start_byte as int, ctx.start_byte as int);
            } else {
                lemma_row_monotone(source, ctx.start_byte as int, own.start_byte as int);
            }
            if own.end_byte <= ctx.end_byte {
                lemma_row_monotone(source, own.end_byte as int, ctx.end_byte as int);
            } else {
                lemma_row_monotone(source, ctx.end_byte as int, own.end_byte as int);
            }
        },
        None => {},
    }
}

/// While tests are excluded, every block of a file stands for a node that the
/// rules of the language do not take for test code, provided that the rules
/// take no comment for test code.
pub proof fn lemma_blocks_exclude_tests(
    nodes: Seq<SyntaxNode>,
    lang: LanguageView,
    content: Seq<char>,
    lines: Seq<usize>,
    b: BlockView,
) -> (node: int)
    requires
        is_tree(nodes),
        forall|i: int|
            0 <= i < nodes.len() && is_comment_kind((#[trigger] nodes[i]).kind@) ==> !lang.tests(
                nodes,
                bytes_of(content),
                i,
            ),
        extract_spec(file_line_map(nodes, lang, content, false), lines, false).contains(b),
    ensures
        0 <= node < nodes.len(),
        !lang.tests(nodes, bytes_of(content), node),
        exists|i: int|
            0 <= i < nodes.len() && node == representative(
                lang.all_facts(nodes, bytes_of(content)),
                false,
                #[trigger] info_of(file_setting(nodes, lang, content, false), i),
            ) && candidate(
                project(
                    nodes,
                    lang.all_facts(nodes, bytes_of(content)),
                    false,
                    info_of(file_setting(nodes, lang, content, false), i),
                ),
                false,
            ) == Some(b),
{
    let s = file_setting(nodes, lang, content, false);
    let facts = lang.all_facts(nodes, bytes_of(content));
    let i = lemma_block_origin(nodes, lang, content, lines, false, b);
    let info = info_of(s, i);
    let node = representative(facts, false, info) as int;
    let e = project(nodes, facts, false, info);
    assert(candidate(e, false) == Some(b));
    assert(facts[i] == lang.facts_of(nodes, bytes_of(content), i));
    assert(nodes[i] == nodes[i]);
    assert(info.is_comment == is_comment_kind(nodes[i].kind@));
    assert(info.is_test == lang.tests(nodes, bytes_of(content), i));
    assert(!info.is_test);
    match info.context_node {
        Some(c) => {
            assert(facts[c as int] == lang.facts_of(nodes, bytes_of(content), c as int));
            assert(facts[c as int].is_test == lang.tests(nodes, bytes_of(content), c as int));
        },
        None => {},
    }
    assert(facts[node] == lang.facts_of(nodes, bytes_of(content), node));
    node
}

/// Closing open nodes keeps a tree under construction in order.
pub proof fn lemma_closed_to(s: BuilderState, depth: int)
    requires
        building(s.nodes, s.open, s.last_closed),
        s.nodes.len() <= usize::MAX,
    ensures
        building(
            closed_to(s, depth).nodes,
            closed_to(s, depth).open,
            closed_to(s, depth).last_closed,
        ),
        closed_to(s, depth).nodes.len() == s.nodes.len(),
        closed_to(s, depth).open.len() <= depth || closed_to(s, depth).open.len() == 0,
    decreases s.open.len(),
{
    if s.open.len() > depth && s.open.len() > 0 {
        lemma_close(s.nodes, s.open, s.last_closed);
        lemma_closed_to(after_close(s), depth);
    }
}

/// What a depth-first list of nodes is replayed to is a tree under construction.
pub proof fn lemma_replayed(records: Seq<RawNode>, n: int)
    requires
        0 <= n <= records.len(),
        replayed(records, n) is Some,
    ensures
        building(
            replayed(records, n)->0.nodes,
            replayed(records, n)->0.open,
            replayed(records, n)->0.last_closed,
        ),
        replayed(records, n)->0.nodes.len() <= usize::MAX,
    decreases n,
{
    crate::tree::lemma_nothing_built();
    if n > 0 {
        let before = replayed(records, n - 1)->0;
        lemma_replayed(records, n - 1);
        let raw = records[n - 1];
        lemma_closed_to(before, raw.depth as int);
        let c = closed_to(before, raw.depth as int);
        let after = after_open(c, raw.kind, raw.start_byte, raw.end_byte, raw.start_row, raw.end_row);
        let node = after.nodes[c.nodes.len() as int];
        assert(fits(c.nodes, c.open, c.last_closed, node));
        lemma_add(c.nodes, c.open, c.last_closed, node);
        assert(after.nodes =~= c.nodes.push(node));
    }
}

/// The tree that a depth-first list of nodes describes is well formed.
pub proof fn lemma_built_is_tree(records: Seq<RawNode>)
    requires
        built(records) is Some,
    ensures
        is_tree(built(records)->0),
{
    let s = replayed(records, records.len() as int)->0;
    lemma_replayed(records, records.len() as int);
    lemma_closed_to(s, 0);
    let c = closed_to(s, 0);
    lemma_all_closed(c.nodes, c.open, c.last_closed);
}

/// The syntax tree of a content is well formed, and the rows of its nodes
/// are the rows of their byte offsets in the content.
pub proof fn lemma_parsed_tree(grammar: Grammar, content: Seq<char>)
    requires
        parsed_tree(grammar, content) is Some,
    ensures
        is_tree(parsed_tree(grammar, content)->0),
        tree_fits(bytes_of(content), parsed_tree(grammar, content)->0),
{
    lemma_built_is_tree(parsed_records(grammar, content)->0);
}

/// No comment kind is a kind that the rules of the known languages hold for test code.
pub proof fn lemma_comment_kinds_hold_no_tests(kind: Seq<char>)
    requires
        is_comment_kind(kind),
    ensures
        kind != "function_item"@,
        kind != "mod_item"@,
        kind != "call_expression"@,
        kind != "function_definition"@,
        kind != "class_definition"@,
        kind != "function_declaration"@,
{
    reveal_strlit("comment");
    reveal_strlit("line_comment");
    reveal_strlit("block_comment");
    reveal_strlit("doc_comment");
    reveal_strlit("//");
    reveal_strlit("function_item");
    reveal_strlit("mod_item");
    reveal_strlit("call_expression");
    reveal_strlit("function_definition");
    reveal_strlit("class_definition");
    reveal_strlit("function_declaration");
    assert("comment"@.len() == 7);
    assert("line_comment"@.len() == 12);
    assert("block_comment"@.len() == 13);
    assert("doc_comment"@.len() == 11);
    assert("//"@.len() == 2);
    assert("function_item"@.len() == 13);
    assert("mod_item"@.len() == 8);
    assert("call_expression"@.len() == 15);
    assert("function_definition"@.len() == 19);
    assert("class_definition"@.len() == 16);
    assert("function_declaration"@.len() == 20);
    assert("block_comment"@[0] != "function_item"@[0]);
}

/// The rules of the known languages take no comment for test code.
pub proof fn lemma_known_rules_spare_comments(
    grammar: Grammar,
    nodes: Seq<SyntaxNode>,
    source: Seq<u8>,
    i: int,
)
    requires
        0 <= i < nodes.len(),
        is_comment_kind(nodes[i].kind@),
    ensures
        !language_view(grammar).tests(nodes, source, i),
{
    let rules = language_view(grammar).test_rules;
    lemma_comment_kinds_hold_no_tests(nodes[i].kind@);
    assert forall|r: int| 0 <= r < rules.len() implies !rule_matches(
        #[trigger] rules[r],
        nodes,
        source,
        i,
    ) by {}
}

/// While tests are excluded, the blocks that a call gives for a content
/// whose line map it did not find cached stand for nodes that the rules of
/// the language do not take for test code, provided that the tree that the
/// cache of trees holds for the content, if it holds one, is well formed.
pub proof fn lemma_fresh_blocks_exclude_tests(
    before: CachesView,
    extension: Seq<char>,
    content: Seq<char>,
    lines: Set<usize>,
    b: BlockView,
) -> (node: int)
    requires
        !before.line_maps.contains_key(cache_key(extension, content, false)),
        answers(before.trees, tree_key(extension), content) ==> is_tree(
            before.trees[tree_key(extension)].1,
        ),
        call_result(before, extension, content, lines, false).0 is Ok,
        call_result(before, extension, content, lines, false).0->Ok_0.contains(b),
    ensures
        grammar_of(extension) is Some,
        tree_for(before.trees, grammar_of(extension)->0, extension, content) is Some,
        0 <= node < tree_for(before.trees, grammar_of(extension)->0, extension, content)->0.len(),
        !language_view(grammar_of(extension)->0).tests(
            tree_for(before.trees, grammar_of(extension)->0, extension, content)->0,
            bytes_of(content),
            node,
        ),
{
    let grammar = grammar_of(extension)->0;
    let nodes = tree_for(before.trees, grammar, extension, content)->0;
    if !answers(before.trees, tree_key(extension), content) {
        lemma_parsed_tree(grammar, content);
    }
    assert forall|i: int|
        0 <= i < nodes.len() && is_comment_kind((#[trigger] nodes[i]).kind@) implies !language_view(
        grammar,
    ).tests(nodes, bytes_of(content), i) by {
        lemma_known_rules_spare_comments(grammar, nodes, bytes_of(content), i);
    }
    lemma_blocks_exclude_tests(nodes, language_view(grammar), content, ascending_of(lines), b)
}

/// The blocks that a call gives are in ascending order of their first rows,
/// and no two of them that are not comments overlap in part.
pub proof fn lemma_outcome_in_order(
    before: CachesView,
    extension: Seq<char>,
    content: Seq<char>,
    lines: Set<usize>,
    allow_tests: bool,
)
    requires
        call_result(before, extension, content, lines, allow_tests).0 is Ok,
    ensures
        sorted_by_start(call_result(before, extension, content, lines, allow_tests).0->Ok_0),
        no_partial_overlap(call_result(before, extension, content, lines, allow_tests).0->Ok_0),
{
    let key = cache_key(extension, content, allow_tests);
    let grammar = grammar_of(extension)->0;
    if before.line_maps.contains_key(key) {
        lemma_extract_sorted(before.line_maps[key], ascending_of(lines), allow_tests);
        lemma_extract_no_partial_overlap(before.line_maps[key], ascending_of(lines), allow_tests);
    } else {
        let nodes = tree_for(before.trees, grammar, extension, content)->0;
        let map = file_line_map(nodes, language_view(grammar), content, allow_tests);
        lemma_extract_sorted(map, ascending_of(lines), allow_tests);
        lemma_extract_no_partial_overlap(map, ascending_of(lines), allow_tests);
    }
}

/// The blocks that a call gives for a content whose line map it did not find
/// cached have the rows of their first and last byte offsets in the content,
/// provided that the tree that the cache of trees holds for the content, if
/// it holds one, is well formed.
pub proof fn lemma_fresh_blocks_fit(
    before: CachesView,
    extension: Seq<char>,
    content: Seq<char>,
    lines: Set<usize>,
    allow_tests: bool,
    b: BlockView,
)
    requires
        !before.line_maps.contains_key(cache_key(extension, content, allow_tests)),
        answers(before.trees, tree_key(extension), content) ==> is_tree(
            before.trees[tree_key(extension)].1,
        ),
        call_result(before, extension, content, lines, allow_tests).0 is Ok,
        call_result(before, extension, content, lines, allow_tests).0->Ok_0.contains(b),
    ensures
        block_fits(bytes_of(content), b),
{
    let grammar = grammar_of(extension)->0;
    let nodes = tree_for(before.trees, grammar, extension, content)->0;
    if !answers(before.trees, tree_key(extension), content) {
        lemma_parsed_tree(grammar, content);
    }
    lemma_blocks_fit(
        nodes,
        language_view(grammar),
        content,
        ascending_of(lines),
        allow_tests,
        b,
    );
}

} // verus!
