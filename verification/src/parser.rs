//! The entry point: from the content of a file and a set of matched lines to
//! the code blocks that explain the matches.

use std::collections::HashMap;
use std::collections::HashSet;
use vstd::prelude::*;
use crate::block::BlockView;
use crate::block::CachedInfoView;
use crate::block::CachedNodeInfo;
use crate::block::CodeBlock;
use crate::block::blocks_view;
use crate::block::line_map_view;
use crate::cache::LineMapCache;
use crate::cache::no_line_maps;
use crate::cached::cache_line_map;
use crate::cached::project_map;
use crate::error::ExtractError;
use crate::extract::extract_spec;
use crate::extract::process_cached_line_map;
use crate::hash::calculate_content_hash;
use crate::hash::fnv1a;
use crate::language::Grammar;
use crate::language::LanguageImpl;
use crate::language::LanguageView;
use crate::line_map::build_line_map;
use crate::line_map::line_map_of;
use crate::line_map::setting_of;
use crate::order::ascending_of;
use crate::parsing::parsed_tree;
use crate::registry::get_language_impl;
use crate::registry::grammar_of;
use crate::registry::language_view;
use crate::text::bytes_of;
use crate::text::count_lines;
use crate::text::line_count;
use crate::tree::SyntaxNode;
use crate::tree::SyntaxTree;
use crate::tree_cache::TreeCache;
use crate::tree_cache::answers;
use crate::tree_cache::get_or_parse_tree;
use crate::tree_cache::no_trees;
use crate::tree_cache::tree_key;
use crate::tree_cache::tree_key_for;

verus! {

/// The ranges of lines that a map of a whole file is wanted for: all of them.
pub open spec fn whole_file(lines: nat) -> Seq<(usize, usize)> {
    if lines > 0 {
        seq![(0usize, (lines - 1) as usize)]
    } else {
        Seq::empty()
    }
}

/// The line map of a file, as it is cached: one entry for each line of the
/// content, built from the tree of the content under the rules of the language.
pub open spec fn file_line_map(
    nodes: Seq<SyntaxNode>,
    lang: LanguageView,
    content: Seq<char>,
    allow_tests: bool,
) -> Seq<Option<CachedInfoView>> {
    let source = bytes_of(content);
    let facts = lang.all_facts(nodes, source);
    let lines = line_count(source);
    project_map(
        nodes,
        facts,
        allow_tests,
        line_map_of(setting_of(nodes, facts, allow_tests, whole_file(lines), 0, lines)),
    )
}

/// Builds the line map of a file from its syntax tree.
pub fn build_file_line_map(
    tree: &SyntaxTree,
    lang: &LanguageImpl,
    content: &str,
    allow_tests: bool,
) -> (cached: Vec<Option<CachedNodeInfo>>)
    requires
        tree.wf(),
    ensures
        line_map_view(cached@) == file_line_map(tree.nodes@, lang@, content@, allow_tests),
{
    let source = content.as_bytes();
    let facts = lang.classify(tree, source);
    let lines = count_lines(source);
    let mut ranges: Vec<(usize, usize)> = Vec::new();
    if lines > 0 {
        ranges.push((0usize, lines - 1));
    }
    assert(ranges@ =~= whole_file(lines as nat));
    let line_map = build_line_map(tree, &facts, allow_tests, ranges.as_slice(), 0, lines);
    cache_line_map(&line_map, tree, &facts, allow_tests)
}

/// Extracts the blocks for a set of lines from the syntax tree of a file.
/// Gives the blocks and the line map they were read from.
pub fn blocks_for_tree(
    tree: &SyntaxTree,
    lang: &LanguageImpl,
    content: &str,
    line_numbers: &HashSet<usize>,
    allow_tests: bool,
) -> (r: (Vec<CodeBlock>, Vec<Option<CachedNodeInfo>>))
    requires
        tree.wf(),
    ensures
        line_map_view(r.1@) == file_line_map(tree.nodes@, lang@, content@, allow_tests),
        blocks_view(r.0@) == extract_spec(
            file_line_map(tree.nodes@, lang@, content@, allow_tests),
            ascending_of(line_numbers@),
            allow_tests,
        ),
{
    let cached = build_file_line_map(tree, lang, content, allow_tests);
    let blocks = process_cached_line_map(cached.as_slice(), line_numbers, allow_tests);
    (blocks, cached)
}

/// The key under which the line map of a file is cached.
pub open spec fn cache_key(extension: Seq<char>, content: Seq<char>, allow_tests: bool) -> (
    Seq<char>,
    u64,
    bool,
) {
    (extension, fnv1a(bytes_of(content)), allow_tests)
}

/// The value of the outcome of an extraction.
pub open spec fn outcome_view(r: Result<Vec<CodeBlock>, ExtractError>) -> Result<
    Seq<BlockView>,
    ExtractError,
> {
    match r {
        Ok(blocks) => Ok(blocks_view(blocks@)),
        Err(e) => Err(e),
    }
}

/// The caches that extraction works with: one of line maps, one of syntax trees.
pub struct ParseCaches {
    pub line_maps: LineMapCache,
    pub trees: TreeCache,
}

/// The value of the caches.
pub struct CachesView {
    pub line_maps: Map<(Seq<char>, u64, bool), Seq<Option<CachedInfoView>>>,
    pub trees: Map<Seq<char>, (u64, Seq<SyntaxNode>)>,
}

impl View for ParseCaches {
    type V = CachesView;

    open spec fn view(&self) -> CachesView {
        CachesView { line_maps: self.line_maps@, trees: self.trees@ }
    }
}

impl ParseCaches {
    /// Caches that hold nothing.
    pub fn new() -> (caches: ParseCaches)
        ensures
            caches@ == (CachesView { line_maps: no_line_maps(), trees: no_trees() }),
            caches.trees.wf(),
    {
        ParseCaches { line_maps: LineMapCache::new(), trees: TreeCache::new() }
    }
}

/// The syntax tree that a content is given: the tree that the cache of trees
/// holds for it, or else the tree that the parser gives; none if the parser
/// gives none.
pub open spec fn tree_for(
    trees: Map<Seq<char>, (u64, Seq<SyntaxNode>)>,
    grammar: Grammar,
    extension: Seq<char>,
    content: Seq<char>,
) -> Option<Seq<SyntaxNode>> {
    if answers(trees, tree_key(extension), content) {
        Some(trees[tree_key(extension)].1)
    } else {
        parsed_tree(grammar, content)
    }
}

/// What a call of `parse_file_for_code_blocks` gives, and the caches after it.
///
/// An extension without a language is an error. Where the cache holds a line
/// map under the key of the file, the blocks are read from it. Otherwise the
/// content is given a syntax tree: without one the call fails; with one, the
/// line map of the file is built from it, the blocks are read from the line
/// map, and tree and line map are stored under their keys. Nothing else
/// changes the caches.
pub open spec fn call_result(
    before: CachesView,
    extension: Seq<char>,
    content: Seq<char>,
    lines: Set<usize>,
    allow_tests: bool,
) -> (Result<Seq<BlockView>, ExtractError>, CachesView) {
    let key = cache_key(extension, content, allow_tests);
    match grammar_of(extension) {
        None => (Err(ExtractError::UnsupportedExtension), before),
        Some(grammar) => if before.line_maps.contains_key(key) {
            (Ok(extract_spec(before.line_maps[key], ascending_of(lines), allow_tests)), before)
        } else {
            match tree_for(before.trees, grammar, extension, content) {
                None => (Err(ExtractError::ParseFailure), before),
                Some(nodes) => {
                    let map = file_line_map(nodes, language_view(grammar), content, allow_tests);
                    (
                        Ok(extract_spec(map, ascending_of(lines), allow_tests)),
                        CachesView {
                            line_maps: before.line_maps.insert(key, map),
                            trees: before.trees.insert(
                                tree_key(extension),
                                (fnv1a(bytes_of(content)), nodes),
                            ),
                        },
                    )
                },
            }
        },
    }
}

/// Parses a file and extracts the code blocks for the given line numbers.
///
/// The line map of the file is taken from the cache if it is there, and put
/// there if it is not; the same holds of the syntax tree that the line map is
/// built from. The matches of the single query terms play no part.
pub fn parse_file_for_code_blocks(
    content: &str,
    extension: &str,
    line_numbers: &HashSet<usize>,
    allow_tests: bool,
    _term_matches: Option<&HashMap<usize, HashSet<usize>>>,
    caches: &mut ParseCaches,
) -> (r: Result<Vec<CodeBlock>, ExtractError>)
    requires
        old(caches).trees.wf(),
    ensures
        final(caches).trees.wf(),
        (outcome_view(r), final(caches)@) == call_result(
            old(caches)@,
            extension@,
            content@,
            line_numbers@,
            allow_tests,
        ),
{
    let lang = match get_language_impl(extension) {
        Some(lang) => lang,
        None => {
            return Err(ExtractError::UnsupportedExtension);
        },
    };
    let content_hash = calculate_content_hash(content);
    match caches.line_maps.get(extension, content_hash, allow_tests) {
        Some(cached) => {
            return Ok(process_cached_line_map(cached.as_slice(), line_numbers, allow_tests));
        },
        None => {},
    }
    let key = tree_key_for(extension);
    let tree = match get_or_parse_tree(&mut caches.trees, key.as_str(), content, lang.grammar) {
        Ok(tree) => tree,
        Err(e) => {
            return Err(e);
        },
    };
    let (blocks, cached) = blocks_for_tree(&tree, &lang, content, line_numbers, allow_tests);
    caches.line_maps.insert(extension, content_hash, allow_tests, cached);
    Ok(blocks)
}

/// Two calls with the same arguments on caches with the same contents give
/// the same outcome and leave the same contents.
pub proof fn lemma_same_call_same_outcome(
    before: CachesView,
    extension: Seq<char>,
    content: Seq<char>,
    lines: Set<usize>,
    allow_tests: bool,
    one: (Result<Seq<BlockView>, ExtractError>, CachesView),
    other: (Result<Seq<BlockView>, ExtractError>, CachesView),
)
    requires
        one == call_result(before, extension, content, lines, allow_tests),
        other == call_result(before, extension, content, lines, allow_tests),
    ensures
        one == other,
{
}

/// Two calls with the same arguments give the same outcome, whatever else
/// their caches hold, if neither cache holds the line map of the file or a
/// tree that answers for its content.
pub proof fn lemma_fresh_calls_agree(
    one: CachesView,
    other: CachesView,
    extension: Seq<char>,
    content: Seq<char>,
    lines: Set<usize>,
    allow_tests: bool,
)
    requires
        !one.line_maps.contains_key(cache_key(extension, content, allow_tests)),
        !other.line_maps.contains_key(cache_key(extension, content, allow_tests)),
        !answers(one.trees, tree_key(extension), content),
        !answers(other.trees, tree_key(extension), content),
    ensures
        call_result(one, extension, content, lines, allow_tests).0 == call_result(
            other,
            extension,
            content,
            lines,
            allow_tests,
        ).0,
{
}

/// A call that succeeds leaves the caches such that the same call, made
/// again, finds the line map there and gives the same blocks without
/// changing the caches.
pub proof fn lemma_cache_coherence(
    before: CachesView,
    extension: Seq<char>,
    content: Seq<char>,
    lines: Set<usize>,
    allow_tests: bool,
)
    requires
        call_result(before, extension, content, lines, allow_tests).0 is Ok,
    ensures
        ({
            let first = call_result(before, extension, content, lines, allow_tests);
            let second = call_result(first.1, extension, content, lines, allow_tests);
            &&& first.1.line_maps.contains_key(cache_key(extension, content, allow_tests))
            &&& second.0 == first.0
            &&& second.1 == first.1
        }),
{
}

} // verus!
