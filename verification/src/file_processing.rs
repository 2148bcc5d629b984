//! The results of one file: a result for each block that the syntax tree
//! gives, and a window of lines around each matched line that no block covers.

use std::collections::HashMap;
use std::collections::HashSet;
use vstd::prelude::*;
use crate::block::BlockView;
use crate::block::CodeBlock;
use crate::block::blocks_view;
use crate::error::ExtractError;
use crate::filter::filter_code_block;
use crate::filter::should_include;
use crate::lines::char_lines;
use crate::lines::split_lines;
use crate::merge::DEFAULT_MERGE_THRESHOLD;
use crate::merge::merge_code_blocks;
use crate::merge::merge_spec;
use crate::order::ascending_of;
use crate::order::sorted_lines;
use crate::parser::ParseCaches;
use crate::parser::call_result;
use crate::parser::outcome_view;
use crate::parser::parse_file_for_code_blocks;
use crate::results::ResultView;
use crate::results::SearchResult;
use crate::results::join_lines;
use crate::results::joined;
use crate::results::plain_result;
use crate::results::results_view;
use crate::text::bytes_contain;
use crate::text::bytes_of;
use crate::text::contains_bytes;
use crate::text::count_lines;
use crate::text::line_count;
use crate::text::strings_view;

verus! {

/// The number of lines shown before and after a matched line that no block covers.
pub const CONTEXT_LINES: usize = 20;

/// How blocks are held against the matches of the query terms.
pub struct QueryFilter {
    /// The lines on which each query matched; none if blocks are not filtered.
    pub term_matches: Option<Map<usize, HashSet<usize>>>,
    pub any_term: bool,
    pub num_queries: usize,
    pub filename_matched_queries: Set<usize>,
}

/// The filter that the arguments of a call describe.
pub open spec fn filter_of(
    term_matches: Option<&HashMap<usize, HashSet<usize>>>,
    any_term: bool,
    num_queries: usize,
    filename_matched_queries: Set<usize>,
) -> QueryFilter {
    QueryFilter {
        term_matches: match term_matches {
            Some(m) => Some(m@),
            None => None,
        },
        any_term,
        num_queries,
        filename_matched_queries,
    }
}

/// A range of lines passes the filter: there is no filter, or the block filter
/// includes the range.
pub open spec fn included(span: (usize, usize), filter: QueryFilter) -> bool {
    match filter.term_matches {
        Some(m) => should_include(
            span,
            m,
            filter.any_term,
            filter.num_queries,
            filter.filename_matched_queries,
        ),
        None => true,
    }
}

/// The lines from `first` to `last`, both included.
pub open spec fn span_set(first: usize, last: usize) -> Set<usize> {
    Set::new(|l: usize| first <= l <= last)
}

/// The code of the lines from `first` to `last`, counted from 1; empty for a
/// range that does not lie in the file.
pub open spec fn code_of_lines(lines: Seq<Seq<char>>, first: usize, last: usize) -> Seq<char> {
    if 1 <= first <= last <= lines.len() {
        joined(lines, first - 1, last as int)
    } else {
        Seq::empty()
    }
}

/// The results so far and the lines that they account for.
pub struct Progress {
    pub results: Seq<ResultView>,
    pub covered: Set<usize>,
}

/// The progress after one block of the syntax tree. The lines of the block
/// count as covered; the block becomes a result if it passes the filter.
pub open spec fn take_block(
    file: Seq<char>,
    lines: Seq<Seq<char>>,
    filter: QueryFilter,
    p: Progress,
    b: BlockView,
) -> Progress {
    if b.start_row >= usize::MAX || b.end_row >= usize::MAX {
        p
    } else {
        let span = ((b.start_row + 1) as usize, (b.end_row + 1) as usize);
        Progress {
            results: if included(span, filter) {
                p.results.push(
                    plain_result(file, span, "file"@, code_of_lines(lines, span.0, span.1)),
                )
            } else {
                p.results
            },
            covered: p.covered.union(span_set(span.0, span.1)),
        }
    }
}

/// The progress after the first `n` blocks.
pub open spec fn take_blocks(
    file: Seq<char>,
    lines: Seq<Seq<char>>,
    filter: QueryFilter,
    blocks: Seq<BlockView>,
    n: int,
) -> Progress
    decreases n,
{
    if n <= 0 || n > blocks.len() {
        Progress { results: Seq::empty(), covered: Set::empty() }
    } else {
        take_block(file, lines, filter, take_blocks(file, lines, filter, blocks, n - 1), blocks[n - 1])
    }
}

/// The line looks like test code.
pub open spec fn has_test_marker(line: Seq<char>) -> bool {
    ||| contains_bytes(bytes_of(line), bytes_of("fn test_"@))
    ||| contains_bytes(bytes_of(line), bytes_of("#[test]"@))
    ||| contains_bytes(bytes_of(line), bytes_of("#[cfg(test)]"@))
    ||| contains_bytes(bytes_of(line), bytes_of("mod tests"@))
}

/// No window is shown for the line: tests are excluded and the file is a
/// test file or the line looks like test code.
pub open spec fn window_withheld(
    lines: Seq<Seq<char>>,
    line: usize,
    allow_tests: bool,
    is_test_file: bool,
) -> bool {
    !allow_tests && (is_test_file || (1 <= line <= lines.len() && has_test_marker(lines[line - 1])))
}

/// The window around a line: `CONTEXT_LINES` lines before and after it,
/// within the file.
pub open spec fn window_of(line: usize, total: nat) -> (usize, usize) {
    (
        if line >= CONTEXT_LINES {
            (line - CONTEXT_LINES) as usize
        } else {
            0usize
        },
        if line + CONTEXT_LINES <= total {
            (line + CONTEXT_LINES) as usize
        } else {
            total as usize
        },
    )
}

/// The progress after one matched line. A line that is covered, or whose
/// window is withheld or empty, changes nothing. Otherwise the lines of its
/// window count as covered, and the window becomes a result if it passes the filter.
pub open spec fn take_line(
    file: Seq<char>,
    lines: Seq<Seq<char>>,
    filter: QueryFilter,
    allow_tests: bool,
    is_test_file: bool,
    p: Progress,
    line: usize,
) -> Progress {
    let span = window_of(line, lines.len());
    if p.covered.contains(line) || window_withheld(lines, line, allow_tests, is_test_file) || span.0
        >= span.1 {
        p
    } else {
        let first = if span.0 > 0 {
            span.0 - 1
        } else {
            0
        };
        Progress {
            results: if included(span, filter) {
                p.results.push(plain_result(file, span, "context"@, joined(lines, first, span.1 as int)))
            } else {
                p.results
            },
            covered: p.covered.union(span_set(span.0, span.1)),
        }
    }
}

/// The progress after the first `n` matched lines.
pub open spec fn take_lines(
    file: Seq<char>,
    lines: Seq<Seq<char>>,
    filter: QueryFilter,
    allow_tests: bool,
    is_test_file: bool,
    start: Progress,
    matched: Seq<usize>,
    n: int,
) -> Progress
    decreases n,
{
    if n <= 0 || n > matched.len() {
        start
    } else {
        take_line(
            file,
            lines,
            filter,
            allow_tests,
            is_test_file,
            take_lines(file, lines, filter, allow_tests, is_test_file, start, matched, n - 1),
            matched[n - 1],
        )
    }
}

/// The file has at least five lines and the covered lines are at least 99
/// for each 100 lines of the file.
pub open spec fn high_coverage(covered: nat, total: nat) -> bool {
    total >= 5 && covered * 100 >= 99 * total
}

/// The results, each with the file it belongs to and its place in the list.
pub open spec fn with_ids(results: Seq<ResultView>, file: Seq<char>) -> Seq<ResultView> {
    Seq::new(
        results.len(),
        |i: int|
            ResultView { parent_file_id: Some(file), block_id: Some(i as usize), ..results[i] },
    )
}

/// The results of a file.
///
/// Each block of the syntax tree, if there is a tree, becomes a result if it
/// passes the filter. Each matched line that no block covers gets a window of
/// lines; the matched lines are taken in ascending order. Where
/// `full_file` is set and the coverage is high, the whole file is the one result.
pub open spec fn file_results(
    file: Seq<char>,
    content: Seq<char>,
    blocks: Option<Seq<BlockView>>,
    matched: Seq<usize>,
    filter: QueryFilter,
    allow_tests: bool,
    is_test_file: bool,
    full_file: bool,
) -> Seq<ResultView> {
    let lines = char_lines(content);
    let from_tree = match blocks {
        Some(b) => take_blocks(file, lines, filter, b, b.len() as int),
        None => Progress { results: Seq::empty(), covered: Set::empty() },
    };
    let all = take_lines(
        file,
        lines,
        filter,
        allow_tests,
        is_test_file,
        from_tree,
        matched,
        matched.len() as int,
    );
    if full_file && high_coverage(all.covered.len(), lines.len()) {
        with_ids(
            seq![plain_result(file, (1usize, lines.len() as usize), "file"@, content)],
            file,
        )
    } else {
        with_ids(all.results, file)
    }
}

/// Tests whether a range of lines passes the filter.
fn passes_filter(
    span: (usize, usize),
    term_matches: Option<&HashMap<usize, HashSet<usize>>>,
    any_term: bool,
    num_queries: usize,
    filename_matched_queries: &HashSet<usize>,
) -> (r: bool)
    ensures
        r == included(
            span,
            filter_of(term_matches, any_term, num_queries, filename_matched_queries@),
        ),
{
    match term_matches {
        Some(m) => filter_code_block(span, m, any_term, num_queries, filename_matched_queries),
        None => true,
    }
}

/// Marks the lines from `first` to `last` as covered.
fn cover_span(covered: &mut HashSet<usize>, first: usize, last: usize)
    ensures
        final(covered)@ == old(covered)@.union(span_set(first, last)),
{
    broadcast use vstd::std_specs::hash::group_hash_axioms;

    if first > last {
        assert(covered@ =~= old(covered)@.union(span_set(first, last)));
        return ;
    }
    let mut line: usize = first;
    loop
        invariant_except_break
            covered@ =~= old(covered)@.union(Set::new(|l: usize| first <= l < line)),
        invariant
            first <= line <= last,
        ensures
            covered@ =~= old(covered)@.union(span_set(first, last)),
        decreases last - line,
    {
        covered.insert(line);
        if line == last {
            break ;
        }
        line += 1;
    }
}

/// Tests whether a line looks like test code.
pub fn line_has_test_marker(line: &str) -> (r: bool)
    ensures
        r == has_test_marker(line@),
{
    let bytes = line.as_bytes();
    bytes_contain(bytes, "fn test_".as_bytes()) || bytes_contain(bytes, "#[test]".as_bytes())
        || bytes_contain(bytes, "#[cfg(test)]".as_bytes()) || bytes_contain(
        bytes,
        "mod tests".as_bytes(),
    )
}

/// Computes the window around a line.
pub fn fallback_window(line: usize, total: usize) -> (span: (usize, usize))
    ensures
        span == window_of(line, total as nat),
{
    let first = if line >= CONTEXT_LINES {
        line - CONTEXT_LINES
    } else {
        0
    };
    let last = if line <= total && total - line >= CONTEXT_LINES {
        line + CONTEXT_LINES
    } else {
        total
    };
    (first, last)
}

/// Tests whether the covered lines are at least 99 for each 100 lines of a
/// file of at least five lines.
pub fn should_return_full_file(covered: usize, total_lines: usize) -> (r: bool)
    ensures
        r == high_coverage(covered as nat, total_lines as nat),
{
    total_lines >= 5 && (covered as u128) * 100 >= 99 * (total_lines as u128)
}

/// Adds the result of one block of the syntax tree.
fn add_block(
    file: &str,
    lines: &Vec<String>,
    block: &CodeBlock,
    term_matches: Option<&HashMap<usize, HashSet<usize>>>,
    any_term: bool,
    num_queries: usize,
    filename_matched_queries: &HashSet<usize>,
    results: &mut Vec<SearchResult>,
    covered: &mut HashSet<usize>,
)
    ensures
        (Progress { results: results_view(final(results)@), covered: final(covered)@ })
            == take_block(
            file@,
            strings_view(lines@),
            filter_of(term_matches, any_term, num_queries, filename_matched_queries@),
            Progress { results: results_view(old(results)@), covered: old(covered)@ },
            block@,
        ),
{
    if block.start_row == usize::MAX || block.end_row == usize::MAX {
        return ;
    }
    let start_line = block.start_row + 1;
    let end_line = block.end_row + 1;
    let code = if start_line <= end_line && end_line <= lines.len() {
        join_lines(lines, start_line - 1, end_line)
    } else {
        String::new()
    };
    cover_span(covered, start_line, end_line);
    if passes_filter(
        (start_line, end_line),
        term_matches,
        any_term,
        num_queries,
        filename_matched_queries,
    ) {
        let ghost before = results_view(results@);
        let result = SearchResult::plain(file, (start_line, end_line), "file", code);
        let ghost added = result@;
        results.push(result);
        assert(results_view(results@) =~= before.push(added));
    }
}

/// Adds the window of one matched line, if the line needs one.
fn add_window(
    file: &str,
    lines: &Vec<String>,
    line: usize,
    allow_tests: bool,
    is_test_file: bool,
    term_matches: Option<&HashMap<usize, HashSet<usize>>>,
    any_term: bool,
    num_queries: usize,
    filename_matched_queries: &HashSet<usize>,
    results: &mut Vec<SearchResult>,
    covered: &mut HashSet<usize>,
)
    ensures
        (Progress { results: results_view(final(results)@), covered: final(covered)@ })
            == take_line(
            file@,
            strings_view(lines@),
            filter_of(term_matches, any_term, num_queries, filename_matched_queries@),
            allow_tests,
            is_test_file,
            Progress { results: results_view(old(results)@), covered: old(covered)@ },
            line,
        ),
{
    broadcast use vstd::std_specs::hash::group_hash_axioms;

    if covered.contains(&line) {
        return ;
    }
    if !allow_tests {
        if is_test_file {
            return ;
        }
        if line >= 1 && line <= lines.len() {
            assert(strings_view(lines@)[line - 1] == lines@[line - 1]@);
            if line_has_test_marker(lines[line - 1].as_str()) {
                return ;
            }
        }
    }
    let span = fallback_window(line, lines.len());
    if span.0 >= span.1 {
        return ;
    }
    let first = if span.0 > 0 {
        span.0 - 1
    } else {
        0
    };
    let code = join_lines(lines, first, span.1);
    if passes_filter(span, term_matches, any_term, num_queries, filename_matched_queries) {
        let ghost before = results_view(results@);
        let result = SearchResult::plain(file, span, "context", code);
        let ghost added = result@;
        results.push(result);
        assert(results_view(results@) =~= before.push(added));
    }
    cover_span(covered, span.0, span.1);
}

/// Gives each result the file it belongs to and its place in the list.
fn number_results(results: &mut Vec<SearchResult>, file: &str)
    ensures
        results_view(final(results)@) == with_ids(results_view(old(results)@), file@),
{
    let ghost before = results_view(results@);
    let mut i: usize = 0;
    while i < results.len()
        invariant
            i <= results@.len(),
            results@.len() == before.len(),
            forall|k: int|
                0 <= k < i ==> (#[trigger] results@[k])@ == (ResultView {
                    parent_file_id: Some(file@),
                    block_id: Some(k as usize),
                    ..before[k]
                }),
            forall|k: int| i <= k < results@.len() ==> (#[trigger] results@[k])@ == before[k],
        decreases results@.len() - i,
    {
        results[i].parent_file_id = Some(file.to_owned());
        results[i].block_id = Some(i);
        i += 1;
    }
    assert(results_view(results@) =~= with_ids(before, file@));
}

/// Works out the results of a file from the blocks that its syntax tree gave,
/// if it gave any, and from the matched lines.
pub fn results_for_blocks(
    file: &str,
    content: &str,
    blocks: Option<Vec<CodeBlock>>,
    line_numbers: &HashSet<usize>,
    allow_tests: bool,
    term_matches: Option<&HashMap<usize, HashSet<usize>>>,
    any_term: bool,
    num_queries: usize,
    filename_matched_queries: &HashSet<usize>,
    is_test_file: bool,
    full_file_on_high_coverage: bool,
) -> (results: Vec<SearchResult>)
    ensures
        results_view(results@) == file_results(
            file@,
            content@,
            match blocks {
                Some(b) => Some(blocks_view(b@)),
                None => None,
            },
            ascending_of(line_numbers@),
            filter_of(term_matches, any_term, num_queries, filename_matched_queries@),
            allow_tests,
            is_test_file,
            full_file_on_high_coverage,
        ),
{
    broadcast use vstd::std_specs::hash::group_hash_axioms;

    let lines = split_lines(content);
    let ghost texts = char_lines(content@);
    let ghost filter = filter_of(term_matches, any_term, num_queries, filename_matched_queries@);
    let mut results: Vec<SearchResult> = Vec::new();
    let mut covered: HashSet<usize> = HashSet::new();
    assert(results_view(results@) =~= Seq::<ResultView>::empty());
    assert(covered@ =~= Set::<usize>::empty());
    match &blocks {
        Some(found) => {
            let ghost views = blocks_view(found@);
            let mut i: usize = 0;
            while i < found.len()
                invariant
                    i <= found@.len(),
                    views == blocks_view(found@),
                    filter == filter_of(
                        term_matches,
                        any_term,
                        num_queries,
                        filename_matched_queries@,
                    ),
                    texts == strings_view(lines@),
                    (Progress { results: results_view(results@), covered: covered@ })
                        == take_blocks(file@, texts, filter, views, i as int),
                decreases found@.len() - i,
            {
                assert(views[i as int] == found@[i as int]@);
                add_block(
                    file,
                    &lines,
                    &found[i],
                    term_matches,
                    any_term,
                    num_queries,
                    filename_matched_queries,
                    &mut results,
                    &mut covered,
                );
                i += 1;
            }
        },
        None => {},
    }
    let ghost from_tree = Progress { results: results_view(results@), covered: covered@ };
    let matched = sorted_lines(line_numbers);
    let mut k: usize = 0;
    while k < matched.len()
        invariant
            k <= matched@.len(),
            filter == filter_of(term_matches, any_term, num_queries, filename_matched_queries@),
            texts == strings_view(lines@),
            (Progress { results: results_view(results@), covered: covered@ }) == take_lines(
                file@,
                texts,
                filter,
                allow_tests,
                is_test_file,
                from_tree,
                matched@,
                k as int,
            ),
        decreases matched@.len() - k,
    {
        add_window(
            file,
            &lines,
            matched[k],
            allow_tests,
            is_test_file,
            term_matches,
            any_term,
            num_queries,
            filename_matched_queries,
            &mut results,
            &mut covered,
        );
        k += 1;
    }
    if full_file_on_high_coverage && should_return_full_file(covered.len(), lines.len()) {
        let mut whole: Vec<SearchResult> = Vec::new();
        let result = SearchResult::plain(file, (1, lines.len()), "file", content.to_owned());
        let ghost added = result@;
        whole.push(result);
        assert(results_view(whole@) =~= seq![added]);
        number_results(&mut whole, file);
        return whole;
    }
    number_results(&mut results, file);
    results
}

/// The blocks that an extraction gave, merged; none if it failed.
pub open spec fn merged_blocks(outcome: Result<Seq<BlockView>, ExtractError>) -> Option<
    Seq<BlockView>,
> {
    match outcome {
        Ok(blocks) => Some(merge_spec(blocks, DEFAULT_MERGE_THRESHOLD as nat)),
        Err(_) => None,
    }
}

/// Works out the results of a file for a set of matched lines: the blocks are
/// extracted and merged, and the matched lines that no block covers get a
/// window of lines. A file that cannot be parsed gets windows only.
pub fn process_file_with_results(
    file: &str,
    content: &str,
    extension: &str,
    line_numbers: &HashSet<usize>,
    allow_tests: bool,
    term_matches: Option<&HashMap<usize, HashSet<usize>>>,
    any_term: bool,
    num_queries: usize,
    filename_matched_queries: &HashSet<usize>,
    is_test_file: bool,
    full_file_on_high_coverage: bool,
    caches: &mut ParseCaches,
) -> (results: Vec<SearchResult>)
    requires
        old(caches).trees.wf(),
    ensures
        final(caches).trees.wf(),
        final(caches)@ == call_result(
            old(caches)@,
            extension@,
            content@,
            line_numbers@,
            allow_tests,
        ).1,
        results_view(results@) == file_results(
            file@,
            content@,
            merged_blocks(
                call_result(old(caches)@, extension@, content@, line_numbers@, allow_tests).0,
            ),
            ascending_of(line_numbers@),
            filter_of(term_matches, any_term, num_queries, filename_matched_queries@),
            allow_tests,
            is_test_file,
            full_file_on_high_coverage,
        ),
{
    let extracted = parse_file_for_code_blocks(
        content,
        extension,
        line_numbers,
        allow_tests,
        term_matches,
        caches,
    );
    let ghost outcome = outcome_view(extracted);
    let blocks = match extracted {
        Ok(found) => Some(merge_code_blocks(found)),
        Err(_) => None,
    };
    let results = results_for_blocks(
        file,
        content,
        blocks,
        line_numbers,
        allow_tests,
        term_matches,
        any_term,
        num_queries,
        filename_matched_queries,
        is_test_file,
        full_file_on_high_coverage,
    );
    proof {
        assert(merged_blocks(outcome) == match blocks {
            Some(b) => Some(blocks_view(b@)),
            None => None,
        });
    }
    results
}

/// The result for a file that was matched by its name: the whole file.
pub open spec fn filename_result(
    file: Seq<char>,
    content: Seq<char>,
    matched_terms: usize,
    statistics: Option<(usize, usize)>,
) -> ResultView {
    ResultView {
        matched_by_filename: Some(true),
        file_unique_terms: Some(
            match statistics {
                Some(s) => s.0,
                None => matched_terms,
            },
        ),
        file_total_matches: Some(
            match statistics {
                Some(s) => s.1,
                None => 0usize,
            },
        ),
        block_unique_terms: Some(matched_terms),
        block_total_matches: Some(0usize),
        ..plain_result(
            file,
            (1usize, line_count(bytes_of(content)) as usize),
            "file"@,
            content,
        )
    }
}

/// Makes the result for a file that was matched by its name. `matched_terms`
/// is the number of query terms that match the name; `statistics`, if given,
/// holds the number of different query terms in the content and the number of
/// their occurrences.
pub fn process_file_by_filename(
    file: &str,
    content: &str,
    matched_terms: usize,
    statistics: Option<(usize, usize)>,
) -> (result: SearchResult)
    ensures
        result@ == filename_result(file@, content@, matched_terms, statistics),
{
    let mut result = SearchResult::plain(
        file,
        (1, count_lines(content.as_bytes())),
        "file",
        content.to_owned(),
    );
    result.matched_by_filename = Some(true);
    result.file_unique_terms = Some(matched_terms);
    result.file_total_matches = Some(0);
    result.block_unique_terms = Some(matched_terms);
    result.block_total_matches = Some(0);
    match statistics {
        Some(s) => {
            result.file_unique_terms = Some(s.0);
            result.file_total_matches = Some(s.1);
        },
        None => {},
    }
    result
}

} // verus!
