//! Extraction of code blocks from a line map for a set of requested lines.

use std::collections::HashSet;
use vstd::prelude::*;
use crate::block::BlockView;
use crate::block::CachedInfoView;
use crate::block::CachedNodeInfo;
use crate::block::CodeBlock;
use crate::block::blocks_view;
use crate::block::line_map_view;
use crate::candidate::candidate;
use crate::candidate::candidate_block;
use crate::candidate::context_usable;
use crate::candidate::distinct_spans;
use crate::candidate::emit;
use crate::candidate::emit_block;
use crate::candidate::lemma_emit_distinct;
use crate::candidate::lemma_first_same_span;
use crate::candidate::merged_block;
use crate::candidate::representative_is_test;
use crate::candidate::same_span;
use crate::dedupe::dedupe;
use crate::dedupe::dedupe_blocks;
use crate::dedupe::lemma_dedupe_prefix;
use crate::dedupe::no_partial_overlap;
use crate::order::ascending_of;
use crate::order::lemma_sort_by_start;
use crate::order::sort_blocks;
use crate::order::sort_by_start;
use crate::order::sorted_by_start;
use crate::order::sorted_lines;

verus! {

/// The index in the line map of a line number. Line numbers count from 1; the
/// number 0 is read as line 1.
pub open spec fn line_index(line: usize) -> int {
    if line == 0 {
        0
    } else {
        line - 1
    }
}

/// The record of a requested line; none for a line outside the map.
pub open spec fn entry_at(map: Seq<Option<CachedInfoView>>, line: usize) -> Option<
    CachedInfoView,
> {
    if line_index(line) < map.len() {
        map[line_index(line)]
    } else {
        None
    }
}

/// The block that a requested line proposes, if any.
pub open spec fn line_candidate(
    map: Seq<Option<CachedInfoView>>,
    line: usize,
    allow_tests: bool,
) -> Option<BlockView> {
    match entry_at(map, line) {
        Some(info) => candidate(info, allow_tests),
        None => None,
    }
}

/// The emitted blocks once the requested lines were taken in the given order.
pub open spec fn emit_all(
    map: Seq<Option<CachedInfoView>>,
    lines: Seq<usize>,
    allow_tests: bool,
) -> Seq<BlockView>
    decreases lines.len(),
{
    if lines.len() == 0 {
        Seq::empty()
    } else {
        let before = emit_all(map, lines.drop_last(), allow_tests);
        match line_candidate(map, lines.last(), allow_tests) {
            Some(c) => emit(before, c),
            None => before,
        }
    }
}

/// The blocks for the requested lines: the proposals of the lines, taken in
/// the given order and merged by span; sorted by first row; freed of overlaps;
/// sorted by first row again.
pub open spec fn extract_spec(
    map: Seq<Option<CachedInfoView>>,
    lines: Seq<usize>,
    allow_tests: bool,
) -> Seq<BlockView> {
    sort_by_start(dedupe(sort_by_start(emit_all(map, lines, allow_tests))))
}

/// Some requested line proposes the block `b`.
pub open spec fn proposed(
    map: Seq<Option<CachedInfoView>>,
    lines: Seq<usize>,
    allow_tests: bool,
    b: BlockView,
) -> bool {
    exists|k: int| 0 <= k < lines.len() && line_candidate(map, #[trigger] lines[k], allow_tests) == Some(b)
}

/// Emission never holds two blocks with one span, and holds nothing but proposals.
pub proof fn lemma_emit_all(map: Seq<Option<CachedInfoView>>, lines: Seq<usize>, allow_tests: bool)
    ensures
        distinct_spans(emit_all(map, lines, allow_tests)),
        forall|b: BlockView| #[trigger]
            emit_all(map, lines, allow_tests).contains(b) ==> proposed(map, lines, allow_tests, b),
    decreases lines.len(),
{
    if lines.len() > 0 {
        let front = lines.drop_last();
        let before = emit_all(map, front, allow_tests);
        let after = emit_all(map, lines, allow_tests);
        lemma_emit_all(map, front, allow_tests);
        assert forall|b: BlockView| before.contains(b) implies proposed(
            map,
            lines,
            allow_tests,
            b,
        ) by {
            let k = choose|k: int|
                0 <= k < front.len() && line_candidate(map, #[trigger] front[k], allow_tests) == Some(b);
            assert(lines[k] == front[k]);
        }
        match line_candidate(map, lines.last(), allow_tests) {
            Some(c) => {
                lemma_emit_distinct(before, c);
                lemma_first_same_span(before, c, 0);
                assert(lines[lines.len() - 1] == lines.last());
                assert forall|b: BlockView| #[trigger] after.contains(b) implies proposed(
                    map,
                    lines,
                    allow_tests,
                    b,
                ) by {
                    let i = choose|i: int| 0 <= i < after.len() && after[i] == b;
                    if b != c {
                        assert(before[i] == b);
                        assert(before.contains(b));
                    }
                }
            },
            None => {},
        }
    }
}

/// Every block of the result is the proposal of a requested line.
pub proof fn lemma_extract_proposed(
    map: Seq<Option<CachedInfoView>>,
    lines: Seq<usize>,
    allow_tests: bool,
)
    ensures
        forall|b: BlockView| #[trigger]
            extract_spec(map, lines, allow_tests).contains(b) ==> proposed(
                map,
                lines,
                allow_tests,
                b,
            ),
{
    let emitted = emit_all(map, lines, allow_tests);
    let sorted = sort_by_start(emitted);
    let deduped = dedupe(sorted);
    lemma_emit_all(map, lines, allow_tests);
    lemma_sort_by_start(emitted);
    lemma_dedupe_prefix(sorted, sorted.len() as int);
    lemma_sort_by_start(deduped);
    assert forall|b: BlockView| #[trigger]
        extract_spec(map, lines, allow_tests).contains(b) implies proposed(
        map,
        lines,
        allow_tests,
        b,
    ) by {
        assert(sort_by_start(deduped).contains(b));
        assert(deduped.contains(b));
        assert(sorted.contains(b));
        assert(sort_by_start(emitted).contains(b));
        assert(emitted.contains(b));
    }
}

/// The result is in ascending order of first rows.
pub proof fn lemma_extract_sorted(
    map: Seq<Option<CachedInfoView>>,
    lines: Seq<usize>,
    allow_tests: bool,
)
    ensures
        sorted_by_start(extract_spec(map, lines, allow_tests)),
{
    lemma_sort_by_start(dedupe(sort_by_start(emit_all(map, lines, allow_tests))));
}

/// No two blocks of the result that are not comments overlap in part: they
/// share no row, or one contains the other.
pub proof fn lemma_extract_no_partial_overlap(
    map: Seq<Option<CachedInfoView>>,
    lines: Seq<usize>,
    allow_tests: bool,
)
    ensures
        no_partial_overlap(extract_spec(map, lines, allow_tests)),
{
    let sorted = sort_by_start(emit_all(map, lines, allow_tests));
    let deduped = dedupe(sorted);
    lemma_dedupe_prefix(sorted, sorted.len() as int);
    lemma_sort_by_start(deduped);
    let out = sort_by_start(deduped);
    assert forall|a: BlockView, b: BlockView|
        #![trigger out.contains(a), out.contains(b)]
        out.contains(a) && out.contains(b) implies deduped.contains(a) && deduped.contains(b) by {
        assert(sort_by_start(deduped).contains(a));
        assert(sort_by_start(deduped).contains(b));
    }
}

/// A comment record that is itself flagged as test code and has no usable
/// context: the one kind of record whose proposal stands for a test node while
/// tests are excluded.
pub open spec fn stray_test_comment(info: CachedInfoView) -> bool {
    info.is_comment && info.is_test && !context_usable(info, false)
}

/// While tests are excluded, every block of the result is the proposal of a
/// requested line whose record stands for a node that is not test code,
/// provided that no requested line holds a stray test comment.
pub proof fn lemma_extract_excludes_tests(
    map: Seq<Option<CachedInfoView>>,
    lines: Seq<usize>,
    b: BlockView,
) -> (k: int)
    requires
        extract_spec(map, lines, false).contains(b),
        forall|j: int|
            0 <= j < lines.len() && entry_at(map, #[trigger] lines[j]) is Some
                ==> !stray_test_comment(entry_at(map, lines[j])->0),
    ensures
        0 <= k < lines.len(),
        entry_at(map, lines[k]) is Some,
        candidate(entry_at(map, lines[k])->0, false) == Some(b),
        !representative_is_test(entry_at(map, lines[k])->0, false),
{
    lemma_extract_proposed(map, lines, false);
    let k = choose|k: int| 0 <= k < lines.len() && line_candidate(map, #[trigger] lines[k], false) == Some(b);
    k
}

/// The span of `span` is held by exactly one block of the list.
pub open spec fn holds_span_once(blocks: Seq<BlockView>, span: BlockView) -> bool {
    exists|i: int|
        0 <= i < blocks.len() && same_span(#[trigger] blocks[i], span) && forall|j: int|
            0 <= j < blocks.len() && j != i ==> !same_span(#[trigger] blocks[j], span)
}

/// Emission keeps a span that is held.
proof fn lemma_emit_keeps_span(blocks: Seq<BlockView>, c: BlockView, span: BlockView)
    requires
        exists|i: int| 0 <= i < blocks.len() && same_span(#[trigger] blocks[i], span),
    ensures
        exists|i: int| 0 <= i < emit(blocks, c).len() && same_span(#[trigger] emit(blocks, c)[i], span),
{
    let i = choose|i: int| 0 <= i < blocks.len() && same_span(#[trigger] blocks[i], span);
    lemma_first_same_span(blocks, c, 0);
    assert(same_span(emit(blocks, c)[i], span));
}

/// Once the line at index `k` proposed a block, the emitted list holds its span.
proof fn lemma_emitted_span_stays(
    map: Seq<Option<CachedInfoView>>,
    lines: Seq<usize>,
    allow_tests: bool,
    k: int,
)
    requires
        0 <= k < lines.len(),
        line_candidate(map, lines[k], allow_tests) is Some,
    ensures
        exists|i: int|
            0 <= i < emit_all(map, lines, allow_tests).len() && same_span(
                #[trigger] emit_all(map, lines, allow_tests)[i],
                line_candidate(map, lines[k], allow_tests)->0,
            ),
    decreases lines.len(),
{
    let front = lines.drop_last();
    let before = emit_all(map, front, allow_tests);
    lemma_emit_all(map, front, allow_tests);
    let span = line_candidate(map, lines[k], allow_tests)->0;
    let after = emit_all(map, lines, allow_tests);
    if k == lines.len() - 1 {
        lemma_emit_distinct(before, span);
        assert(after == emit(before, span));
        let i = choose|i: int| 0 <= i < emit(before, span).len() && same_span(#[trigger] emit(before, span)[i], span);
        assert(same_span(after[i], span));
    } else {
        assert(front[k] == lines[k]);
        lemma_emitted_span_stays(map, front, allow_tests, k);
        match line_candidate(map, lines.last(), allow_tests) {
            Some(c) => {
                lemma_emit_keeps_span(before, c, span);
                assert(after == emit(before, c));
                let i = choose|i: int| 0 <= i < emit(before, c).len() && same_span(#[trigger] emit(before, c)[i], span);
                assert(same_span(after[i], span));
            },
            None => {
                assert(after == before);
                let i = choose|i: int| 0 <= i < before.len() && same_span(#[trigger] before[i], span);
                assert(same_span(after[i], span));
            },
        }
    }
}

/// A requested comment with a usable context proposes the merged block and
/// nothing else, and the emitted list holds the span of that block exactly once.
pub proof fn lemma_comment_binding(
    map: Seq<Option<CachedInfoView>>,
    lines: Seq<usize>,
    allow_tests: bool,
    k: int,
)
    requires
        0 <= k < lines.len(),
        entry_at(map, lines[k]) is Some,
        entry_at(map, lines[k])->0.is_comment,
        context_usable(entry_at(map, lines[k])->0, allow_tests),
    ensures
        line_candidate(map, lines[k], allow_tests) == Some(merged_block(entry_at(map, lines[k])->0)),
        holds_span_once(
            emit_all(map, lines, allow_tests),
            merged_block(entry_at(map, lines[k])->0),
        ),
{
    let span = merged_block(entry_at(map, lines[k])->0);
    let emitted = emit_all(map, lines, allow_tests);
    lemma_emitted_span_stays(map, lines, allow_tests, k);
    lemma_emit_all(map, lines, allow_tests);
    let i = choose|i: int| 0 <= i < emitted.len() && same_span(#[trigger] emitted[i], span);
    assert forall|j: int| 0 <= j < emitted.len() && j != i implies !same_span(
        #[trigger] emitted[j],
        span,
    ) by {
        if j < i {
            assert(!same_span(emitted[j], emitted[i]));
        } else {
            assert(!same_span(emitted[i], emitted[j]));
        }
    }
}

/// Extracts the blocks for the requested lines, taken in the given order.
pub fn extract_blocks(
    line_map: &[Option<CachedNodeInfo>],
    lines: &[usize],
    allow_tests: bool,
) -> (blocks: Vec<CodeBlock>)
    ensures
        blocks_view(blocks@) == extract_spec(line_map_view(line_map@), lines@, allow_tests),
{
    let ghost map = line_map_view(line_map@);
    let mut emitted: Vec<CodeBlock> = Vec::new();
    let mut i: usize = 0;
    assert(lines@.take(0) =~= Seq::<usize>::empty());
    assert(blocks_view(emitted@) =~= Seq::<BlockView>::empty());
    while i < lines.len()
        invariant
            i <= lines.len(),
            map == line_map_view(line_map@),
            blocks_view(emitted@) == emit_all(map, lines@.take(i as int), allow_tests),
        decreases lines.len() - i,
    {
        let line = lines[i];
        proof {
            assert(lines@.take(i + 1).drop_last() =~= lines@.take(i as int));
            assert(lines@.take(i + 1).last() == line);
        }
        let idx: usize = if line == 0 {
            0
        } else {
            line - 1
        };
        if idx < line_map.len() {
            assert(map[idx as int] == crate::block::entry_view(line_map@[idx as int]));
            match &line_map[idx] {
                Some(info) => {
                    match candidate_block(info, allow_tests) {
                        Some(block) => {
                            emit_block(&mut emitted, block);
                        },
                        None => {},
                    }
                },
                None => {},
            }
        }
        i += 1;
    }
    assert(lines@.take(i as int) =~= lines@);
    let sorted = sort_blocks(&emitted);
    let deduped = dedupe_blocks(&sorted);
    sort_blocks(&deduped)
}

/// Extracts the blocks for a set of requested lines from a line map. The lines
/// are taken in ascending order, so the result depends on the set alone.
pub fn process_cached_line_map(
    cached_line_map: &[Option<CachedNodeInfo>],
    line_numbers: &HashSet<usize>,
    allow_tests: bool,
) -> (blocks: Vec<CodeBlock>)
    ensures
        blocks_view(blocks@) == extract_spec(
            line_map_view(cached_line_map@),
            ascending_of(line_numbers@),
            allow_tests,
        ),
{
    let lines = sorted_lines(line_numbers);
    extract_blocks(cached_line_map, lines.as_slice(), allow_tests)
}

} // verus!
