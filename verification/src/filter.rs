//! The block filter: whether a block answers the query, given the lines on
//! which each query term matched.

use std::collections::HashMap;
use std::collections::HashSet;
use vstd::prelude::*;

verus! {

/// Some line of the set lies between `lo` and `hi`, both included.
pub open spec fn set_meets(lines: Set<usize>, lo: usize, hi: usize) -> bool {
    exists|l: usize| lines.contains(l) && lo <= l <= hi
}

/// The query `q` has a match inside the block.
pub open spec fn query_matches(
    term_matches: Map<usize, HashSet<usize>>,
    q: usize,
    block_lines: (usize, usize),
) -> bool {
    term_matches.contains_key(q) && set_meets(term_matches[q]@, block_lines.0, block_lines.1)
}

/// Whether a block is included. In any-term mode, a block is included if some
/// query matches inside it; matches of the file name do not count. In
/// all-terms mode, every query below `num_queries` must match inside the block
/// or match the file name.
pub open spec fn should_include(
    block_lines: (usize, usize),
    term_matches: Map<usize, HashSet<usize>>,
    any_term: bool,
    num_queries: usize,
    filename_matched_queries: Set<usize>,
) -> bool {
    if any_term {
        exists|q: usize| query_matches(term_matches, q, block_lines)
    } else {
        forall|i: usize|
            i < num_queries ==> filename_matched_queries.contains(i) || #[trigger] query_matches(
                term_matches,
                i,
                block_lines,
            )
    }
}

/// Tests whether some line of a set lies in a range.
pub fn lines_meet(lines: &HashSet<usize>, lo: usize, hi: usize) -> (r: bool)
    ensures
        r == set_meets(lines@, lo, hi),
{
    broadcast use vstd::std_specs::hash::group_hash_axioms;

    let mut found = false;
    for line in it: lines.iter()
        invariant
            it.seq().unref().to_set() == lines@,
            found ==> set_meets(lines@, lo, hi),
            !found ==> forall|k: int|
                0 <= k < it.index() ==> !(lo <= *#[trigger] it.seq()[k] <= hi),
            forall|x: usize|
                lines@.contains(x) ==> exists|k: int|
                    0 <= k < it.seq().len() && *#[trigger] it.seq()[k] == x,
    {
        assert(it.seq().unref()[it.index() as int] == *line);
        assert(it.seq().unref().contains(*line));
        assert(it.seq().unref().to_set().contains(*line));
        if *line >= lo && *line <= hi {
            found = true;
        }
    }
    found
}

/// Tests whether a query has a match inside a block.
pub fn query_matches_block(
    term_matches: &HashMap<usize, HashSet<usize>>,
    q: usize,
    block_lines: (usize, usize),
) -> (r: bool)
    ensures
        r == query_matches(term_matches@, q, block_lines),
{
    broadcast use vstd::std_specs::hash::group_hash_axioms;

    match term_matches.get(&q) {
        Some(lines) => lines_meet(lines, block_lines.0, block_lines.1),
        None => false,
    }
}

/// Decides whether a code block should be included, based on the matches of
/// the query terms.
pub fn filter_code_block(
    block_lines: (usize, usize),
    term_matches: &HashMap<usize, HashSet<usize>>,
    any_term: bool,
    num_queries: usize,
    filename_matched_queries: &HashSet<usize>,
) -> (included: bool)
    ensures
        included == should_include(
            block_lines,
            term_matches@,
            any_term,
            num_queries,
            filename_matched_queries@,
        ),
{
    broadcast use vstd::std_specs::hash::group_hash_axioms;

    if any_term {
        let mut found = false;
        for q in it: term_matches.keys()
            invariant
                it.seq().unref().to_set() == term_matches@.dom(),
                found ==> exists|q: usize| query_matches(term_matches@, q, block_lines),
                !found ==> forall|k: int|
                    0 <= k < it.index() ==> !query_matches(
                        term_matches@,
                        *#[trigger] it.seq()[k],
                        block_lines,
                    ),
                forall|x: usize|
                    term_matches@.dom().contains(x) ==> exists|k: int|
                        0 <= k < it.seq().len() && *#[trigger] it.seq()[k] == x,
        {
            if query_matches_block(term_matches, *q, block_lines) {
                found = true;
            }
        }
        found
    } else {
        let mut i: usize = 0;
        while i < num_queries
            invariant
                i <= num_queries,
                !any_term,
                forall|j: usize|
                    j < i ==> filename_matched_queries@.contains(j) || #[trigger] query_matches(
                        term_matches@,
                        j,
                        block_lines,
                    ),
            decreases num_queries - i,
        {
            if !filename_matched_queries.contains(&i) && !query_matches_block(
                term_matches,
                i,
                block_lines,
            ) {
                return false;
            }
            i += 1;
        }
        true
    }
}

} // verus!
