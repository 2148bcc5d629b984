//! Orderings: requested lines in ascending order, blocks by their first row.

use std::collections::HashSet;
use vstd::prelude::*;
use crate::block::BlockView;
use crate::block::CodeBlock;
use crate::block::blocks_view;

verus! {

/// The sequence is strictly increasing.
pub open spec fn ascending(q: Seq<usize>) -> bool {
    forall|i: int, j: int| 0 <= i < j < q.len() ==> q[i] < q[j]
}

/// The sequence lists exactly the members of the set.
pub open spec fn lists_set(q: Seq<usize>, s: Set<usize>) -> bool {
    forall|x: usize| q.contains(x) <==> s.contains(x)
}

/// A set has at most one strictly increasing listing.
pub proof fn lemma_ascending_unique(a: Seq<usize>, b: Seq<usize>, s: Set<usize>)
    requires
        ascending(a),
        ascending(b),
        lists_set(a, s),
        lists_set(b, s),
    ensures
        a == b,
    decreases a.len(),
{
    if a.len() == 0 {
        if b.len() > 0 {
            assert(b.contains(b[0]));
            assert(a.contains(b[0]));
        }
        assert(a =~= b);
    } else {
        let x = a.last();
        assert(a.contains(x));
        assert(b.contains(x));
        assert(b.len() > 0);
        let y = b.last();
        assert(b.contains(y));
        assert(a.contains(y));
        let ix = choose|i: int| 0 <= i < b.len() && b[i] == x;
        let iy = choose|i: int| 0 <= i < a.len() && a[i] == y;
        assert(x == y);
        let a1 = a.drop_last();
        let b1 = b.drop_last();
        let s1 = s.remove(x);
        assert forall|z: usize| a1.contains(z) <==> s1.contains(z) by {
            if a1.contains(z) {
                let i = choose|i: int| 0 <= i < a1.len() && a1[i] == z;
                assert(a[i] == z);
                assert(a.contains(z));
            }
            if s1.contains(z) {
                assert(a.contains(z));
                let i = choose|i: int| 0 <= i < a.len() && a[i] == z;
                assert(a1[i] == z);
            }
        }
        assert forall|z: usize| b1.contains(z) <==> s1.contains(z) by {
            if b1.contains(z) {
                let i = choose|i: int| 0 <= i < b1.len() && b1[i] == z;
                assert(b[i] == z);
                assert(b.contains(z));
            }
            if s1.contains(z) {
                assert(b.contains(z));
                let i = choose|i: int| 0 <= i < b.len() && b[i] == z;
                assert(b1[i] == z);
            }
        }
        lemma_ascending_unique(a1, b1, s1);
        assert(a =~= a1.push(x));
        assert(b =~= b1.push(y));
    }
}

/// The members of a set in ascending order.
pub open spec fn ascending_of(s: Set<usize>) -> Seq<usize> {
    choose|q: Seq<usize>| ascending(q) && lists_set(q, s)
}

/// Adds a number to a strictly increasing list, keeping it strictly increasing.
/// A number that the list already holds is not added again.
pub fn insert_ascending(v: &mut Vec<usize>, x: usize)
    requires
        ascending(old(v)@),
    ensures
        ascending(final(v)@),
        forall|y: usize| final(v)@.contains(y) <==> (old(v)@.contains(y) || y == x),
{
    let mut pos: usize = v.len();
    while pos > 0 && v[pos - 1] >= x
        invariant
            pos <= v.len(),
            v@ == old(v)@,
            forall|k: int| pos <= k < v.len() ==> v@[k] >= x,
        decreases pos,
    {
        pos -= 1;
    }
    if pos < v.len() && v[pos] == x {
        assert(v@.contains(x));
        return ;
    }
    let ghost before = v@;
    v.insert(pos, x);
    proof {
        let after = v@;
        assert(after == before.insert(pos as int, x));
        assert forall|i: int, j: int| 0 <= i < j < after.len() implies after[i] < after[j] by {
            if i < pos && j > pos {
                assert(after[i] == before[i]);
                assert(after[j] == before[j - 1]);
            } else if i < pos && j == pos {
                assert(before[i] <= before[pos - 1]);
            } else if i == pos {
                assert(after[j] == before[j - 1]);
            } else if j < pos {
            } else {
                assert(after[i] == before[i - 1]);
                assert(after[j] == before[j - 1]);
            }
        }
        assert forall|y: usize| after.contains(y) <==> (before.contains(y) || y == x) by {
            if after.contains(y) {
                let i = choose|i: int| 0 <= i < after.len() && after[i] == y;
                if i < pos {
                    assert(before[i] == y);
                } else if i > pos {
                    assert(before[i - 1] == y);
                }
            }
            if before.contains(y) {
                let i = choose|i: int| 0 <= i < before.len() && before[i] == y;
                if i < pos {
                    assert(after[i] == y);
                } else {
                    assert(after[i + 1] == y);
                }
            }
            if y == x {
                assert(after[pos as int] == y);
            }
        }
    }
}

/// Lists the members of a set of line numbers in ascending order.
pub fn sorted_lines(line_numbers: &HashSet<usize>) -> (lines: Vec<usize>)
    ensures
        ascending(lines@),
        lists_set(lines@, line_numbers@),
        lines@ == ascending_of(line_numbers@),
{
    broadcast use vstd::std_specs::hash::group_hash_axioms;

    let mut lines: Vec<usize> = Vec::new();
    for line in it: line_numbers.iter()
        invariant
            ascending(lines@),
            forall|k: int| 0 <= k < it.index() ==> lines@.contains(*#[trigger] it.seq()[k]),
            forall|y: usize| lines@.contains(y) ==> line_numbers@.contains(y),
            forall|x: usize|
                line_numbers@.contains(x) ==> exists|k: int|
                    0 <= k < it.seq().len() && *#[trigger] it.seq()[k] == x,
            it.seq().unref().to_set() == line_numbers@,
    {
        assert(it.seq().unref()[it.index() as int] == *line);
        assert(it.seq().unref().contains(*line));
        assert(it.seq().unref().to_set().contains(*line));
        insert_ascending(&mut lines, *line);
    }
    proof {
        let q = ascending_of(line_numbers@);
        assert(ascending(q) && lists_set(q, line_numbers@));
        lemma_ascending_unique(lines@, q, line_numbers@);
    }
    lines
}

/// The sorted list `sorted` with `x` put behind every block that starts at or
/// before the row where `x` starts.
pub open spec fn insert_by_start(sorted: Seq<BlockView>, x: BlockView) -> Seq<BlockView>
    decreases sorted.len(),
{
    if sorted.len() == 0 {
        seq![x]
    } else if sorted.last().start_row <= x.start_row {
        sorted.push(x)
    } else {
        insert_by_start(sorted.drop_last(), x).push(sorted.last())
    }
}

/// The blocks in ascending order of their first row; blocks that start on the
/// same row keep their order.
pub open spec fn sort_by_start(blocks: Seq<BlockView>) -> Seq<BlockView>
    decreases blocks.len(),
{
    if blocks.len() == 0 {
        Seq::empty()
    } else {
        insert_by_start(sort_by_start(blocks.drop_last()), blocks.last())
    }
}

/// The blocks are in ascending order of their first row.
pub open spec fn sorted_by_start(blocks: Seq<BlockView>) -> bool {
    forall|i: int, j: int|
        0 <= i < j < blocks.len() ==> (#[trigger] blocks[i]).start_row <= (
        #[trigger] blocks[j]).start_row
}

/// Inserting at the place that the order gives is what `insert_by_start` does.
pub proof fn lemma_insert_by_start_at(sorted: Seq<BlockView>, x: BlockView, pos: int)
    requires
        0 <= pos <= sorted.len(),
        pos > 0 ==> sorted[pos - 1].start_row <= x.start_row,
        forall|k: int| pos <= k < sorted.len() ==> (#[trigger] sorted[k]).start_row > x.start_row,
    ensures
        insert_by_start(sorted, x) == sorted.insert(pos, x),
    decreases sorted.len(),
{
    if sorted.len() == 0 {
        assert(seq![x] =~= sorted.insert(pos, x));
    } else if pos == sorted.len() {
        assert(sorted.push(x) =~= sorted.insert(pos, x));
    } else {
        lemma_insert_by_start_at(sorted.drop_last(), x, pos);
        assert(sorted.drop_last().insert(pos, x).push(sorted.last()) =~= sorted.insert(pos, x));
    }
}

/// Inserting into a sorted list gives a sorted list with the same blocks and `x`.
pub proof fn lemma_insert_by_start(sorted: Seq<BlockView>, x: BlockView)
    requires
        sorted_by_start(sorted),
    ensures
        sorted_by_start(insert_by_start(sorted, x)),
        insert_by_start(sorted, x).len() == sorted.len() + 1,
        forall|b: BlockView|
            #![trigger insert_by_start(sorted, x).contains(b)]
            insert_by_start(sorted, x).contains(b) <==> (sorted.contains(b) || b == x),
    decreases sorted.len(),
{
    let r = insert_by_start(sorted, x);
    if sorted.len() == 0 {
        assert(r[0] == x);
        assert forall|b: BlockView| r.contains(b) <==> (sorted.contains(b) || b == x) by {
            if r.contains(b) {
                let i = choose|i: int| 0 <= i < r.len() && r[i] == b;
            }
        }
    } else if sorted.last().start_row <= x.start_row {
        assert forall|b: BlockView| r.contains(b) <==> (sorted.contains(b) || b == x) by {
            if r.contains(b) {
                let i = choose|i: int| 0 <= i < r.len() && r[i] == b;
                if i < sorted.len() {
                    assert(sorted[i] == b);
                }
            }
            if sorted.contains(b) {
                let i = choose|i: int| 0 <= i < sorted.len() && sorted[i] == b;
                assert(r[i] == b);
            }
            if b == x {
                assert(r[sorted.len() as int] == b);
            }
        }
    } else {
        let front = sorted.drop_last();
        let last = sorted.last();
        assert(sorted_by_start(front));
        lemma_insert_by_start(front, x);
        let rf = insert_by_start(front, x);
        assert forall|i: int, j: int| 0 <= i < j < r.len() implies (#[trigger] r[i]).start_row <= (
        #[trigger] r[j]).start_row by {
            if j == r.len() - 1 {
                assert(rf.contains(rf[i]));
                if front.contains(rf[i]) {
                    let k = choose|k: int| 0 <= k < front.len() && front[k] == rf[i];
                    assert(sorted[k] == rf[i]);
                }
            } else {
                assert(rf[i].start_row <= rf[j].start_row);
            }
        }
        assert forall|b: BlockView| r.contains(b) <==> (sorted.contains(b) || b == x) by {
            if r.contains(b) {
                let i = choose|i: int| 0 <= i < r.len() && r[i] == b;
                if i < rf.len() {
                    assert(rf.contains(rf[i]));
                    if front.contains(b) {
                        let k = choose|k: int| 0 <= k < front.len() && front[k] == b;
                        assert(sorted[k] == b);
                    }
                } else {
                    assert(sorted[sorted.len() - 1] == b);
                }
            }
            if sorted.contains(b) {
                let k = choose|k: int| 0 <= k < sorted.len() && sorted[k] == b;
                if k < front.len() {
                    assert(front[k] == b);
                    assert(front.contains(b));
                    assert(rf.contains(b));
                    let i = choose|i: int| 0 <= i < rf.len() && rf[i] == b;
                    assert(r[i] == b);
                } else {
                    assert(r[r.len() - 1] == b);
                }
            }
            if b == x {
                assert(rf.contains(b));
                let i = choose|i: int| 0 <= i < rf.len() && rf[i] == b;
                assert(r[i] == b);
            }
        }
    }
}

/// Sorting gives a sorted list of the same length that holds the same blocks.
pub proof fn lemma_sort_by_start(blocks: Seq<BlockView>)
    ensures
        sorted_by_start(sort_by_start(blocks)),
        sort_by_start(blocks).len() == blocks.len(),
        forall|b: BlockView|
            #![trigger sort_by_start(blocks).contains(b)]
            sort_by_start(blocks).contains(b) <==> blocks.contains(b),
    decreases blocks.len(),
{
    if blocks.len() > 0 {
        let front = blocks.drop_last();
        lemma_sort_by_start(front);
        lemma_insert_by_start(sort_by_start(front), blocks.last());
        let r = sort_by_start(blocks);
        assert forall|b: BlockView| r.contains(b) <==> blocks.contains(b) by {
            if blocks.contains(b) {
                let k = choose|k: int| 0 <= k < blocks.len() && blocks[k] == b;
                if k < front.len() {
                    assert(front[k] == b);
                    assert(front.contains(b));
                }
            }
            if front.contains(b) {
                let k = choose|k: int| 0 <= k < front.len() && front[k] == b;
                assert(blocks[k] == b);
            }
            if b == blocks.last() {
                assert(blocks[blocks.len() - 1] == b);
            }
        }
    } else {
        assert forall|b: BlockView| sort_by_start(blocks).contains(b) <==> blocks.contains(
            b,
        ) by {}
    }
}

/// A sorted list is its own sorting.
pub proof fn lemma_sort_of_sorted(blocks: Seq<BlockView>)
    requires
        sorted_by_start(blocks),
    ensures
        sort_by_start(blocks) == blocks,
    decreases blocks.len(),
{
    if blocks.len() > 0 {
        let front = blocks.drop_last();
        assert(sorted_by_start(front));
        lemma_sort_of_sorted(front);
        if front.len() > 0 {
            assert(front.last() == blocks[blocks.len() - 2]);
        }
        assert(front.push(blocks.last()) =~= blocks);
    } else {
        assert(sort_by_start(blocks) =~= blocks);
    }
}

/// Sorts blocks by their first row, keeping the order of blocks that start on
/// the same row.
pub fn sort_blocks(blocks: &Vec<CodeBlock>) -> (sorted: Vec<CodeBlock>)
    ensures
        blocks_view(sorted@) == sort_by_start(blocks_view(blocks@)),
{
    let ghost input = blocks_view(blocks@);
    let mut sorted: Vec<CodeBlock> = Vec::new();
    let mut i: usize = 0;
    assert(input.take(0) =~= Seq::<BlockView>::empty());
    assert(blocks_view(sorted@) =~= Seq::<BlockView>::empty());
    while i < blocks.len()
        invariant
            i <= blocks.len(),
            input == blocks_view(blocks@),
            blocks_view(sorted@) == sort_by_start(input.take(i as int)),
        decreases blocks.len() - i,
    {
        let block = blocks[i].clone();
        let ghost before = blocks_view(sorted@);
        let mut pos: usize = sorted.len();
        while pos > 0 && sorted[pos - 1].start_row > block.start_row
            invariant
                pos <= sorted.len(),
                before == blocks_view(sorted@),
                forall|k: int|
                    pos <= k < sorted.len() ==> (#[trigger] before[k]).start_row > block@.start_row,
            decreases pos,
        {
            assert(before[pos - 1] == sorted@[pos - 1]@);
            pos -= 1;
        }
        proof {
            if pos > 0 {
                assert(before[pos - 1] == sorted@[pos - 1]@);
            }
            lemma_insert_by_start_at(before, block@, pos as int);
            assert(input.take(i + 1).drop_last() =~= input.take(i as int));
            assert(input.take(i + 1).last() == block@);
        }
        let ghost b = block@;
        sorted.insert(pos, block);
        assert(blocks_view(sorted@) =~= before.insert(pos as int, b));
        i += 1;
    }
    assert(input.take(i as int) =~= input);
    sorted
}

} // verus!
