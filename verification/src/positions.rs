//! Rows and bytes: whether the positions that a syntax tree records are
//! those of the text it was parsed from.

use vstd::prelude::*;
use crate::block::BlockView;
use crate::text::newline_count;
use crate::tree::SyntaxNode;
use crate::tree::SyntaxTree;

verus! {

/// The row of a byte offset: the number of line feeds before it.
pub open spec fn row_of(source: Seq<u8>, byte: int) -> nat {
    newline_count(source.take(byte))
}

/// The row is the row of the byte offset, and the offset lies in the text.
pub open spec fn point_fits(source: Seq<u8>, byte: int, row: int) -> bool {
    0 <= byte <= source.len() && row == row_of(source, byte)
}

/// The rows of the node are the rows of its first and last byte offset.
pub open spec fn node_fits(source: Seq<u8>, node: SyntaxNode) -> bool {
    &&& node.start_byte <= node.end_byte
    &&& point_fits(source, node.start_byte as int, node.start_row as int)
    &&& point_fits(source, node.end_byte as int, node.end_row as int)
}

/// Every node of the tree has the rows of its byte offsets.
pub open spec fn tree_fits(source: Seq<u8>, nodes: Seq<SyntaxNode>) -> bool {
    forall|i: int| 0 <= i < nodes.len() ==> node_fits(source, #[trigger] nodes[i])
}

/// The rows of the block are the rows of its first and last byte offset, so
/// the bytes of the block begin on its first row and end on its last.
pub open spec fn block_fits(source: Seq<u8>, b: BlockView) -> bool {
    &&& b.start_byte <= b.end_byte
    &&& point_fits(source, b.start_byte as int, b.start_row as int)
    &&& point_fits(source, b.end_byte as int, b.end_row as int)
}

/// A later byte offset has no earlier row.
pub proof fn lemma_row_monotone(source: Seq<u8>, a: int, b: int)
    requires
        0 <= a <= b <= source.len(),
    ensures
        row_of(source, a) <= row_of(source, b),
    decreases b - a,
{
    if a < b {
        lemma_row_monotone(source, a, b - 1);
        assert(source.take(b).drop_last() =~= source.take(b - 1));
    }
}

/// A block that has the rows of its byte offsets does not end on an earlier
/// row than it begins on.
pub proof fn lemma_fitting_block_rows(source: Seq<u8>, b: BlockView)
    requires
        block_fits(source, b),
    ensures
        b.start_row <= b.end_row,
{
    lemma_row_monotone(source, b.start_byte as int, b.end_byte as int);
}

/// The row of the offset after a byte: one more after a line feed, the same
/// after any other byte.
pub proof fn lemma_row_step(source: Seq<u8>, i: int)
    requires
        0 <= i < source.len(),
    ensures
        row_of(source, i + 1) == row_of(source, i) + if source[i] == 10u8 {
            1nat
        } else {
            0nat
        },
{
    assert(source.take(i + 1).drop_last() =~= source.take(i));
}

/// `starts` lists, for each row of the text, the offset where the row begins.
pub open spec fn line_starts_of(source: Seq<u8>, starts: Seq<usize>, upto: int) -> bool {
    &&& starts.len() == row_of(source, upto) + 1
    &&& starts[0] == 0
    &&& forall|k: int|
        0 < k < starts.len() ==> 0 < (#[trigger] starts[k]) <= upto && source[starts[k] - 1] == 10u8
            && row_of(source, starts[k] as int) == k
}

/// Lists the offsets where the rows of a text begin.
pub fn line_starts(source: &[u8]) -> (starts: Vec<usize>)
    ensures
        line_starts_of(source@, starts@, source@.len() as int),
{
    let mut starts: Vec<usize> = Vec::new();
    starts.push(0);
    let mut i: usize = 0;
    assert(source@.take(0) =~= Seq::<u8>::empty());
    while i < source.len()
        invariant
            i <= source@.len(),
            line_starts_of(source@, starts@, i as int),
        decreases source@.len() - i,
    {
        proof {
            lemma_row_step(source@, i as int);
        }
        if source[i] == 10u8 {
            let ghost before = starts@;
            starts.push(i + 1);
            assert forall|k: int| 0 < k < starts@.len() implies 0 < (#[trigger] starts@[k]) <= i + 1
                && source@[starts@[k] - 1] == 10u8 && row_of(source@, starts@[k] as int) == k by {
                if k < before.len() {
                    assert(starts@[k] == before[k]);
                }
            }
        }
        i += 1;
    }
    starts
}

/// Tests whether a row is the row of a byte offset, given where the rows begin.
pub fn point_matches(source: &[u8], starts: &Vec<usize>, byte: usize, row: usize) -> (r: bool)
    requires
        line_starts_of(source@, starts@, source@.len() as int),
    ensures
        r == point_fits(source@, byte as int, row as int),
{
    if byte > source.len() {
        return false;
    }
    if row >= starts.len() {
        proof {
            lemma_row_monotone(source@, byte as int, source@.len() as int);
        }
        return false;
    }
    let first = starts[row];
    proof {
        if row > 0 {
            assert(row_of(source@, starts@[row as int] as int) == row);
        } else {
            assert(source@.take(0) =~= Seq::<u8>::empty());
        }
    }
    if byte < first {
        proof {
            // the offset lies before the row begins: its row is an earlier one
            lemma_row_monotone(source@, byte as int, first - 1);
            lemma_row_step(source@, first - 1);
        }
        return false;
    }
    proof {
        lemma_row_monotone(source@, first as int, byte as int);
    }
    if row + 1 < starts.len() {
        let next = starts[row + 1];
        proof {
            assert(row_of(source@, starts@[row + 1] as int) == row + 1);
            lemma_row_step(source@, next - 1);
            if byte < next {
                lemma_row_monotone(source@, byte as int, next - 1);
            } else {
                lemma_row_monotone(source@, next as int, byte as int);
            }
        }
        byte < next
    } else {
        proof {
            lemma_row_monotone(source@, byte as int, source@.len() as int);
        }
        true
    }
}

/// Tests whether every node of a tree has the rows of its byte offsets.
pub fn tree_matches_source(tree: &SyntaxTree, source: &[u8]) -> (r: bool)
    ensures
        r == tree_fits(source@, tree.nodes@),
{
    let starts = line_starts(source);
    let mut i: usize = 0;
    while i < tree.nodes.len()
        invariant
            i <= tree.nodes@.len(),
            line_starts_of(source@, starts@, source@.len() as int),
            forall|k: int| 0 <= k < i ==> node_fits(source@, #[trigger] tree.nodes@[k]),
        decreases tree.nodes@.len() - i,
    {
        let node = &tree.nodes[i];
        if !(node.start_byte <= node.end_byte && point_matches(
            source,
            &starts,
            node.start_byte,
            node.start_row,
        ) && point_matches(source, &starts, node.end_byte, node.end_row)) {
            return false;
        }
        i += 1;
    }
    true
}

} // verus!
