//! The block merger: blocks that lie close together become one block.

use vstd::prelude::*;
use crate::block::BlockView;
use crate::block::CodeBlock;
use crate::block::blocks_view;
use crate::candidate::kind_outranks;
use crate::candidate::max_nat;
use crate::candidate::min_nat;
use crate::candidate::outranks;
use crate::order::sorted_by_start;

verus! {

/// The gap, in lines, up to which two blocks are merged unless the caller
/// says otherwise.
pub const DEFAULT_MERGE_THRESHOLD: usize = 5;

/// `next` starts at most `gap` rows after the last row of `prev`.
pub open spec fn adjacent(prev: BlockView, next: BlockView, gap: nat) -> bool {
    next.start_row - prev.end_row <= gap
}

/// The block that two adjacent blocks become: it spans the rows and bytes of
/// both. Its kind is the one of higher priority, the first block's on a tie,
/// and it reports the enclosing declaration of the block whose kind it took.
#[verifier::opaque]
pub open spec fn join(a: BlockView, b: BlockView) -> BlockView {
    let from = if outranks(b.node_type, a.node_type) {
        b
    } else {
        a
    };
    BlockView {
        start_row: min_nat(a.start_row, b.start_row),
        end_row: max_nat(a.end_row, b.end_row),
        start_byte: min_nat(a.start_byte, b.start_byte),
        end_byte: max_nat(a.end_byte, b.end_byte),
        node_type: from.node_type,
        parent_node_type: from.parent_node_type,
        parent_start_row: from.parent_start_row,
        parent_end_row: from.parent_end_row,
    }
}

/// The rows of a joined block are the first and the last row of the two.
pub proof fn lemma_join_rows(a: BlockView, b: BlockView)
    ensures
        join(a, b).start_row == min_nat(a.start_row, b.start_row),
        join(a, b).end_row == max_nat(a.end_row, b.end_row),
        join(a, b).start_byte == min_nat(a.start_byte, b.start_byte),
        join(a, b).end_byte == max_nat(a.end_byte, b.end_byte),
{
    reveal(join);
}

/// The list after one more block: the block is joined to the last one if it
/// is adjacent to it, and appended otherwise.
pub open spec fn merge_step(acc: Seq<BlockView>, b: BlockView, gap: nat) -> Seq<BlockView> {
    if acc.len() > 0 && adjacent(acc.last(), b, gap) {
        acc.drop_last().push(join(acc.last(), b))
    } else {
        acc.push(b)
    }
}

/// One step keeps the list sorted and separated, if the new block starts no
/// earlier than the last one.
proof fn lemma_merge_step(acc: Seq<BlockView>, b: BlockView, gap: nat)
    requires
        separated(acc, gap),
        sorted_by_start(acc),
        acc.len() > 0 ==> acc.last().start_row <= b.start_row,
    ensures
        separated(merge_step(acc, b, gap), gap),
        sorted_by_start(merge_step(acc, b, gap)),
        0 < merge_step(acc, b, gap).len() <= acc.len() + 1,
        merge_step(acc, b, gap).last().start_row <= b.start_row,
{
    let out = merge_step(acc, b, gap);
    if acc.len() > 0 && adjacent(acc.last(), b, gap) {
        lemma_join_rows(acc.last(), b);
        let n = acc.len() as int;
        assert(out.len() == n);
        assert(out[n - 1].start_row == acc[n - 1].start_row);
        assert forall|i: int| 0 < i < out.len() implies (#[trigger] out[i]).start_row - out[i
            - 1].end_row > gap by {
            assert(out[i - 1] == acc[i - 1]);
            assert(acc[i].start_row - acc[i - 1].end_row > gap);
            if i < n - 1 {
                assert(out[i] == acc[i]);
            }
        }
        assert forall|i: int, j: int| 0 <= i < j < out.len() implies (#[trigger] out[i]).start_row
            <= (#[trigger] out[j]).start_row by {
            assert(out[i] == acc[i]);
            assert(acc[i].start_row <= acc[j].start_row);
            if j < n - 1 {
                assert(out[j] == acc[j]);
            }
        }
    } else {
        let n = acc.len() as int;
        assert(out.len() == n + 1);
        assert(out[n] == b);
        assert forall|i: int| 0 < i < out.len() implies (#[trigger] out[i]).start_row - out[i
            - 1].end_row > gap by {
            if i < n {
                assert(out[i] == acc[i]);
                assert(out[i - 1] == acc[i - 1]);
                assert(acc[i].start_row - acc[i - 1].end_row > gap);
            } else {
                assert(out[i - 1] == acc[n - 1]);
            }
        }
        assert forall|i: int, j: int| 0 <= i < j < out.len() implies (#[trigger] out[i]).start_row
            <= (#[trigger] out[j]).start_row by {
            assert(out[i] == acc[i]);
            if j < n {
                assert(out[j] == acc[j]);
                assert(acc[i].start_row <= acc[j].start_row);
            } else if i < n - 1 {
                assert(acc[i].start_row <= acc[n - 1].start_row);
            }
        }
    }
}

/// The blocks with every run of adjacent blocks merged into one. The blocks
/// are taken in order; each is joined to the block before it if it is adjacent
/// to what that block has grown to.
pub open spec fn merge_spec(blocks: Seq<BlockView>, gap: nat) -> Seq<BlockView>
    decreases blocks.len(),
{
    if blocks.len() == 0 {
        Seq::empty()
    } else {
        merge_step(merge_spec(blocks.drop_last(), gap), blocks.last(), gap)
    }
}

/// Each block starts more than `gap` rows after the last row of the block before it.
pub open spec fn separated(blocks: Seq<BlockView>, gap: nat) -> bool {
    forall|i: int|
        0 < i < blocks.len() ==> (#[trigger] blocks[i]).start_row - blocks[i - 1].end_row > gap
}

/// Merging sorted blocks gives sorted blocks that are separated by more than the gap.
pub proof fn lemma_merge_separates(blocks: Seq<BlockView>, gap: nat)
    requires
        sorted_by_start(blocks),
    ensures
        separated(merge_spec(blocks, gap), gap),
        sorted_by_start(merge_spec(blocks, gap)),
        merge_spec(blocks, gap).len() <= blocks.len(),
        blocks.len() > 0 ==> merge_spec(blocks, gap).len() > 0 && merge_spec(
            blocks,
            gap,
        ).last().start_row <= blocks.last().start_row,
    decreases blocks.len(),
{
    if blocks.len() > 0 {
        let front = blocks.drop_last();
        assert forall|i: int, j: int| 0 <= i < j < front.len() implies (
        #[trigger] front[i]).start_row <= (#[trigger] front[j]).start_row by {
            assert(front[i] == blocks[i] && front[j] == blocks[j]);
        }
        lemma_merge_separates(front, gap);
        if front.len() > 0 {
            assert(front.last() == blocks[blocks.len() - 2]);
            assert(blocks[blocks.len() - 2].start_row <= blocks[blocks.len() - 1].start_row);
        }
        lemma_merge_step(merge_spec(front, gap), blocks.last(), gap);
    }
}

/// Blocks that are separated by more than the gap are left as they are.
pub proof fn lemma_merge_keeps_separated(blocks: Seq<BlockView>, gap: nat)
    requires
        separated(blocks, gap),
    ensures
        merge_spec(blocks, gap) == blocks,
    decreases blocks.len(),
{
    if blocks.len() > 0 {
        let front = blocks.drop_last();
        assert forall|i: int| 0 < i < front.len() implies (#[trigger] front[i]).start_row - front[i
            - 1].end_row > gap by {
            assert(front[i] == blocks[i]);
            assert(blocks[i].start_row - blocks[i - 1].end_row > gap);
        }
        lemma_merge_keeps_separated(front, gap);
        if front.len() > 0 {
            assert(blocks[blocks.len() - 1].start_row - blocks[blocks.len() - 2].end_row > gap);
        }
        assert(front.push(blocks.last()) =~= blocks);
    } else {
        assert(merge_spec(blocks, gap) =~= blocks);
    }
}

/// Merging sorted blocks a second time changes nothing.
pub proof fn lemma_merge_idempotent(blocks: Seq<BlockView>, gap: nat)
    requires
        sorted_by_start(blocks),
    ensures
        merge_spec(merge_spec(blocks, gap), gap) == merge_spec(blocks, gap),
{
    lemma_merge_separates(blocks, gap);
    lemma_merge_keeps_separated(merge_spec(blocks, gap), gap);
}

/// Joins two blocks into one.
fn join_blocks(a: CodeBlock, b: &CodeBlock) -> (joined: CodeBlock)
    ensures
        joined@ == join(a@, b@),
{
    reveal(join);
    let start_row = if a.start_row <= b.start_row {
        a.start_row
    } else {
        b.start_row
    };
    let end_row = if a.end_row >= b.end_row {
        a.end_row
    } else {
        b.end_row
    };
    let start_byte = if a.start_byte <= b.start_byte {
        a.start_byte
    } else {
        b.start_byte
    };
    let end_byte = if a.end_byte >= b.end_byte {
        a.end_byte
    } else {
        b.end_byte
    };
    if kind_outranks(b.node_type.as_str(), a.node_type.as_str()) {
        let from = b.clone();
        CodeBlock {
            start_row,
            end_row,
            start_byte,
            end_byte,
            node_type: from.node_type,
            parent_node_type: from.parent_node_type,
            parent_start_row: from.parent_start_row,
            parent_end_row: from.parent_end_row,
        }
    } else {
        CodeBlock {
            start_row,
            end_row,
            start_byte,
            end_byte,
            node_type: a.node_type,
            parent_node_type: a.parent_node_type,
            parent_start_row: a.parent_start_row,
            parent_end_row: a.parent_end_row,
        }
    }
}

/// Merges every run of blocks in which each block starts at most
/// `threshold` rows after the end of what came before it.
pub fn merge_blocks_within(code_blocks: &Vec<CodeBlock>, threshold: usize) -> (merged: Vec<
    CodeBlock,
>)
    ensures
        blocks_view(merged@) == merge_spec(blocks_view(code_blocks@), threshold as nat),
{
    let ghost input = blocks_view(code_blocks@);
    let mut merged: Vec<CodeBlock> = Vec::new();
    let mut i: usize = 0;
    assert(input.take(0) =~= Seq::<BlockView>::empty());
    assert(blocks_view(merged@) =~= Seq::<BlockView>::empty());
    while i < code_blocks.len()
        invariant
            i <= code_blocks@.len(),
            input == blocks_view(code_blocks@),
            blocks_view(merged@) == merge_spec(input.take(i as int), threshold as nat),
        decreases code_blocks@.len() - i,
    {
        let ghost acc = blocks_view(merged@);
        let block = &code_blocks[i];
        proof {
            assert(input.take(i + 1).drop_last() =~= input.take(i as int));
            assert(input.take(i + 1).last() == block@);
        }
        let n = merged.len();
        let close = n > 0 && (block.start_row <= merged[n - 1].end_row || block.start_row
            - merged[n - 1].end_row <= threshold);
        proof {
            if n > 0 {
                assert(acc.last() == merged@[n - 1]@);
            }
        }
        if close {
            let last = merged.pop().unwrap();
            let ghost front = blocks_view(merged@);
            assert(front =~= acc.drop_last());
            let joined = join_blocks(last, block);
            merged.push(joined);
            assert(blocks_view(merged@) =~= acc.drop_last().push(join(acc.last(), block@)));
        } else {
            merged.push(block.clone());
            assert(blocks_view(merged@) =~= acc.push(block@));
        }
        i += 1;
    }
    assert(input.take(i as int) =~= input);
    merged
}

/// Merges blocks that lie at most `DEFAULT_MERGE_THRESHOLD` rows apart.
pub fn merge_code_blocks(code_blocks: Vec<CodeBlock>) -> (merged: Vec<CodeBlock>)
    ensures
        blocks_view(merged@) == merge_spec(
            blocks_view(code_blocks@),
            DEFAULT_MERGE_THRESHOLD as nat,
        ),
{
    merge_blocks_within(&code_blocks, DEFAULT_MERGE_THRESHOLD)
}

/// Merges blocks if `enabled`, with the given threshold or the default one;
/// hands the blocks back unchanged if not.
pub fn merge_if_enabled(code_blocks: Vec<CodeBlock>, enabled: bool, threshold: Option<usize>) -> (merged:
    Vec<CodeBlock>)
    ensures
        blocks_view(merged@) == if enabled {
            merge_spec(
                blocks_view(code_blocks@),
                match threshold {
                    Some(t) => t as nat,
                    None => DEFAULT_MERGE_THRESHOLD as nat,
                },
            )
        } else {
            blocks_view(code_blocks@)
        },
{
    if enabled {
        let gap = match threshold {
            Some(t) => t,
            None => DEFAULT_MERGE_THRESHOLD,
        };
        merge_blocks_within(&code_blocks, gap)
    } else {
        code_blocks
    }
}

} // verus!
