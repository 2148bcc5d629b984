//! Removal of overlapping blocks by containment, importance and priority.

use vstd::prelude::*;
use crate::block::BlockView;
use crate::block::CodeBlock;
use crate::block::blocks_view;
use crate::priority::is_comment_block;
use crate::priority::is_comment_block_kind;
use crate::priority::is_important;
use crate::priority::is_important_kind;
use crate::priority::node_type_priority;
use crate::priority::priority_of;
use crate::priority::rank;

verus! {

/// What becomes of an incoming block and an accepted one.
#[derive(Clone, Copy, Debug, PartialEq, Eq, Structural)]
pub enum Verdict {
    /// The two do not compete: they share no row, or the accepted block is a comment.
    Apart,
    /// One contains the other and both stay.
    KeepBoth,
    /// The incoming block takes the place of the accepted one.
    ReplaceExisting,
    /// The incoming block is dropped.
    DropIncoming,
}

/// The two blocks share at least one row.
pub open spec fn rows_overlap(a: BlockView, b: BlockView) -> bool {
    a.start_row <= b.end_row && a.end_row >= b.start_row
}

/// Every row of `inner` is a row of `outer`.
pub open spec fn rows_within(inner: BlockView, outer: BlockView) -> bool {
    inner.start_row >= outer.start_row && inner.end_row <= outer.end_row
}

/// The two blocks share a row and neither contains the other.
pub open spec fn partial_overlap(a: BlockView, b: BlockView) -> bool {
    rows_overlap(a, b) && !rows_within(a, b) && !rows_within(b, a)
}

/// Both kinds are in the priority table.
pub open spec fn both_ranked(a: BlockView, b: BlockView) -> bool {
    priority_of(a.node_type) is Some && priority_of(b.node_type) is Some
}

/// The verdict on an incoming block `x` against an accepted block `e`.
///
/// Blocks that overlap only in part cost the incoming block its place. Where
/// one contains the other, an important block beside a plain one decides: an
/// important incoming block stays beside the plain one, a plain incoming block
/// yields. Between two important or two plain blocks the priority table
/// decides where it lists both kinds: the incoming block takes the place of
/// the accepted one if its priority is higher, and is dropped if not. Where
/// the table does not list both kinds, the contained block wins.
pub open spec fn verdict(x: BlockView, e: BlockView) -> Verdict {
    if is_comment_block_kind(e.node_type) || !rows_overlap(x, e) {
        Verdict::Apart
    } else if rows_within(x, e) {
        if is_important_kind(x.node_type) && !is_important_kind(e.node_type) {
            Verdict::KeepBoth
        } else if !is_important_kind(x.node_type) && is_important_kind(e.node_type) {
            Verdict::DropIncoming
        } else if both_ranked(x, e) && rank(x.node_type) <= rank(e.node_type) {
            Verdict::DropIncoming
        } else {
            Verdict::ReplaceExisting
        }
    } else if rows_within(e, x) {
        if is_important_kind(x.node_type) && !is_important_kind(e.node_type) {
            Verdict::KeepBoth
        } else if !is_important_kind(x.node_type) && is_important_kind(e.node_type) {
            Verdict::DropIncoming
        } else if both_ranked(x, e) && rank(x.node_type) > rank(e.node_type) {
            Verdict::ReplaceExisting
        } else {
            Verdict::DropIncoming
        }
    } else {
        Verdict::DropIncoming
    }
}

/// Computes the verdict on an incoming block against an accepted one.
pub fn block_verdict(x: &CodeBlock, e: &CodeBlock) -> (v: Verdict)
    ensures
        v == verdict(x@, e@),
{
    if is_comment_block(e.node_type.as_str()) || !(x.start_row <= e.end_row && x.end_row
        >= e.start_row) {
        return Verdict::Apart;
    }
    let x_in_e = x.start_row >= e.start_row && x.end_row <= e.end_row;
    let e_in_x = e.start_row >= x.start_row && e.end_row <= x.end_row;
    if !x_in_e && !e_in_x {
        return Verdict::DropIncoming;
    }
    let x_important = is_important(x.node_type.as_str());
    let e_important = is_important(e.node_type.as_str());
    if x_important && !e_important {
        return Verdict::KeepBoth;
    }
    if !x_important && e_important {
        return Verdict::DropIncoming;
    }
    let ranks = (node_type_priority(x.node_type.as_str()), node_type_priority(e.node_type.as_str()));
    if x_in_e {
        match ranks {
            (Some(px), Some(pe)) => if px <= pe {
                Verdict::DropIncoming
            } else {
                Verdict::ReplaceExisting
            },
            _ => Verdict::ReplaceExisting,
        }
    } else {
        match ranks {
            (Some(px), Some(pe)) => if px > pe {
                Verdict::ReplaceExisting
            } else {
                Verdict::DropIncoming
            },
            _ => Verdict::DropIncoming,
        }
    }
}

/// The index, at or after `from`, of the first accepted block that costs the
/// incoming block its place; the length of the list if there is none.
pub open spec fn first_drop(acc: Seq<BlockView>, x: BlockView, from: int) -> int
    decreases acc.len() - from,
{
    if from < 0 || from >= acc.len() {
        acc.len() as int
    } else if verdict(x, acc[from]) == Verdict::DropIncoming {
        from
    } else {
        first_drop(acc, x, from + 1)
    }
}

/// What `first_drop` returns is the least index of a block that drops `x`.
pub proof fn lemma_first_drop(acc: Seq<BlockView>, x: BlockView, from: int)
    requires
        0 <= from <= acc.len(),
    ensures
        from <= first_drop(acc, x, from) <= acc.len(),
        first_drop(acc, x, from) < acc.len() ==> verdict(x, acc[first_drop(acc, x, from)])
            == Verdict::DropIncoming,
        forall|j: int|
            from <= j < first_drop(acc, x, from) ==> verdict(x, #[trigger] acc[j])
                != Verdict::DropIncoming,
    decreases acc.len() - from,
{
    if from < acc.len() && verdict(x, acc[from]) != Verdict::DropIncoming {
        lemma_first_drop(acc, x, from + 1);
    }
}

/// The accepted block at index `i` yields to `x`: it comes before the point
/// where the comparison stopped and `x` takes its place.
pub open spec fn yields(acc: Seq<BlockView>, x: BlockView, stop: int, i: int) -> bool {
    i < stop && verdict(x, acc[i]) == Verdict::ReplaceExisting
}

/// The first `n` accepted blocks without those that yield to `x`, in order.
pub open spec fn survivors(acc: Seq<BlockView>, x: BlockView, stop: int, n: int) -> Seq<BlockView>
    decreases n,
{
    if n <= 0 || n > acc.len() {
        Seq::empty()
    } else if yields(acc, x, stop, n - 1) {
        survivors(acc, x, stop, n - 1)
    } else {
        survivors(acc, x, stop, n - 1).push(acc[n - 1])
    }
}

/// The accepted blocks after the incoming block `x` was compared with them in
/// order: the comparison stops at the first block that drops `x`; the blocks
/// before that point that yield to `x` leave; `x` joins at the end unless it
/// was dropped.
pub open spec fn dedupe_step(acc: Seq<BlockView>, x: BlockView) -> Seq<BlockView> {
    let stop = first_drop(acc, x, 0);
    let kept = survivors(acc, x, stop, acc.len() as int);
    if stop == acc.len() {
        kept.push(x)
    } else {
        kept
    }
}

/// The comment blocks among the first `n` blocks, in order.
pub open spec fn comments_of(blocks: Seq<BlockView>, n: int) -> Seq<BlockView>
    decreases n,
{
    if n <= 0 || n > blocks.len() {
        Seq::empty()
    } else if is_comment_block_kind(blocks[n - 1].node_type) {
        comments_of(blocks, n - 1).push(blocks[n - 1])
    } else {
        comments_of(blocks, n - 1)
    }
}

/// The accepted blocks after the first `n` blocks were considered: every
/// comment block of the whole list, then the other blocks in order, each
/// through `dedupe_step`.
pub open spec fn dedupe_prefix(blocks: Seq<BlockView>, n: int) -> Seq<BlockView>
    decreases n,
{
    if n <= 0 || n > blocks.len() {
        comments_of(blocks, blocks.len() as int)
    } else if is_comment_block_kind(blocks[n - 1].node_type) {
        dedupe_prefix(blocks, n - 1)
    } else {
        dedupe_step(dedupe_prefix(blocks, n - 1), blocks[n - 1])
    }
}

/// The blocks that remain of a list once overlaps are resolved.
pub open spec fn dedupe(blocks: Seq<BlockView>) -> Seq<BlockView> {
    dedupe_prefix(blocks, blocks.len() as int)
}

/// No two blocks of the list that are not comments overlap in part.
pub open spec fn no_partial_overlap(blocks: Seq<BlockView>) -> bool {
    forall|a: BlockView, b: BlockView|
        #![trigger blocks.contains(a), blocks.contains(b)]
        blocks.contains(a) && blocks.contains(b) && !is_comment_block_kind(a.node_type)
            && !is_comment_block_kind(b.node_type) ==> !partial_overlap(a, b)
}

/// Every block of `part` is a block of `whole`.
pub open spec fn all_from(part: Seq<BlockView>, whole: Seq<BlockView>) -> bool {
    forall|b: BlockView| #[trigger] part.contains(b) ==> whole.contains(b)
}

/// Every survivor is an accepted block that does not yield.
pub proof fn lemma_survivors(acc: Seq<BlockView>, x: BlockView, stop: int, n: int)
    requires
        0 <= n <= acc.len(),
    ensures
        survivors(acc, x, stop, n).len() <= n,
        forall|b: BlockView| #[trigger]
            survivors(acc, x, stop, n).contains(b) ==> exists|i: int|
                0 <= i < n && #[trigger] acc[i] == b && !yields(acc, x, stop, i),
    decreases n,
{
    if n > 0 {
        lemma_survivors(acc, x, stop, n - 1);
        let prev = survivors(acc, x, stop, n - 1);
        let cur = survivors(acc, x, stop, n);
        assert forall|b: BlockView| #[trigger] cur.contains(b) implies exists|i: int|
            0 <= i < n && #[trigger] acc[i] == b && !yields(acc, x, stop, i) by {
            let k = choose|k: int| 0 <= k < cur.len() && cur[k] == b;
            if yields(acc, x, stop, n - 1) {
                assert(prev.contains(b));
            } else if k < prev.len() {
                assert(prev[k] == b);
                assert(prev.contains(b));
            } else {
                assert(acc[n - 1] == b);
            }
        }
    }
}

/// Every comment block listed by `comments_of` is a comment block of the list.
pub proof fn lemma_comments_of(blocks: Seq<BlockView>, n: int)
    requires
        0 <= n <= blocks.len(),
    ensures
        forall|b: BlockView| #[trigger]
            comments_of(blocks, n).contains(b) ==> blocks.contains(b) && is_comment_block_kind(
                b.node_type,
            ),
    decreases n,
{
    if n > 0 {
        lemma_comments_of(blocks, n - 1);
        let prev = comments_of(blocks, n - 1);
        let cur = comments_of(blocks, n);
        assert forall|b: BlockView| #[trigger] cur.contains(b) implies blocks.contains(b)
            && is_comment_block_kind(b.node_type) by {
            let k = choose|k: int| 0 <= k < cur.len() && cur[k] == b;
            if is_comment_block_kind(blocks[n - 1].node_type) {
                if k < prev.len() {
                    assert(prev[k] == b);
                    assert(prev.contains(b));
                } else {
                    assert(blocks[n - 1] == b);
                }
            } else {
                assert(prev.contains(b));
            }
        }
    }
}

/// One step keeps the accepted blocks free of partial overlaps and adds no
/// block but the incoming one.
pub proof fn lemma_dedupe_step(acc: Seq<BlockView>, x: BlockView)
    requires
        no_partial_overlap(acc),
        !is_comment_block_kind(x.node_type),
    ensures
        no_partial_overlap(dedupe_step(acc, x)),
        forall|b: BlockView| #[trigger]
            dedupe_step(acc, x).contains(b) ==> acc.contains(b) || b == x,
{
    let stop = first_drop(acc, x, 0);
    let kept = survivors(acc, x, stop, acc.len() as int);
    let out = dedupe_step(acc, x);
    lemma_first_drop(acc, x, 0);
    lemma_survivors(acc, x, stop, acc.len() as int);
    assert forall|b: BlockView| #[trigger] out.contains(b) implies acc.contains(b) || b == x by {
        let k = choose|k: int| 0 <= k < out.len() && out[k] == b;
        if k < kept.len() {
            assert(kept[k] == b);
            assert(kept.contains(b));
        }
    }
    assert forall|a: BlockView, b: BlockView|
        #![trigger out.contains(a), out.contains(b)]
        out.contains(a) && out.contains(b) && !is_comment_block_kind(a.node_type)
            && !is_comment_block_kind(b.node_type) implies !partial_overlap(a, b) by {
        let ka = choose|k: int| 0 <= k < out.len() && out[k] == a;
        let kb = choose|k: int| 0 <= k < out.len() && out[k] == b;
        if ka < kept.len() {
            assert(kept[ka] == a);
            assert(kept.contains(a));
        }
        if kb < kept.len() {
            assert(kept[kb] == b);
            assert(kept.contains(b));
        }
        if ka < kept.len() && kb < kept.len() {
            assert(acc.contains(a) && acc.contains(b));
        } else if ka < kept.len() {
            let i = choose|i: int| 0 <= i < acc.len() && #[trigger] acc[i] == a && !yields(acc, x, stop, i);
            assert(verdict(x, acc[i]) != Verdict::DropIncoming);
        } else if kb < kept.len() {
            let i = choose|i: int| 0 <= i < acc.len() && #[trigger] acc[i] == b && !yields(acc, x, stop, i);
            assert(verdict(x, acc[i]) != Verdict::DropIncoming);
        }
    }
}

/// Resolving overlaps leaves no two blocks that are not comments overlapping
/// in part, and every block that remains was in the list.
pub proof fn lemma_dedupe_prefix(blocks: Seq<BlockView>, n: int)
    requires
        0 <= n <= blocks.len(),
    ensures
        no_partial_overlap(dedupe_prefix(blocks, n)),
        all_from(dedupe_prefix(blocks, n), blocks),
    decreases n,
{
    if n == 0 {
        lemma_comments_of(blocks, blocks.len() as int);
    } else {
        lemma_dedupe_prefix(blocks, n - 1);
        if !is_comment_block_kind(blocks[n - 1].node_type) {
            lemma_dedupe_step(dedupe_prefix(blocks, n - 1), blocks[n - 1]);
            assert(blocks.contains(blocks[n - 1]));
        }
    }
}

/// Compares an incoming block with the accepted blocks and updates them.
pub fn dedupe_add(acc: Vec<CodeBlock>, x: &CodeBlock) -> (out: Vec<CodeBlock>)
    ensures
        blocks_view(out@) == dedupe_step(blocks_view(acc@), x@),
{
    let ghost before = blocks_view(acc@);
    let mut stop: usize = 0;
    while stop < acc.len()
        invariant
            stop <= acc.len(),
            before == blocks_view(acc@),
            first_drop(before, x@, 0) == first_drop(before, x@, stop as int),
        ensures
            stop <= acc.len(),
            stop == first_drop(before, x@, 0),
        decreases acc.len() - stop,
    {
        assert(before[stop as int] == acc@[stop as int]@);
        if block_verdict(x, &acc[stop]) == Verdict::DropIncoming {
            break ;
        }
        stop += 1;
    }
    let mut out: Vec<CodeBlock> = Vec::new();
    let mut i: usize = 0;
    assert(blocks_view(out@) =~= survivors(before, x@, stop as int, 0));
    while i < acc.len()
        invariant
            i <= acc.len(),
            stop <= acc.len(),
            before == blocks_view(acc@),
            blocks_view(out@) == survivors(before, x@, stop as int, i as int),
        decreases acc.len() - i,
    {
        assert(before[i as int] == acc@[i as int]@);
        let gone = i < stop && block_verdict(x, &acc[i]) == Verdict::ReplaceExisting;
        if !gone {
            let ghost prev = blocks_view(out@);
            let block = acc[i].clone();
            out.push(block);
            assert(blocks_view(out@) =~= prev.push(before[i as int]));
        }
        i += 1;
    }
    if stop == acc.len() {
        let ghost prev = blocks_view(out@);
        out.push(x.clone());
        assert(blocks_view(out@) =~= prev.push(x@));
    }
    out
}

/// Resolves the overlaps in a list of blocks: the comment blocks come first,
/// unchanged; every other block is then compared with the blocks accepted so far.
pub fn dedupe_blocks(blocks: &Vec<CodeBlock>) -> (out: Vec<CodeBlock>)
    ensures
        blocks_view(out@) == dedupe(blocks_view(blocks@)),
{
    let ghost input = blocks_view(blocks@);
    let mut out: Vec<CodeBlock> = Vec::new();
    let mut i: usize = 0;
    assert(blocks_view(out@) =~= comments_of(input, 0));
    while i < blocks.len()
        invariant
            i <= blocks.len(),
            input == blocks_view(blocks@),
            blocks_view(out@) == comments_of(input, i as int),
        decreases blocks.len() - i,
    {
        assert(input[i as int] == blocks@[i as int]@);
        if is_comment_block(blocks[i].node_type.as_str()) {
            let ghost prev = blocks_view(out@);
            out.push(blocks[i].clone());
            assert(blocks_view(out@) =~= prev.push(input[i as int]));
        }
        i += 1;
    }
    let mut k: usize = 0;
    while k < blocks.len()
        invariant
            k <= blocks.len(),
            input == blocks_view(blocks@),
            blocks_view(out@) == dedupe_prefix(input, k as int),
        decreases blocks.len() - k,
    {
        assert(input[k as int] == blocks@[k as int]@);
        if !is_comment_block(blocks[k].node_type.as_str()) {
            out = dedupe_add(out, &blocks[k]);
        }
        k += 1;
    }
    out
}

} // verus!
