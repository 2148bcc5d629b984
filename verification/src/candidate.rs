//! The block that one line-map record proposes, and how proposals with equal
//! spans are merged into the list of emitted blocks.

use vstd::prelude::*;
use crate::block::BlockView;
use crate::block::CachedInfoView;
use crate::block::CachedNodeInfo;
use crate::block::CodeBlock;
use crate::block::blocks_view;
use crate::block::clone_opt_string;
use crate::priority::is_priority_choice;
use crate::priority::node_type_priority;
use crate::priority::priority_of;
use crate::priority::rank;
use crate::text::bytes_less;
use crate::text::bytes_of;
use crate::text::lemma_bytes_of_injective;
use crate::text::lemma_lex_irreflexive;
use crate::text::lemma_lex_total;
use crate::text::lex_less;

verus! {

/// The smaller of two offsets.
pub open spec fn min_nat(a: nat, b: nat) -> nat {
    if a <= b {
        a
    } else {
        b
    }
}

/// The larger of two offsets.
pub open spec fn max_nat(a: nat, b: nat) -> nat {
    if a >= b {
        a
    } else {
        b
    }
}

/// The record names a context node in full: rows, bytes, kind and test status.
pub open spec fn has_context(info: CachedInfoView) -> bool {
    &&& info.context_node_rows is Some
    &&& info.context_node_bytes is Some
    &&& info.context_node_kind is Some
    &&& info.context_node_is_test is Some
}

/// The rows of the context node.
pub open spec fn context_rows(info: CachedInfoView) -> (nat, nat) {
    info.context_node_rows->0
}

/// The bytes of the context node.
pub open spec fn context_bytes(info: CachedInfoView) -> (nat, nat) {
    info.context_node_bytes->0
}

/// The record names a context node that may be shown: any context when tests
/// are allowed, otherwise one that is not test code.
pub open spec fn context_usable(info: CachedInfoView, allow_tests: bool) -> bool {
    has_context(info) && (allow_tests || !info.context_node_is_test->0)
}

/// A comment merged with the declaration it documents: the union of both
/// ranges, under the declaration's kind.
pub open spec fn merged_block(info: CachedInfoView) -> BlockView {
    BlockView {
        start_row: min_nat(info.start_row, context_rows(info).0),
        end_row: max_nat(info.end_row, context_rows(info).1),
        start_byte: min_nat(info.start_byte, context_bytes(info).0),
        end_byte: max_nat(info.end_byte, context_bytes(info).1),
        node_type: info.context_node_kind->0,
        parent_node_type: None,
        parent_start_row: None,
        parent_end_row: None,
    }
}

/// The block of the context node, with the enclosing declaration the record carries.
pub open spec fn context_block(info: CachedInfoView) -> BlockView {
    BlockView {
        start_row: context_rows(info).0,
        end_row: context_rows(info).1,
        start_byte: context_bytes(info).0,
        end_byte: context_bytes(info).1,
        node_type: info.context_node_kind->0,
        parent_node_type: info.parent_node_type,
        parent_start_row: info.parent_start_row,
        parent_end_row: info.parent_end_row,
    }
}

/// The block of the recorded node itself, with the enclosing declaration the record carries.
pub open spec fn own_block(info: CachedInfoView) -> BlockView {
    BlockView {
        start_row: info.start_row,
        end_row: info.end_row,
        start_byte: info.start_byte,
        end_byte: info.end_byte,
        node_type: info.node_kind,
        parent_node_type: info.parent_node_type,
        parent_start_row: info.parent_start_row,
        parent_end_row: info.parent_end_row,
    }
}

/// The block of a node taken as it is, with no enclosing declaration: a
/// comment that stands alone, or a node that forms no block and has no context.
pub open spec fn bare_block(info: CachedInfoView) -> BlockView {
    BlockView {
        start_row: info.start_row,
        end_row: info.end_row,
        start_byte: info.start_byte,
        end_byte: info.end_byte,
        node_type: info.node_kind,
        parent_node_type: None,
        parent_start_row: None,
        parent_end_row: None,
    }
}

/// The block that a record proposes for its line, if any.
///
/// A comment with a usable context proposes the merged block, any other comment
/// itself. A test node proposes nothing while tests are excluded, and neither
/// does a node whose context is test code: what lies inside a test is not
/// shown in its place. Any other node proposes its context; without a
/// context, itself with its enclosing declaration if it forms a block, and
/// itself as it is if it does not.
pub open spec fn candidate(info: CachedInfoView, allow_tests: bool) -> Option<BlockView> {
    if info.is_comment {
        if context_usable(info, allow_tests) {
            Some(merged_block(info))
        } else {
            Some(bare_block(info))
        }
    } else if info.is_test && !allow_tests {
        None
    } else if context_usable(info, allow_tests) {
        Some(context_block(info))
    } else if has_context(info) {
        None
    } else if info.original_node_is_acceptable {
        Some(own_block(info))
    } else {
        Some(bare_block(info))
    }
}

/// The test status of the node that a record's proposal stands for: the context
/// where it is usable, the recorded node otherwise.
pub open spec fn representative_is_test(info: CachedInfoView, allow_tests: bool) -> bool {
    if context_usable(info, allow_tests) {
        info.context_node_is_test->0
    } else {
        info.is_test
    }
}

/// The value of an optional block.
pub open spec fn opt_block_view(b: Option<CodeBlock>) -> Option<BlockView> {
    match b {
        Some(block) => Some(block@),
        None => None,
    }
}

fn min_usize(a: usize, b: usize) -> (r: usize)
    ensures
        r as nat == min_nat(a as nat, b as nat),
{
    if a <= b {
        a
    } else {
        b
    }
}

fn max_usize(a: usize, b: usize) -> (r: usize)
    ensures
        r as nat == max_nat(a as nat, b as nat),
{
    if a >= b {
        a
    } else {
        b
    }
}

/// Builds the block of the recorded node itself; `with_parent` says whether the
/// enclosing declaration is reported.
fn block_of_node(info: &CachedNodeInfo, with_parent: bool) -> (block: CodeBlock)
    ensures
        block@ == if with_parent {
            own_block(info@)
        } else {
            bare_block(info@)
        },
{
    CodeBlock {
        start_row: info.start_row,
        end_row: info.end_row,
        start_byte: info.start_byte,
        end_byte: info.end_byte,
        node_type: info.node_kind.clone(),
        parent_node_type: if with_parent {
            clone_opt_string(&info.parent_node_type)
        } else {
            None
        },
        parent_start_row: if with_parent {
            info.parent_start_row
        } else {
            None
        },
        parent_end_row: if with_parent {
            info.parent_end_row
        } else {
            None
        },
    }
}

/// Builds the block of the context node, merged with the recorded comment where
/// `merged` is set.
fn block_of_context(info: &CachedNodeInfo, merged: bool) -> (block: CodeBlock)
    requires
        has_context(info@),
    ensures
        block@ == if merged {
            merged_block(info@)
        } else {
            context_block(info@)
        },
{
    let rows = info.context_node_rows.unwrap();
    let bytes = info.context_node_bytes.unwrap();
    let kind = match &info.context_node_kind {
        Some(k) => k.clone(),
        None => String::new(),
    };
    if merged {
        CodeBlock {
            start_row: min_usize(info.start_row, rows.0),
            end_row: max_usize(info.end_row, rows.1),
            start_byte: min_usize(info.start_byte, bytes.0),
            end_byte: max_usize(info.end_byte, bytes.1),
            node_type: kind,
            parent_node_type: None,
            parent_start_row: None,
            parent_end_row: None,
        }
    } else {
        CodeBlock {
            start_row: rows.0,
            end_row: rows.1,
            start_byte: bytes.0,
            end_byte: bytes.1,
            node_type: kind,
            parent_node_type: clone_opt_string(&info.parent_node_type),
            parent_start_row: info.parent_start_row,
            parent_end_row: info.parent_end_row,
        }
    }
}

/// Tests whether the record names a context node in full.
pub fn has_full_context(info: &CachedNodeInfo) -> (r: bool)
    ensures
        r == has_context(info@),
{
    info.context_node_rows.is_some() && info.context_node_bytes.is_some()
        && info.context_node_kind.is_some() && info.context_node_is_test.is_some()
}

/// Tests whether the record names a context node that may be shown.
pub fn is_context_usable(info: &CachedNodeInfo, allow_tests: bool) -> (r: bool)
    ensures
        r == context_usable(info@, allow_tests),
{
    match (
        info.context_node_rows,
        info.context_node_bytes,
        &info.context_node_kind,
        info.context_node_is_test,
    ) {
        (Some(_), Some(_), Some(_), Some(is_test)) => allow_tests || !is_test,
        _ => false,
    }
}

/// Computes the block that a record proposes for its line.
pub fn candidate_block(info: &CachedNodeInfo, allow_tests: bool) -> (r: Option<CodeBlock>)
    ensures
        opt_block_view(r) == candidate(info@, allow_tests),
{
    let usable = is_context_usable(info, allow_tests);
    if info.is_comment {
        if usable {
            Some(block_of_context(info, true))
        } else {
            Some(block_of_node(info, false))
        }
    } else if info.is_test && !allow_tests {
        None
    } else if usable {
        Some(block_of_context(info, false))
    } else if has_full_context(info) {
        None
    } else {
        Some(block_of_node(info, info.original_node_is_acceptable))
    }
}

/// Two blocks cover the same rows.
pub open spec fn same_span(a: BlockView, b: BlockView) -> bool {
    a.start_row == b.start_row && a.end_row == b.end_row
}

/// A proposal of kind `incoming` displaces an emitted block of kind `existing`
/// with the same span: the higher place in the priority table wins and a tie keeps
/// the emitted block; where neither kind is in the table, the kind that sorts
/// first as a string wins.
pub open spec fn outranks(incoming: Seq<char>, existing: Seq<char>) -> bool {
    if priority_of(incoming) is Some || priority_of(existing) is Some {
        rank(incoming) > rank(existing)
    } else {
        lex_less(bytes_of(incoming), bytes_of(existing))
    }
}

/// Of an emitted block and a proposal with the same span, the kind that stays
/// is the one that wins among the two kinds, the emitted kind first.
pub proof fn lemma_outranks_is_priority_choice(existing: Seq<char>, incoming: Seq<char>)
    ensures
        is_priority_choice(
            seq![existing, incoming],
            if outranks(incoming, existing) {
                incoming
            } else {
                existing
            },
        ),
{
    let kinds = seq![existing, incoming];
    let choice = if outranks(incoming, existing) {
        incoming
    } else {
        existing
    };
    assert(kinds[0] == existing && kinds[1] == incoming);
    assert(kinds.contains(choice));
    if priority_of(incoming) is Some || priority_of(existing) is Some {
        if priority_of(existing) is Some {
            assert(priority_of(kinds[0]) is Some);
        } else {
            assert(priority_of(kinds[1]) is Some);
        }
    } else {
        lemma_lex_irreflexive(bytes_of(existing));
        lemma_lex_irreflexive(bytes_of(incoming));
        lemma_lex_total(bytes_of(existing), bytes_of(incoming));
        if bytes_of(existing) == bytes_of(incoming) {
            lemma_bytes_of_injective(existing, incoming);
        }
        if lex_less(bytes_of(incoming), bytes_of(existing)) && lex_less(
            bytes_of(existing),
            bytes_of(incoming),
        ) {
            crate::text::lemma_lex_transitive(
                bytes_of(incoming),
                bytes_of(existing),
                bytes_of(incoming),
            );
        }
        assert forall|j: int| 0 <= j < kinds.len() implies !lex_less(
            bytes_of(#[trigger] kinds[j]),
            bytes_of(choice),
        ) by {}
        assert forall|j: int| 0 <= j < kinds.len() implies priority_of(#[trigger] kinds[j])
            is None by {}
    }
}

/// Decides whether a proposal displaces an emitted block with the same span.
pub fn kind_outranks(incoming: &str, existing: &str) -> (r: bool)
    ensures
        r == outranks(incoming@, existing@),
{
    match (node_type_priority(incoming), node_type_priority(existing)) {
        (Some(a), Some(b)) => a > b,
        (Some(_), None) => true,
        (None, Some(_)) => false,
        (None, None) => bytes_less(incoming.as_bytes(), existing.as_bytes()),
    }
}

/// The index, at or after `from`, of the first block with the span of `c`; the
/// length of the list if there is none.
pub open spec fn first_same_span(blocks: Seq<BlockView>, c: BlockView, from: int) -> int
    decreases blocks.len() - from,
{
    if from < 0 || from >= blocks.len() {
        blocks.len() as int
    } else if same_span(blocks[from], c) {
        from
    } else {
        first_same_span(blocks, c, from + 1)
    }
}

/// What `first_same_span` returns is the least index of a block with that span.
pub proof fn lemma_first_same_span(blocks: Seq<BlockView>, c: BlockView, from: int)
    requires
        0 <= from <= blocks.len(),
    ensures
        from <= first_same_span(blocks, c, from) <= blocks.len(),
        first_same_span(blocks, c, from) < blocks.len() ==> same_span(
            blocks[first_same_span(blocks, c, from)],
            c,
        ),
        forall|j: int|
            from <= j < first_same_span(blocks, c, from) ==> !same_span(#[trigger] blocks[j], c),
    decreases blocks.len() - from,
{
    if from < blocks.len() && !same_span(blocks[from], c) {
        lemma_first_same_span(blocks, c, from + 1);
    }
}

/// The emitted blocks after one more proposal: a proposal with a new span is
/// appended; one whose span is taken replaces the block that holds it if it
/// outranks that block, and is dropped otherwise.
pub open spec fn emit(blocks: Seq<BlockView>, c: BlockView) -> Seq<BlockView> {
    let i = first_same_span(blocks, c, 0);
    if i < blocks.len() {
        if outranks(c.node_type, blocks[i].node_type) {
            blocks.update(i, c)
        } else {
            blocks
        }
    } else {
        blocks.push(c)
    }
}

/// No two blocks of the list cover the same rows.
pub open spec fn distinct_spans(blocks: Seq<BlockView>) -> bool {
    forall|i: int, j: int|
        0 <= i < j < blocks.len() ==> !same_span(#[trigger] blocks[i], #[trigger] blocks[j])
}

/// Emission keeps spans distinct, and afterwards exactly one block holds the
/// span of the proposal.
pub proof fn lemma_emit_distinct(blocks: Seq<BlockView>, c: BlockView)
    requires
        distinct_spans(blocks),
    ensures
        distinct_spans(emit(blocks, c)),
        emit(blocks, c).len() >= blocks.len(),
        exists|i: int|
            0 <= i < emit(blocks, c).len() && same_span(#[trigger] emit(blocks, c)[i], c),
{
    lemma_first_same_span(blocks, c, 0);
    let i = first_same_span(blocks, c, 0);
    let e = emit(blocks, c);
    if i < blocks.len() {
        assert(same_span(e[i], c));
    } else {
        assert(same_span(e[blocks.len() as int], c));
    }
}

/// Adds one proposal to the emitted blocks.
pub fn emit_block(blocks: &mut Vec<CodeBlock>, block: CodeBlock)
    ensures
        blocks_view(final(blocks)@) == emit(blocks_view(old(blocks)@), block@),
{
    let ghost before = blocks_view(blocks@);
    let mut i: usize = 0;
    while i < blocks.len()
        invariant
            i <= blocks.len(),
            blocks@ == old(blocks)@,
            before == blocks_view(blocks@),
            first_same_span(before, block@, 0) == first_same_span(before, block@, i as int),
        decreases blocks.len() - i,
    {
        assert(before[i as int] == blocks@[i as int]@);
        if blocks[i].start_row == block.start_row && blocks[i].end_row == block.end_row {
            if kind_outranks(block.node_type.as_str(), blocks[i].node_type.as_str()) {
                let ghost b = block@;
                blocks.set(i, block);
                assert(blocks_view(blocks@) =~= before.update(i as int, b));
            }
            return ;
        }
        i += 1;
    }
    let ghost b = block@;
    blocks.push(block);
    assert(blocks_view(blocks@) =~= before.push(b));
}

} // verus!
