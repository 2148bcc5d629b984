//! The code block that extraction returns, and the per-line record it is read from.

use vstd::prelude::*;

verus! {

/// A contiguous range of source lines with the kind of the syntax node it stands for.
/// Rows are 0-based and inclusive; the byte range is half-open.
#[derive(Debug, PartialEq, Eq)]
pub struct CodeBlock {
    pub start_row: usize,
    pub end_row: usize,
    pub start_byte: usize,
    pub end_byte: usize,
    pub node_type: String,
    pub parent_node_type: Option<String>,
    pub parent_start_row: Option<usize>,
    pub parent_end_row: Option<usize>,
}

/// The value of a `CodeBlock`.
pub struct BlockView {
    pub start_row: nat,
    pub end_row: nat,
    pub start_byte: nat,
    pub end_byte: nat,
    pub node_type: Seq<char>,
    pub parent_node_type: Option<Seq<char>>,
    pub parent_start_row: Option<nat>,
    pub parent_end_row: Option<nat>,
}

/// The value of an optional string.
pub open spec fn opt_str_view(s: Option<String>) -> Option<Seq<char>> {
    match s {
        Some(t) => Some(t@),
        None => None,
    }
}

/// The value of an optional row or byte offset.
pub open spec fn opt_nat_view(n: Option<usize>) -> Option<nat> {
    match n {
        Some(v) => Some(v as nat),
        None => None,
    }
}

/// The value of an optional pair of offsets.
pub open spec fn opt_pair_view(p: Option<(usize, usize)>) -> Option<(nat, nat)> {
    match p {
        Some(v) => Some((v.0 as nat, v.1 as nat)),
        None => None,
    }
}

impl View for CodeBlock {
    type V = BlockView;

    open spec fn view(&self) -> BlockView {
        BlockView {
            start_row: self.start_row as nat,
            end_row: self.end_row as nat,
            start_byte: self.start_byte as nat,
            end_byte: self.end_byte as nat,
            node_type: self.node_type@,
            parent_node_type: opt_str_view(self.parent_node_type),
            parent_start_row: opt_nat_view(self.parent_start_row),
            parent_end_row: opt_nat_view(self.parent_end_row),
        }
    }
}

/// The values of a list of blocks, in order.
pub open spec fn blocks_view(blocks: Seq<CodeBlock>) -> Seq<BlockView> {
    blocks.map_values(|b: CodeBlock| b@)
}

/// Copies an optional string.
pub fn clone_opt_string(s: &Option<String>) -> (r: Option<String>)
    ensures
        opt_str_view(r) == opt_str_view(*s),
{
    match s {
        Some(t) => Some(t.clone()),
        None => None,
    }
}

impl Clone for CodeBlock {
    fn clone(&self) -> (r: Self)
        ensures
            r@ == self@,
    {
        CodeBlock {
            start_row: self.start_row,
            end_row: self.end_row,
            start_byte: self.start_byte,
            end_byte: self.end_byte,
            node_type: self.node_type.clone(),
            parent_node_type: clone_opt_string(&self.parent_node_type),
            parent_start_row: self.parent_start_row,
            parent_end_row: self.parent_end_row,
        }
    }
}

/// What the line map records for one source line, with every reference to the
/// syntax tree replaced by plain ranges and kinds, so that it can outlive the tree.
#[derive(Debug, PartialEq, Eq)]
pub struct CachedNodeInfo {
    pub start_byte: usize,
    pub end_byte: usize,
    pub start_row: usize,
    pub end_row: usize,
    pub node_kind: String,
    pub is_comment: bool,
    pub is_test: bool,
    pub original_node_is_acceptable: bool,
    pub context_node_bytes: Option<(usize, usize)>,
    pub context_node_rows: Option<(usize, usize)>,
    pub context_node_kind: Option<String>,
    pub context_node_is_test: Option<bool>,
    pub parent_node_type: Option<String>,
    pub parent_start_row: Option<usize>,
    pub parent_end_row: Option<usize>,
}

/// The value of a `CachedNodeInfo`.
pub struct CachedInfoView {
    pub start_byte: nat,
    pub end_byte: nat,
    pub start_row: nat,
    pub end_row: nat,
    pub node_kind: Seq<char>,
    pub is_comment: bool,
    pub is_test: bool,
    pub original_node_is_acceptable: bool,
    pub context_node_bytes: Option<(nat, nat)>,
    pub context_node_rows: Option<(nat, nat)>,
    pub context_node_kind: Option<Seq<char>>,
    pub context_node_is_test: Option<bool>,
    pub parent_node_type: Option<Seq<char>>,
    pub parent_start_row: Option<nat>,
    pub parent_end_row: Option<nat>,
}

impl View for CachedNodeInfo {
    type V = CachedInfoView;

    open spec fn view(&self) -> CachedInfoView {
        CachedInfoView {
            start_byte: self.start_byte as nat,
            end_byte: self.end_byte as nat,
            start_row: self.start_row as nat,
            end_row: self.end_row as nat,
            node_kind: self.node_kind@,
            is_comment: self.is_comment,
            is_test: self.is_test,
            original_node_is_acceptable: self.original_node_is_acceptable,
            context_node_bytes: opt_pair_view(self.context_node_bytes),
            context_node_rows: opt_pair_view(self.context_node_rows),
            context_node_kind: opt_str_view(self.context_node_kind),
            context_node_is_test: self.context_node_is_test,
            parent_node_type: opt_str_view(self.parent_node_type),
            parent_start_row: opt_nat_view(self.parent_start_row),
            parent_end_row: opt_nat_view(self.parent_end_row),
        }
    }
}

impl Clone for CachedNodeInfo {
    fn clone(&self) -> (r: Self)
        ensures
            r@ == self@,
    {
        CachedNodeInfo {
            start_byte: self.start_byte,
            end_byte: self.end_byte,
            start_row: self.start_row,
            end_row: self.end_row,
            node_kind: self.node_kind.clone(),
            is_comment: self.is_comment,
            is_test: self.is_test,
            original_node_is_acceptable: self.original_node_is_acceptable,
            context_node_bytes: self.context_node_bytes,
            context_node_rows: self.context_node_rows,
            context_node_kind: clone_opt_string(&self.context_node_kind),
            context_node_is_test: self.context_node_is_test,
            parent_node_type: clone_opt_string(&self.parent_node_type),
            parent_start_row: self.parent_start_row,
            parent_end_row: self.parent_end_row,
        }
    }
}

/// The value of one entry of a line map.
pub open spec fn entry_view(e: Option<CachedNodeInfo>) -> Option<CachedInfoView> {
    match e {
        Some(info) => Some(info@),
        None => None,
    }
}

/// The value of a line map: one optional record per line.
pub open spec fn line_map_view(map: Seq<Option<CachedNodeInfo>>) -> Seq<Option<CachedInfoView>> {
    map.map_values(|e: Option<CachedNodeInfo>| entry_view(e))
}

} // verus!
