//! The search result that is handed on for ranking and output.

use vstd::prelude::*;
use vstd::string::StringExecFns;
use crate::language::kind_listed;
use crate::language::kinds_contain;
use crate::text::str_eq;
use crate::text::strings_view;
use crate::block::opt_str_view;

verus! {

/// One result of a search in a file: a range of lines with its code.
#[derive(Debug, PartialEq, Eq)]
pub struct SearchResult {
    pub file: String,
    /// The first and the last line, counted from 1.
    pub lines: (usize, usize),
    pub node_type: String,
    pub code: String,
    pub matched_by_filename: Option<bool>,
    pub rank: Option<usize>,
    pub tfidf_rank: Option<usize>,
    pub bm25_rank: Option<usize>,
    pub file_unique_terms: Option<usize>,
    pub file_total_matches: Option<usize>,
    pub file_match_rank: Option<usize>,
    pub block_unique_terms: Option<usize>,
    pub block_total_matches: Option<usize>,
    /// The file that the result belongs to.
    pub parent_file_id: Option<String>,
    /// The place of the result among the results of its file.
    pub block_id: Option<usize>,
}

/// The value of a `SearchResult`.
pub struct ResultView {
    pub file: Seq<char>,
    pub lines: (usize, usize),
    pub node_type: Seq<char>,
    pub code: Seq<char>,
    pub matched_by_filename: Option<bool>,
    pub rank: Option<usize>,
    pub tfidf_rank: Option<usize>,
    pub bm25_rank: Option<usize>,
    pub file_unique_terms: Option<usize>,
    pub file_total_matches: Option<usize>,
    pub file_match_rank: Option<usize>,
    pub block_unique_terms: Option<usize>,
    pub block_total_matches: Option<usize>,
    pub parent_file_id: Option<Seq<char>>,
    pub block_id: Option<usize>,
}

impl View for SearchResult {
    type V = ResultView;

    open spec fn view(&self) -> ResultView {
        ResultView {
            file: self.file@,
            lines: self.lines,
            node_type: self.node_type@,
            code: self.code@,
            matched_by_filename: self.matched_by_filename,
            rank: self.rank,
            tfidf_rank: self.tfidf_rank,
            bm25_rank: self.bm25_rank,
            file_unique_terms: self.file_unique_terms,
            file_total_matches: self.file_total_matches,
            file_match_rank: self.file_match_rank,
            block_unique_terms: self.block_unique_terms,
            block_total_matches: self.block_total_matches,
            parent_file_id: opt_str_view(self.parent_file_id),
            block_id: self.block_id,
        }
    }
}

/// The values of a list of results.
pub open spec fn results_view(results: Seq<SearchResult>) -> Seq<ResultView> {
    results.map_values(|r: SearchResult| r@)
}

/// A result with nothing known of it but its file, lines, kind and code.
pub open spec fn plain_result(
    file: Seq<char>,
    lines: (usize, usize),
    node_type: Seq<char>,
    code: Seq<char>,
) -> ResultView {
    ResultView {
        file,
        lines,
        node_type,
        code,
        matched_by_filename: None,
        rank: None,
        tfidf_rank: None,
        bm25_rank: None,
        file_unique_terms: None,
        file_total_matches: None,
        file_match_rank: None,
        block_unique_terms: None,
        block_total_matches: None,
        parent_file_id: None,
        block_id: None,
    }
}

impl SearchResult {
    /// Makes a result with nothing known of it but its file, lines, kind and code.
    pub fn plain(file: &str, lines: (usize, usize), node_type: &str, code: String) -> (r:
        SearchResult)
        ensures
            r@ == plain_result(file@, lines, node_type@, code@),
    {
        SearchResult {
            file: file.to_owned(),
            lines,
            node_type: node_type.to_owned(),
            code,
            matched_by_filename: None,
            rank: None,
            tfidf_rank: None,
            bm25_rank: None,
            file_unique_terms: None,
            file_total_matches: None,
            file_match_rank: None,
            block_unique_terms: None,
            block_total_matches: None,
            parent_file_id: None,
            block_id: None,
        }
    }
}

/// The lines from index `from` up to index `to`, joined by line feeds.
pub open spec fn joined(lines: Seq<Seq<char>>, from: int, to: int) -> Seq<char>
    decreases to - from,
{
    if from < 0 || from >= to || to > lines.len() {
        Seq::empty()
    } else if to - from == 1 {
        lines[from]
    } else {
        joined(lines, from, to - 1) + "\n"@ + lines[to - 1]
    }
}

/// Joins the lines from index `from` up to index `to` by line feeds.
pub fn join_lines(lines: &Vec<String>, from: usize, to: usize) -> (text: String)
    ensures
        text@ == joined(strings_view(lines@), from as int, to as int),
{
    let ghost texts = strings_view(lines@);
    let mut text = String::new();
    if from >= to || to > lines.len() {
        return text;
    }
    text.append(lines[from].as_str());
    assert(texts[from as int] == lines@[from as int]@);
    let mut i: usize = from + 1;
    while i < to
        invariant
            from < i <= to <= lines@.len(),
            texts == strings_view(lines@),
            text@ == joined(texts, from as int, i as int),
        decreases to - i,
    {
        assert(texts[i as int] == lines@[i as int]@);
        text.append("\n");
        text.append(lines[i].as_str());
        i += 1;
    }
    text
}

/// The term at index `k` is not among the terms before it.
pub open spec fn first_occurrence(terms: Seq<String>, k: int) -> bool {
    forall|j: int| 0 <= j < k ==> (#[trigger] terms[j])@ != terms[k]@
}

/// The number of terms among the first `n` terms of a block that are query terms.
pub open spec fn total_matches(block_terms: Seq<String>, query_terms: Seq<String>, n: int) -> nat
    decreases n,
{
    if n <= 0 || n > block_terms.len() {
        0
    } else {
        total_matches(block_terms, query_terms, n - 1) + if kinds_contain(
            query_terms,
            block_terms[n - 1]@,
        ) {
            1nat
        } else {
            0nat
        }
    }
}

/// The number of different terms among the first `n` terms of a block that
/// are query terms.
pub open spec fn unique_matches(block_terms: Seq<String>, query_terms: Seq<String>, n: int) -> nat
    decreases n,
{
    if n <= 0 || n > block_terms.len() {
        0
    } else {
        unique_matches(block_terms, query_terms, n - 1) + if kinds_contain(
            query_terms,
            block_terms[n - 1]@,
        ) && first_occurrence(block_terms, n - 1) {
            1nat
        } else {
            0nat
        }
    }
}

/// Tests whether a term occurs before index `k`.
fn occurs_before(terms: &Vec<String>, k: usize) -> (r: bool)
    requires
        k < terms@.len(),
    ensures
        r == !first_occurrence(terms@, k as int),
{
    let mut j: usize = 0;
    while j < k
        invariant
            j <= k < terms@.len(),
            forall|q: int| 0 <= q < j ==> (#[trigger] terms@[q])@ != terms@[k as int]@,
        decreases k - j,
    {
        if str_eq(terms[j].as_str(), terms[k].as_str()) {
            return true;
        }
        j += 1;
    }
    false
}

/// Counts the query terms among the terms of a block: how many different
/// ones there are, and how many occurrences.
pub fn count_term_matches(block_terms: &Vec<String>, query_terms: &Vec<String>) -> (counts: (
    usize,
    usize,
))
    ensures
        counts.0 == unique_matches(block_terms@, query_terms@, block_terms@.len() as int),
        counts.1 == total_matches(block_terms@, query_terms@, block_terms@.len() as int),
{
    let mut unique: usize = 0;
    let mut total: usize = 0;
    let mut i: usize = 0;
    while i < block_terms.len()
        invariant
            i <= block_terms@.len(),
            unique <= i,
            total <= i,
            unique == unique_matches(block_terms@, query_terms@, i as int),
            total == total_matches(block_terms@, query_terms@, i as int),
        decreases block_terms@.len() - i,
    {
        if kind_listed(query_terms, block_terms[i].as_str()) {
            total += 1;
            if !occurs_before(block_terms, i) {
                unique += 1;
            }
        }
        i += 1;
    }
    (unique, total)
}

/// The result with the counts of the query terms in its code. A result that
/// stands for a block carries the counts for its file as well; a window of
/// lines does not.
pub open spec fn counted(r: ResultView, counts: (usize, usize)) -> ResultView {
    if r.node_type == "context"@ {
        ResultView {
            block_unique_terms: Some(counts.0),
            block_total_matches: Some(counts.1),
            ..r
        }
    } else {
        ResultView {
            file_unique_terms: Some(counts.0),
            file_total_matches: Some(counts.1),
            block_unique_terms: Some(counts.0),
            block_total_matches: Some(counts.1),
            ..r
        }
    }
}

impl SearchResult {
    /// Records the counts of the query terms among the terms of the result's code.
    pub fn with_term_statistics(
        self,
        block_terms: &Vec<String>,
        query_terms: &Vec<String>,
    ) -> (r: SearchResult)
        ensures
            r@ == counted(
                self@,
                (
                    unique_matches(block_terms@, query_terms@, block_terms@.len() as int) as usize,
                    total_matches(block_terms@, query_terms@, block_terms@.len() as int) as usize,
                ),
            ),
    {
        let counts = count_term_matches(block_terms, query_terms);
        let mut r = self;
        if !str_eq(r.node_type.as_str(), "context") {
            r.file_unique_terms = Some(counts.0);
            r.file_total_matches = Some(counts.1);
        }
        r.block_unique_terms = Some(counts.0);
        r.block_total_matches = Some(counts.1);
        r
    }
}

} // verus!
