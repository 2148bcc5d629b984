//! The languages the library knows: for each, the grammar that parses it and
//! the rules that say which nodes form blocks, which are test code and which
//! enclose a nested type.

use vstd::prelude::*;
use vstd::slice::slice_subrange;
use crate::priority::is_nested_type;
use crate::priority::is_nested_type_kind;
use crate::text::bytes_contain;
use crate::text::bytes_eq;
use crate::text::bytes_of;
use crate::text::bytes_start_with;
use crate::text::contains_bytes;
use crate::text::starts_with_bytes;
use crate::text::str_eq;
use crate::tree::SyntaxNode;
use crate::tree::SyntaxTree;
use crate::tree::is_prev_sibling;
use crate::tree::parent_of;

verus! {

/// The grammars that can parse a file.
#[derive(Clone, Copy, Debug, PartialEq, Eq, Structural)]
pub enum Grammar {
    Rust,
    JavaScript,
    Python,
    Go,
}

/// How the text of a node is held against the text of a rule.
#[derive(Clone, Copy, Debug, PartialEq, Eq, Structural)]
pub enum TextMatch {
    /// The node's text begins with the rule's text.
    Prefix,
    /// The node's text is the rule's text.
    Exact,
    /// The rule's text occurs in the node's text.
    Contains,
}

/// Where a rule looks for the node whose text it reads.
#[derive(Clone, Copy, Debug, PartialEq, Eq, Structural)]
pub enum Place {
    /// Among the children of the node in question.
    Child,
    /// At the sibling just before the node in question.
    PrecedingSibling,
}

/// One way to recognise test code: a node of kind `holder_kind` is test code
/// if a node of kind `part_kind` at `place` has a text that matches `text`.
pub struct TestRule {
    pub holder_kind: String,
    pub part_kind: String,
    pub place: Place,
    pub how: TextMatch,
    pub text: String,
}

/// The rules of one language.
pub struct LanguageImpl {
    /// The grammar that parses the language.
    pub grammar: Grammar,
    /// The kinds of the nodes that form blocks.
    pub acceptable_kinds: Vec<String>,
    /// The kinds of the declarations that are reported as enclosing a nested type.
    pub enclosing_kinds: Vec<String>,
    /// The ways to recognise test code.
    pub test_rules: Vec<TestRule>,
}

/// The value of a rule for test code.
pub struct RuleView {
    pub holder_kind: Seq<char>,
    pub part_kind: Seq<char>,
    pub place: Place,
    pub how: TextMatch,
    pub text: Seq<char>,
}

impl View for TestRule {
    type V = RuleView;

    open spec fn view(&self) -> RuleView {
        RuleView {
            holder_kind: self.holder_kind@,
            part_kind: self.part_kind@,
            place: self.place,
            how: self.how,
            text: self.text@,
        }
    }
}

/// The kinds that a list of strings names.
pub open spec fn kinds_view(kinds: Seq<String>) -> Seq<Seq<char>> {
    kinds.map_values(|k: String| k@)
}

/// The values of a list of rules.
pub open spec fn rules_view(rules: Seq<TestRule>) -> Seq<RuleView> {
    rules.map_values(|r: TestRule| r@)
}

/// The value of the rules of a language.
pub struct LanguageView {
    pub acceptable_kinds: Seq<Seq<char>>,
    pub enclosing_kinds: Seq<Seq<char>>,
    pub test_rules: Seq<RuleView>,
}

impl View for LanguageImpl {
    type V = LanguageView;

    open spec fn view(&self) -> LanguageView {
        LanguageView {
            acceptable_kinds: kinds_view(self.acceptable_kinds@),
            enclosing_kinds: kinds_view(self.enclosing_kinds@),
            test_rules: rules_view(self.test_rules@),
        }
    }
}

/// What the rules of a language say of one node.
#[derive(Clone, Copy, Debug, PartialEq, Eq, Structural)]
pub struct NodeFacts {
    /// The node forms a block.
    pub acceptable: bool,
    /// The node is test code.
    pub is_test: bool,
    /// For a nested type, the nearest declaration that encloses it.
    pub enclosing: Option<usize>,
}

/// The kind is one of the listed kinds.
pub open spec fn kinds_contain(kinds: Seq<String>, kind: Seq<char>) -> bool {
    exists|k: int| 0 <= k < kinds.len() && (#[trigger] kinds[k])@ == kind
}

/// The name is one of the listed names.
pub open spec fn names_contain(names: Seq<Seq<char>>, name: Seq<char>) -> bool {
    exists|k: int| 0 <= k < names.len() && #[trigger] names[k] == name
}

/// A kind is listed among strings just if it is listed among their values.
pub proof fn lemma_kinds_contain(kinds: Seq<String>, kind: Seq<char>)
    ensures
        kinds_contain(kinds, kind) == names_contain(kinds_view(kinds), kind),
{
    let names = kinds_view(kinds);
    if kinds_contain(kinds, kind) {
        let k = choose|k: int| 0 <= k < kinds.len() && (#[trigger] kinds[k])@ == kind;
        assert(names[k] == kind);
    }
    if names_contain(names, kind) {
        let k = choose|k: int| 0 <= k < names.len() && #[trigger] names[k] == kind;
        assert(kinds[k]@ == kind);
    }
}

/// The text of a node: the bytes of its range, if the range lies in the source.
pub open spec fn text_of(source: Seq<u8>, node: SyntaxNode) -> Option<Seq<u8>> {
    if node.start_byte <= node.end_byte <= source.len() {
        Some(source.subrange(node.start_byte as int, node.end_byte as int))
    } else {
        None
    }
}

/// The text matches the pattern in the given way.
pub open spec fn text_matches(how: TextMatch, text: Seq<u8>, pattern: Seq<u8>) -> bool {
    match how {
        TextMatch::Prefix => starts_with_bytes(text, pattern),
        TextMatch::Exact => text == pattern,
        TextMatch::Contains => contains_bytes(text, pattern),
    }
}

/// Node `j` is what the rule looks for: it has the rule's part kind and a text
/// that matches.
pub open spec fn part_matches(
    rule: RuleView,
    nodes: Seq<SyntaxNode>,
    source: Seq<u8>,
    j: int,
) -> bool {
    &&& nodes[j].kind@ == rule.part_kind
    &&& text_of(source, nodes[j]) is Some
    &&& text_matches(rule.how, text_of(source, nodes[j])->0, bytes_of(rule.text))
}

/// Node `j` is a child of node `i` that the rule looks for.
pub open spec fn child_matches(
    rule: RuleView,
    nodes: Seq<SyntaxNode>,
    source: Seq<u8>,
    i: int,
    j: int,
) -> bool {
    &&& i < j < nodes[i].subtree_end
    &&& nodes[j].parent == Some(i as usize)
    &&& part_matches(rule, nodes, source, j)
}

/// The rule recognises node `i` as test code.
pub open spec fn rule_matches(
    rule: RuleView,
    nodes: Seq<SyntaxNode>,
    source: Seq<u8>,
    i: int,
) -> bool {
    &&& nodes[i].kind@ == rule.holder_kind
    &&& match rule.place {
        Place::Child => exists|j: int| child_matches(rule, nodes, source, i, j),
        Place::PrecedingSibling => exists|s: int|
            is_prev_sibling(nodes, s, i) && part_matches(rule, nodes, source, s),
    }
}

impl LanguageView {
    /// A node of this kind forms a block.
    pub open spec fn accepts(&self, kind: Seq<char>) -> bool {
        names_contain(self.acceptable_kinds, kind)
    }

    /// A node of this kind is reported as enclosing a nested type.
    pub open spec fn encloses(&self, kind: Seq<char>) -> bool {
        names_contain(self.enclosing_kinds, kind)
    }

    /// Node `i` is test code: some rule recognises it.
    pub open spec fn tests(&self, nodes: Seq<SyntaxNode>, source: Seq<u8>, i: int) -> bool {
        exists|r: int|
            0 <= r < self.test_rules.len() && rule_matches(
                #[trigger] self.test_rules[r],
                nodes,
                source,
                i,
            )
    }

    /// The nearest ancestor of node `i` whose kind is an enclosing kind.
    pub open spec fn nearest_enclosing(&self, nodes: Seq<SyntaxNode>, i: int) -> Option<usize>
        decreases i,
    {
        if 0 < i < nodes.len() {
            let p = parent_of(nodes, i);
            if 0 <= p < i {
                if self.encloses(nodes[p].kind@) {
                    Some(p as usize)
                } else {
                    self.nearest_enclosing(nodes, p)
                }
            } else {
                None
            }
        } else {
            None
        }
    }

    /// The declaration reported with node `i`: for a nested type, the nearest
    /// ancestor of an enclosing kind; for any other node, none.
    pub open spec fn enclosing_of(&self, nodes: Seq<SyntaxNode>, i: int) -> Option<usize> {
        if is_nested_type_kind(nodes[i].kind@) {
            self.nearest_enclosing(nodes, i)
        } else {
            None
        }
    }

    /// What the rules say of node `i`.
    pub open spec fn facts_of(&self, nodes: Seq<SyntaxNode>, source: Seq<u8>, i: int) -> NodeFacts {
        NodeFacts {
            acceptable: self.accepts(nodes[i].kind@),
            is_test: self.tests(nodes, source, i),
            enclosing: self.enclosing_of(nodes, i),
        }
    }

    /// What the rules say of every node of a tree.
    pub open spec fn all_facts(&self, nodes: Seq<SyntaxNode>, source: Seq<u8>) -> Seq<NodeFacts> {
        Seq::new(nodes.len(), |i: int| self.facts_of(nodes, source, i))
    }
}

impl LanguageImpl {
    /// Tests whether a node of this kind forms a block.
    pub fn is_acceptable_parent(&self, kind: &str) -> (r: bool)
        ensures
            r == self@.accepts(kind@),
    {
        proof {
            lemma_kinds_contain(self.acceptable_kinds@, kind@);
        }
        kind_listed(&self.acceptable_kinds, kind)
    }

    /// Tests whether a node is test code.
    pub fn is_test_node(&self, tree: &SyntaxTree, source: &[u8], i: usize) -> (r: bool)
        requires
            tree.wf(),
            i < tree.nodes@.len(),
        ensures
            r == self@.tests(tree.nodes@, source@, i as int),
    {
        let ghost rules = self@.test_rules;
        let mut r: usize = 0;
        while r < self.test_rules.len()
            invariant
                r <= self.test_rules@.len(),
                rules == self@.test_rules,
                rules.len() == self.test_rules@.len(),
                tree.wf(),
                i < tree.nodes@.len(),
                forall|q: int|
                    0 <= q < r ==> !rule_matches(#[trigger] rules[q], tree.nodes@, source@, i as int),
            decreases self.test_rules@.len() - r,
        {
            assert(rules[r as int] == self.test_rules@[r as int]@);
            if rule_applies(&self.test_rules[r], tree, source, i) {
                return true;
            }
            r += 1;
        }
        false
    }

    /// Finds the declaration that is reported with a node.
    pub fn find_parent_function(&self, tree: &SyntaxTree, i: usize) -> (r: Option<usize>)
        requires
            tree.wf(),
            i < tree.nodes@.len(),
        ensures
            r == self@.enclosing_of(tree.nodes@, i as int),
            r is Some ==> r->0 < i,
    {
        if !is_nested_type(tree.nodes[i].kind.as_str()) {
            return None;
        }
        let mut cur: usize = i;
        loop
            invariant
                tree.wf(),
                cur <= i < tree.nodes@.len(),
                is_nested_type_kind(tree.nodes@[i as int].kind@),
                self@.nearest_enclosing(tree.nodes@, i as int) == self@.nearest_enclosing(
                    tree.nodes@,
                    cur as int,
                ),
            decreases cur,
        {
            match tree.parent(cur) {
                None => {
                    return None;
                },
                Some(p) => {
                    assert(parent_of(tree.nodes@, cur as int) == p);
                    proof {
                        lemma_kinds_contain(self.enclosing_kinds@, tree.nodes@[p as int].kind@);
                    }
                    if kind_listed(&self.enclosing_kinds, tree.nodes[p].kind.as_str()) {
                        return Some(p);
                    }
                    cur = p;
                },
            }
        }
    }

    /// Works out what the rules say of every node of a tree.
    pub fn classify(&self, tree: &SyntaxTree, source: &[u8]) -> (facts: Vec<NodeFacts>)
        requires
            tree.wf(),
        ensures
            facts@ == self@.all_facts(tree.nodes@, source@),
            forall|i: int|
                0 <= i < facts@.len() && (#[trigger] facts@[i]).enclosing is Some
                    ==> facts@[i].enclosing->0 < i,
    {
        let mut facts: Vec<NodeFacts> = Vec::new();
        let mut i: usize = 0;
        while i < tree.nodes.len()
            invariant
                tree.wf(),
                i <= tree.nodes@.len(),
                facts@.len() == i,
                forall|k: int|
                    0 <= k < i ==> #[trigger] facts@[k] == self@.facts_of(tree.nodes@, source@, k),
                forall|k: int|
                    0 <= k < i && (#[trigger] facts@[k]).enclosing is Some ==> facts@[k].enclosing->0
                        < k,
            decreases tree.nodes@.len() - i,
        {
            let f = NodeFacts {
                acceptable: self.is_acceptable_parent(tree.nodes[i].kind.as_str()),
                is_test: self.is_test_node(tree, source, i),
                enclosing: self.find_parent_function(tree, i),
            };
            facts.push(f);
            i += 1;
        }
        assert(facts@ =~= self@.all_facts(tree.nodes@, source@));
        facts
    }
}

/// Tests whether a kind is one of the listed kinds.
pub fn kind_listed(kinds: &Vec<String>, kind: &str) -> (r: bool)
    ensures
        r == kinds_contain(kinds@, kind@),
{
    let mut k: usize = 0;
    while k < kinds.len()
        invariant
            k <= kinds@.len(),
            forall|q: int| 0 <= q < k ==> (#[trigger] kinds@[q])@ != kind@,
        decreases kinds@.len() - k,
    {
        if str_eq(kinds[k].as_str(), kind) {
            return true;
        }
        k += 1;
    }
    false
}

/// Tests whether a node is what a rule looks for.
fn part_applies(rule: &TestRule, tree: &SyntaxTree, source: &[u8], j: usize) -> (r: bool)
    requires
        j < tree.nodes@.len(),
    ensures
        r == part_matches(rule@, tree.nodes@, source@, j as int),
{
    let node = &tree.nodes[j];
    if !str_eq(node.kind.as_str(), rule.part_kind.as_str()) {
        return false;
    }
    if !(node.start_byte <= node.end_byte && node.end_byte <= source.len()) {
        return false;
    }
    let text = slice_subrange(source, node.start_byte, node.end_byte);
    let pattern = rule.text.as_str().as_bytes();
    match rule.how {
        TextMatch::Prefix => bytes_start_with(text, pattern),
        TextMatch::Exact => bytes_eq(text, pattern),
        TextMatch::Contains => bytes_contain(text, pattern),
    }
}

/// Tests whether a rule recognises a node as test code.
fn rule_applies(rule: &TestRule, tree: &SyntaxTree, source: &[u8], i: usize) -> (r: bool)
    requires
        tree.wf(),
        i < tree.nodes@.len(),
    ensures
        r == rule_matches(rule@, tree.nodes@, source@, i as int),
{
    if !str_eq(tree.nodes[i].kind.as_str(), rule.holder_kind.as_str()) {
        return false;
    }
    match rule.place {
        Place::Child => {
            let end = tree.subtree_end(i);
            let mut j: usize = i + 1;
            while j < end
                invariant
                    i < j <= end,
                    rule.place == Place::Child,
                    tree.nodes@[i as int].kind@ == rule@.holder_kind,
                    end == tree.nodes@[i as int].subtree_end,
                    end <= tree.nodes@.len(),
                    forall|q: int| i < q < j ==> !child_matches(rule@, tree.nodes@, source@, i as int, q),
                decreases end - j,
            {
                if tree.nodes[j].parent == Some(i) && part_applies(rule, tree, source, j) {
                    assert(child_matches(rule@, tree.nodes@, source@, i as int, j as int));
                    return true;
                }
                j += 1;
            }
            false
        },
        Place::PrecedingSibling => {
            match tree.prev_sibling(i) {
                Some(s) => {
                    let r = part_applies(rule, tree, source, s);
                    proof {
                        if !r {
                            assert forall|t: int|
                                !(is_prev_sibling(tree.nodes@, t, i as int) && part_matches(
                                    rule@,
                                    tree.nodes@,
                                    source@,
                                    t,
                                )) by {
                                if is_prev_sibling(tree.nodes@, t, i as int) {
                                    crate::tree::lemma_prev_sibling_unique(
                                        tree.nodes@,
                                        s as int,
                                        t,
                                        i as int,
                                    );
                                }
                            }
                        }
                    }
                    r
                },
                None => false,
            }
        },
    }
}

} // verus!
