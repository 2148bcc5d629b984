//! The cache of syntax trees, keyed by a name for the file, with the hash of
//! the content that each tree was parsed from.

use vstd::prelude::*;
use vstd::string::StringExecFns;
use crate::error::ExtractError;
use crate::hash::calculate_content_hash;
use crate::hash::fnv1a;
use crate::language::Grammar;
use crate::parsing::parse_source;
use crate::parsing::parsed_tree;
use crate::positions::tree_fits;
use crate::positions::tree_matches_source;
use crate::text::bytes_of;
use crate::text::str_eq;
use crate::tree::SyntaxNode;
use crate::tree::SyntaxTree;

verus! {

/// One entry of the tree cache.
pub struct TreeEntry {
    pub key: String,
    /// The hash of the content that the tree was parsed from.
    pub content_hash: u64,
    pub tree: SyntaxTree,
}

/// A cache of syntax trees: at most one tree for each key.
pub struct TreeCache {
    pub entries: Vec<TreeEntry>,
}

/// The index of the entry with the key, or the number of entries if there is none.
pub open spec fn entry_index(entries: Seq<TreeEntry>, key: Seq<char>, from: int) -> int
    decreases entries.len() - from,
{
    if from < 0 || from >= entries.len() {
        entries.len() as int
    } else if entries[from].key@ == key {
        from
    } else {
        entry_index(entries, key, from + 1)
    }
}

/// What `entry_index` gives is the first entry with the key.
pub proof fn lemma_entry_index(entries: Seq<TreeEntry>, key: Seq<char>, from: int)
    requires
        0 <= from <= entries.len(),
    ensures
        from <= entry_index(entries, key, from) <= entries.len(),
        entry_index(entries, key, from) < entries.len() ==> entries[entry_index(
            entries,
            key,
            from,
        )].key@ == key,
        forall|j: int|
            from <= j < entry_index(entries, key, from) ==> (#[trigger] entries[j]).key@ != key,
    decreases entries.len() - from,
{
    if from < entries.len() && entries[from].key@ != key {
        lemma_entry_index(entries, key, from + 1);
    }
}

/// The hash and the nodes that the entries hold for each key.
pub open spec fn contents_of(entries: Seq<TreeEntry>) -> Map<Seq<char>, (u64, Seq<SyntaxNode>)> {
    Map::new(
        |key: Seq<char>| entry_index(entries, key, 0) < entries.len(),
        |key: Seq<char>|
            (
                entries[entry_index(entries, key, 0)].content_hash,
                entries[entry_index(entries, key, 0)].tree.nodes@,
            ),
    )
}

/// The contents of a cache that holds no tree.
pub open spec fn no_trees() -> Map<Seq<char>, (u64, Seq<SyntaxNode>)> {
    Map::empty()
}

impl View for TreeCache {
    type V = Map<Seq<char>, (u64, Seq<SyntaxNode>)>;

    open spec fn view(&self) -> Self::V {
        contents_of(self.entries@)
    }
}

impl TreeCache {
    /// No key occurs twice, and every tree is well formed.
    pub open spec fn wf(&self) -> bool {
        &&& forall|i: int, j: int|
            0 <= i < j < self.entries@.len() ==> (#[trigger] self.entries@[i]).key@ != (
            #[trigger] self.entries@[j]).key@
        &&& forall|i: int| 0 <= i < self.entries@.len() ==> (#[trigger] self.entries@[i]).tree.wf()
    }

    /// A cache that holds no tree.
    pub fn new() -> (cache: TreeCache)
        ensures
            cache@ == no_trees(),
            cache.wf(),
    {
        let cache = TreeCache { entries: Vec::new() };
        assert(cache@ =~= no_trees());
        cache
    }

    /// Finds the entry with a key.
    fn find(&self, key: &str) -> (i: usize)
        ensures
            i == entry_index(self.entries@, key@, 0),
            i <= self.entries@.len(),
    {
        let mut i: usize = 0;
        while i < self.entries.len()
            invariant
                i <= self.entries@.len(),
                entry_index(self.entries@, key@, 0) == entry_index(self.entries@, key@, i as int),
            decreases self.entries@.len() - i,
        {
            if str_eq(self.entries[i].key.as_str(), key) {
                return i;
            }
            i += 1;
        }
        i
    }

    /// Looks up the tree stored under a key, with the hash of its content.
    pub fn get(&self, key: &str) -> (found: Option<(u64, SyntaxTree)>)
        requires
            self.wf(),
        ensures
            match found {
                Some(entry) => self@.contains_key(key@) && self@[key@] == (entry.0, entry.1.nodes@)
                    && entry.1.wf(),
                None => !self@.contains_key(key@),
            },
    {
        let i = self.find(key);
        if i < self.entries.len() {
            let entry = &self.entries[i];
            let tree = entry.tree.clone();
            assert(entry.tree.wf());
            assert(tree.wf());
            Some((entry.content_hash, tree))
        } else {
            None
        }
    }

    /// Stores a tree under a key, with the hash of its content, in place of
    /// what the key held before.
    pub fn insert(&mut self, key: &str, content_hash: u64, tree: SyntaxTree)
        requires
            old(self).wf(),
            tree.wf(),
        ensures
            final(self).wf(),
            final(self)@ == old(self)@.insert(key@, (content_hash, tree.nodes@)),
    {
        let ghost before = self.entries@;
        let ghost nodes = tree.nodes@;
        let i = self.find(key);
        proof {
            lemma_entry_index(before, key@, 0);
        }
        let entry = TreeEntry { key: key.to_owned(), content_hash, tree };
        if i < self.entries.len() {
            self.entries.set(i, entry);
        } else {
            self.entries.push(entry);
        }
        proof {
            let after = self.entries@;
            assert forall|k: Seq<char>|
                #![trigger contents_of(after).contains_key(k)]
                #![trigger contents_of(after)[k]]
                contents_of(after).contains_key(k) == contents_of(before).insert(
                    key@,
                    (content_hash, nodes),
                ).contains_key(k) && (contents_of(after).contains_key(k) ==> contents_of(after)[k]
                    == contents_of(before).insert(key@, (content_hash, nodes))[k]) by {
                lemma_index_after_store(before, after, key@, i as int, k);
                lemma_entry_index(before, k, 0);
                assert(after[i as int].content_hash == content_hash);
                assert(after[i as int].tree.nodes@ == nodes);
                let b = entry_index(before, k, 0);
                if k != key@ && b < before.len() {
                    assert(b != i);
                    assert(after[b] == before[b]);
                }
            }
            assert(contents_of(after) =~= contents_of(before).insert(key@, (content_hash, nodes)));
            assert forall|x: int, y: int| 0 <= x < y < after.len() implies (#[trigger] after[x]).key@
                != (#[trigger] after[y]).key@ by {
                if x != i && y != i {
                    assert(after[x] == before[x] && after[y] == before[y]);
                } else if x == i {
                    assert(after[y] == before[y]);
                } else {
                    assert(after[x] == before[x]);
                }
            }
            assert forall|x: int| 0 <= x < after.len() implies (#[trigger] after[x]).tree.wf() by {
                if x != i {
                    assert(after[x] == before[x]);
                }
            }
        }
    }
}

/// Where the entry of a key is after a tree was stored under `key`: at `i`
/// for `key` itself, and where it was for any other key.
proof fn lemma_index_after_store(
    before: Seq<TreeEntry>,
    after: Seq<TreeEntry>,
    key: Seq<char>,
    i: int,
    k: Seq<char>,
)
    requires
        i == entry_index(before, key, 0),
        0 <= i <= before.len(),
        after.len() == if i < before.len() {
            before.len()
        } else {
            before.len() + 1
        },
        after[i].key@ == key,
        forall|j: int| 0 <= j < before.len() && j != i ==> #[trigger] after[j] == before[j],
    ensures
        entry_index(after, k, 0) == if k == key {
            i
        } else if entry_index(before, k, 0) < before.len() {
            entry_index(before, k, 0)
        } else {
            after.len() as int
        },
{
    lemma_entry_index(before, key, 0);
    lemma_entry_index(before, k, 0);
    lemma_entry_index(after, k, 0);
    let a = entry_index(after, k, 0);
    let b = entry_index(before, k, 0);
    if k == key {
        if a > i {
            assert(after[i].key@ != k);
        } else if a < i {
            assert(after[a] == before[a]);
            assert(before[a].key@ != key);
        }
    } else if b < before.len() {
        assert(b != i);
        assert(after[b] == before[b]);
        if a > b {
            assert(after[b].key@ != k);
        } else if a < b {
            if a != i {
                assert(after[a] == before[a]);
                assert(before[a].key@ != k);
            }
        }
    } else {
        if a < after.len() {
            if a != i {
                assert(after[a] == before[a]);
                assert(before[a].key@ != k);
            }
        }
    }
}

/// The cache answers for the content: it holds, under the key, a tree with
/// the hash of the content whose rows are the rows of its byte offsets in the content.
pub open spec fn answers(
    contents: Map<Seq<char>, (u64, Seq<SyntaxNode>)>,
    key: Seq<char>,
    content: Seq<char>,
) -> bool {
    &&& contents.contains_key(key)
    &&& contents[key].0 == fnv1a(bytes_of(content))
    &&& tree_fits(bytes_of(content), contents[key].1)
}

/// The tree that a content is given under a key: the tree that the cache
/// holds for it, or else the tree that the parser gives.
pub open spec fn cached_or_parsed(
    contents: Map<Seq<char>, (u64, Seq<SyntaxNode>)>,
    key: Seq<char>,
    content: Seq<char>,
    grammar: Grammar,
) -> Option<Seq<SyntaxNode>> {
    if answers(contents, key, content) {
        Some(contents[key].1)
    } else {
        parsed_tree(grammar, content)
    }
}

/// Gives the syntax tree of a content: the tree that the cache holds for it,
/// or, if the cache does not answer for the content, the tree that the parser
/// gives, which is then stored under the key. The content is parsed only if
/// the cache does not answer for it.
pub fn get_or_parse_tree(cache: &mut TreeCache, key: &str, content: &str, grammar: Grammar) -> (r:
    Result<SyntaxTree, ExtractError>)
    requires
        old(cache).wf(),
    ensures
        final(cache).wf(),
        match r {
            Ok(tree) => {
                &&& cached_or_parsed(old(cache)@, key@, content@, grammar) == Some(tree.nodes@)
                &&& tree.wf()
                &&& tree_fits(bytes_of(content@), tree.nodes@)
                &&& final(cache)@ == old(cache)@.insert(
                    key@,
                    (fnv1a(bytes_of(content@)), tree.nodes@),
                )
            },
            Err(e) => e == ExtractError::ParseFailure && cached_or_parsed(
                old(cache)@,
                key@,
                content@,
                grammar,
            ) is None && final(cache)@ == old(cache)@,
        },
{
    let content_hash = calculate_content_hash(content);
    match cache.get(key) {
        Some(entry) => {
            if entry.0 == content_hash && tree_matches_source(&entry.1, content.as_bytes()) {
                assert(cache@ =~= cache@.insert(key@, (content_hash, entry.1.nodes@)));
                return Ok(entry.1);
            }
        },
        None => {},
    }
    match parse_source(content, grammar) {
        Ok(tree) => {
            cache.insert(key, content_hash, tree.clone());
            Ok(tree)
        },
        Err(e) => Err(e),
    }
}

/// The key of the tree cache for the files of an extension.
pub open spec fn tree_key(extension: Seq<char>) -> Seq<char> {
    "file_"@ + extension
}

/// Makes the key of the tree cache for the files of an extension.
pub fn tree_key_for(extension: &str) -> (key: String)
    ensures
        key@ == tree_key(extension@),
{
    let mut key = "file_".to_owned();
    key.append(extension);
    key
}

} // verus!
