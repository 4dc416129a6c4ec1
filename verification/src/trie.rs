//! A set of strings stored as a prefix tree.
//!
//! Every node owns a table with one slot per byte value; a token is stored
//! along the path spelled by its UTF-8 bytes, and the node at the end of the
//! path carries a flag saying that a token stops there. Insertion and lookup
//! cost one table access per byte, whatever the number of tokens stored.

use vstd::prelude::*;
use vstd::utf8::*;

verus! {

/// Marks an unused slot in a node's child table. Index 0 is the root, which
/// is nobody's child, so the value is free to carry this meaning.
pub const NO_CHILD: usize = 0;

/// One node of the tree.
pub struct TrieNode {
    /// True when the bytes that lead from the root to this node are a stored token.
    pub is_word: bool,
    /// For every byte value, the index of the node that continues the path,
    /// or `NO_CHILD`.
    pub children: [usize; 256],
}

impl TrieNode {
    /// A node without children.
    pub fn new(is_word: bool) -> (node: TrieNode)
        ensures
            node.is_word == is_word,
            forall|b: int| 0 <= b < 256 ==> node.children[b] == NO_CHILD,
    {
        TrieNode { is_word, children: [NO_CHILD;256] }
    }
}

/// The slot for byte `b` in node `n`.
spec fn child_of(nodes: Seq<TrieNode>, n: int, b: u8) -> usize {
    nodes[n].children[b as int]
}

/// The node reached from the root along `path`, if no step meets an unused slot.
spec fn walk(nodes: Seq<TrieNode>, path: Seq<u8>) -> Option<int>
    decreases path.len(),
{
    if path.len() == 0 {
        Some(0)
    } else {
        match walk(nodes, path.drop_last()) {
            Some(n) => {
                let c = child_of(nodes, n, path.last());
                if c == NO_CHILD {
                    None
                } else {
                    Some(c as int)
                }
            },
            None => None,
        }
    }
}

/// True when `path` leads from the root to a node that ends a token.
spec fn accepts(nodes: Seq<TrieNode>, path: Seq<u8>) -> bool {
    match walk(nodes, path) {
        Some(n) => nodes[n].is_word,
        None => false,
    }
}

/// Every used slot points at a node of the table whose label is the
/// parent's label followed by the slot's byte, and the root's label is empty.
spec fn labelled(nodes: Seq<TrieNode>, labels: Seq<Seq<u8>>) -> bool {
    &&& nodes.len() >= 1
    &&& labels.len() == nodes.len()
    &&& labels[0] == Seq::<u8>::empty()
    &&& forall|n: int, b: u8|
        0 <= n < nodes.len() && #[trigger] child_of(nodes, n, b) != NO_CHILD ==> {
            &&& child_of(nodes, n, b) < nodes.len()
            &&& labels[child_of(nodes, n, b) as int] == labels[n].push(b)
        }
}

/// A walk ends at the one node that is labelled with the path walked.
proof fn lemma_walk_label(nodes: Seq<TrieNode>, labels: Seq<Seq<u8>>, path: Seq<u8>)
    requires
        labelled(nodes, labels),
    ensures
        walk(nodes, path) matches Some(n) ==> 0 <= n < nodes.len() && labels[n] == path,
    decreases path.len(),
{
    if path.len() > 0 {
        lemma_walk_label(nodes, labels, path.drop_last());
        if let Some(m) = walk(nodes, path.drop_last()) {
            let c = child_of(nodes, m, path.last());
            if c != NO_CHILD {
                assert(path.drop_last().push(path.last()) =~= path);
            }
        }
    }
}

/// Every used slot points at a node of the table.
spec fn labelled_slots_in_range(nodes: Seq<TrieNode>) -> bool {
    &&& nodes.len() >= 1
    &&& forall|n: int, b: u8|
        0 <= n < nodes.len() && #[trigger] child_of(nodes, n, b) != NO_CHILD ==> child_of(
            nodes,
            n,
            b,
        ) < nodes.len()
}

/// Flags do not steer a walk: tables with the same slots give the same walks.
proof fn lemma_walk_same_slots(a: Seq<TrieNode>, b: Seq<TrieNode>, path: Seq<u8>)
    requires
        a.len() == b.len(),
        forall|n: int| 0 <= n < a.len() ==> (#[trigger] a[n]).children == b[n].children,
        labelled_slots_in_range(a),
    ensures
        walk(a, path) == walk(b, path),
        walk(a, path) matches Some(n) ==> 0 <= n < a.len(),
    decreases path.len(),
{
    if path.len() > 0 {
        lemma_walk_same_slots(a, b, path.drop_last());
        if let Some(m) = walk(a, path.drop_last()) {
            assert(a[m].children == b[m].children);
            let c = child_of(a, m, path.last());
            assert(c == child_of(b, m, path.last()));
        }
    }
}

/// What a walk finds after a fresh, childless node was appended to the table
/// and hung into the unused slot `byte` of node `parent`: the old result where
/// there was one, the fresh node for the path that ends with the new step, and
/// nothing otherwise.
proof fn lemma_walk_after_link(
    old_nodes: Seq<TrieNode>,
    new_nodes: Seq<TrieNode>,
    labels: Seq<Seq<u8>>,
    parent: int,
    byte: u8,
    path: Seq<u8>,
)
    requires
        labelled(old_nodes, labels),
        0 <= parent < old_nodes.len(),
        walk(old_nodes, labels[parent]) == Some(parent),
        child_of(old_nodes, parent, byte) == NO_CHILD,
        new_nodes.len() == old_nodes.len() + 1,
        forall|b: u8| child_of(new_nodes, old_nodes.len() as int, b) == NO_CHILD,
        child_of(new_nodes, parent, byte) == old_nodes.len(),
        forall|n: int, b: u8|
            0 <= n < old_nodes.len() && !(n == parent && b == byte) ==> #[trigger] child_of(
                new_nodes,
                n,
                b,
            ) == child_of(old_nodes, n, b),
    ensures
        walk(new_nodes, path) == match walk(old_nodes, path) {
            Some(n) => Some(n),
            None => if path == labels[parent].push(byte) {
                Some(old_nodes.len() as int)
            } else {
                None
            },
        },
    decreases path.len(),
{
    let grown = labels[parent].push(byte);
    assert(grown.drop_last() =~= labels[parent]);
    assert(grown.last() == byte);
    if path.len() > 0 {
        let front = path.drop_last();
        let last = path.last();
        lemma_walk_after_link(old_nodes, new_nodes, labels, parent, byte, front);
        lemma_walk_label(old_nodes, labels, front);
        assert(front.push(last) =~= path);
        match walk(old_nodes, front) {
            Some(m) => {
                assert(walk(new_nodes, front) == Some(m));
                if m == parent && last == byte {
                    assert(path =~= grown);
                } else {
                    assert(child_of(new_nodes, m, last) == child_of(old_nodes, m, last));
                }
            },
            None => {
                if front == grown {
                    assert(walk(new_nodes, front) == Some(old_nodes.len() as int));
                    assert(child_of(new_nodes, old_nodes.len() as int, last) == NO_CHILD);
                    assert(path.len() == grown.len() + 1);
                } else {
                    assert(walk(new_nodes, front) is None);
                }
            },
        }
    }
}

/// Appends a childless node to the table and returns its index.
fn get_new_node(nodes: &mut Vec<TrieNode>, is_word: bool) -> (index: usize)
    requires
        old(nodes)@.len() >= 1,
    ensures
        index == old(nodes)@.len(),
        index != NO_CHILD,
        final(nodes)@ == old(nodes)@.push(final(nodes)@[index as int]),
        final(nodes)@[index as int].is_word == is_word,
        forall|b: u8| child_of(final(nodes)@, index as int, b) == NO_CHILD,
{
    nodes.push(TrieNode::new(is_word));
    nodes.len() - 1
}

/// Makes `bytes` a path that ends a token, with new nodes where the table
/// has none for it, and returns the labels of the table as it then is.
fn insert_path(nodes: &mut Vec<TrieNode>, Ghost(labels): Ghost<Seq<Seq<u8>>>, bytes: &[u8]) -> (now:
    Ghost<Seq<Seq<u8>>>)
    requires
        labelled(old(nodes)@, labels),
    ensures
        labelled(final(nodes)@, now@),
        forall|path: Seq<u8>|
            accepts(final(nodes)@, path) == (accepts(old(nodes)@, path) || path == bytes@),
        old(nodes)@.len() <= final(nodes)@.len() <= old(nodes)@.len() + bytes@.len(),
        accepts(old(nodes)@, bytes@) ==> final(nodes)@.len() == old(nodes)@.len(),
{
    let ghost before = nodes@;
    let ghost mut labels = labels;
    let mut node_index: usize = 0;
    let mut i: usize = 0;
    while i < bytes.len()
        invariant
            0 <= i <= bytes@.len(),
            labelled(nodes@, labels),
            walk(nodes@, bytes@.take(i as int)) == Some(node_index as int),
            0 <= node_index < nodes@.len(),
            forall|path: Seq<u8>| accepts(nodes@, path) == accepts(before, path),
            before.len() <= nodes@.len() <= before.len() + i,
            accepts(before, bytes@) ==> nodes@ == before,
        decreases bytes@.len() - i,
    {
        let byte: u8 = bytes[i];
        let ghost prefix = bytes@.take(i as int);
        let ghost longer = bytes@.take(i as int + 1);
        proof {
            assert(longer.drop_last() =~= prefix);
            assert(longer.last() == byte);
            lemma_walk_label(nodes@, labels, prefix);
        }
        let mut child_index: usize = nodes[node_index].children[byte as usize];
        if child_index == NO_CHILD {
            proof {
                // A token that is stored has its whole path in the table.
                if accepts(before, bytes@) {
                    assert(walk(nodes@, longer) is None);
                    lemma_walk_dead_end(nodes@, bytes@, i as int + 1);
                }
            }
            let ghost mid = nodes@;
            let ghost mid_labels = labels;
            child_index = get_new_node(nodes, false);
            let ghost grown = nodes@;
            nodes[node_index].children[byte as usize] = child_index;
            proof {
                labels = mid_labels.push(prefix.push(byte));
                let now = nodes@;
                assert(now[mid.len() as int] == grown[mid.len() as int]);
                assert forall|b: u8| child_of(now, mid.len() as int, b) == NO_CHILD by {
                    assert(child_of(grown, mid.len() as int, b) == NO_CHILD);
                }
                assert forall|n: int, b: u8|
                    0 <= n < mid.len() && !(n == node_index && b == byte) implies #[trigger] child_of(
                    now,
                    n,
                    b,
                ) == child_of(mid, n, b) by {}
                assert(child_of(now, node_index as int, byte) == mid.len());
                assert forall|path: Seq<u8>| accepts(now, path) == accepts(mid, path) by {
                    lemma_walk_after_link(mid, now, mid_labels, node_index as int, byte, path);
                    lemma_walk_label(mid, mid_labels, path);
                }
                lemma_walk_after_link(mid, now, mid_labels, node_index as int, byte, longer);
                assert(longer =~= prefix.push(byte));
                assert forall|n: int, b: u8|
                    0 <= n < now.len() && #[trigger] child_of(now, n, b) != NO_CHILD implies {
                    &&& child_of(now, n, b) < now.len()
                    &&& labels[child_of(now, n, b) as int] == labels[n].push(b)
                } by {
                    if n == node_index && b == byte {
                    } else if n < mid.len() {
                        assert(child_of(now, n, b) == child_of(mid, n, b));
                    }
                }
            }
        }
        node_index = child_index;
        i = i + 1;
    }
    let ghost mid = nodes@;
    nodes[node_index].is_word = true;
    proof {
        let now = nodes@;
        let all = bytes@;
        assert(all.take(all.len() as int) =~= all);
        assert forall|n: int, b: u8| 0 <= n < mid.len() implies child_of(now, n, b) == child_of(
            mid,
            n,
            b,
        ) by {}
        assert forall|path: Seq<u8>| accepts(now, path) == (accepts(before, path) || path
            == all) by {
            lemma_walk_same_slots(mid, now, path);
            lemma_walk_label(mid, labels, path);
            lemma_walk_label(mid, labels, all);
        }
    }
    Ghost(labels)
}

/// True when `bytes` is a path that ends a token.
fn is_accepted(nodes: &Vec<TrieNode>, Ghost(labels): Ghost<Seq<Seq<u8>>>, bytes: &[u8]) -> (found:
    bool)
    requires
        labelled(nodes@, labels),
    ensures
        found == accepts(nodes@, bytes@),
{
    let mut node_index: usize = 0;
    let mut i: usize = 0;
    while i < bytes.len()
        invariant
            0 <= i <= bytes@.len(),
            labelled(nodes@, labels),
            walk(nodes@, bytes@.take(i as int)) == Some(node_index as int),
            0 <= node_index < nodes@.len(),
        decreases bytes@.len() - i,
    {
        let byte: u8 = bytes[i];
        proof {
            assert(bytes@.take(i as int + 1).drop_last() =~= bytes@.take(i as int));
        }
        let child_index: usize = nodes[node_index].children[byte as usize];
        if child_index == NO_CHILD {
            proof {
                assert(walk(nodes@, bytes@.take(i as int + 1)) is None);
                lemma_walk_dead_end(nodes@, bytes@, i as int + 1);
            }
            return false;
        }
        node_index = child_index;
        i = i + 1;
    }
    proof {
        assert(bytes@.take(bytes@.len() as int) =~= bytes@);
    }
    nodes[node_index].is_word
}

/// A set of strings with insertion and exact lookup.
pub struct Trie {
    nodes: Vec<TrieNode>,
    labels: Ghost<Seq<Seq<u8>>>,
}

impl View for Trie {
    type V = Set<Seq<char>>;

    /// The strings stored.
    closed spec fn view(&self) -> Set<Seq<char>> {
        Set::new(
            |token: Seq<char>| self.nodes@.len() > 0 && accepts(self.nodes@, encode_utf8(token)),
        )
    }
}

impl Trie {
    /// The node table is a tree rooted at index 0, or holds no node at all,
    /// as it does while the set is being changed.
    #[verifier::type_invariant]
    spec fn wf(self) -> bool {
        self.nodes@.len() == 0 || labelled(self.nodes@, self.labels@)
    }

    /// The number of nodes in the table. The root is one of them once the
    /// table was made.
    pub closed spec fn node_count(&self) -> nat {
        self.nodes@.len()
    }

    /// An empty set: a table that holds the root and nothing else.
    pub fn new() -> (trie: Trie)
        ensures
            trie@ == Set::<Seq<char>>::empty(),
            trie.node_count() == 1,
    {
        let mut nodes: Vec<TrieNode> = Vec::new();
        nodes.push(TrieNode::new(false));
        let trie = Trie { nodes, labels: Ghost(Seq::<Seq<u8>>::empty().push(Seq::<u8>::empty())) };
        proof {
            assert forall|path: Seq<u8>| !accepts(trie.nodes@, path) by {
                lemma_walk_root_only(trie.nodes@, path);
            }
            assert(trie@ =~= Set::<Seq<char>>::empty());
        }
        trie
    }

    /// An empty set that owns no memory, not even a root; it stands in for
    /// a set that is being changed.
    pub(crate) fn hollow() -> (trie: Trie)
        ensures
            trie@ == Set::<Seq<char>>::empty(),
            trie.node_count() == 0,
    {
        let trie = Trie { nodes: Vec::new(), labels: Ghost(Seq::empty()) };
        proof {
            assert(trie@ =~= Set::<Seq<char>>::empty());
        }
        trie
    }

    /// Adds `s` to the set. The table keeps every node it has and holds the
    /// root afterwards. A token that is stored already adds no node; a new
    /// one adds a node for each of its bytes at most, behind the root where
    /// the table had none.
    pub fn insert(&mut self, s: &str)
        ensures
            final(self)@ == old(self)@.insert(s@),
            final(self).node_count() >= 1,
            final(self).node_count() >= old(self).node_count(),
            old(self)@.contains(s@) ==> final(self).node_count() == old(self).node_count(),
            final(self).node_count() <= encode_utf8(s@).len() + if old(self).node_count() == 0 {
                1nat
            } else {
                old(self).node_count()
            },
    {
        proof {
            use_type_invariant(&*self);
        }
        let mut taken = Trie::hollow();
        std::mem::swap(self, &mut taken);
        let Trie { nodes, labels } = taken;
        let mut nodes = nodes;
        let mut labels = labels;
        if nodes.len() == 0 {
            nodes.push(TrieNode::new(false));
            labels = Ghost(Seq::<Seq<u8>>::empty().push(Seq::<u8>::empty()));
            proof {
                assert forall|path: Seq<u8>| !accepts(nodes@, path) by {
                    lemma_walk_root_only(nodes@, path);
                }
            }
        }
        let labels = insert_path(&mut nodes, labels, s.as_bytes());
        *self = Trie { nodes, labels };
        proof {
            assert forall|token: Seq<char>| #[trigger]
                final(self)@.contains(token) == old(self)@.insert(s@).contains(token) by {
                if encode_utf8(token) == encode_utf8(s@) {
                    encode_utf8_decode_utf8(token);
                    encode_utf8_decode_utf8(s@);
                }
            }
            assert(final(self)@ =~= old(self)@.insert(s@));
        }
    }

    /// True when `s` is in the set.
    pub fn contains(&self, s: &str) -> (found: bool)
        ensures
            found == self@.contains(s@),
    {
        proof {
            use_type_invariant(self);
        }
        if self.nodes.len() == 0 {
            false
        } else {
            is_accepted(&self.nodes, self.labels, s.as_bytes())
        }
    }
}

/// A walk in a table that holds nothing but a childless root ends at the
/// root for the empty path and nowhere for any other.
proof fn lemma_walk_root_only(nodes: Seq<TrieNode>, path: Seq<u8>)
    requires
        nodes.len() == 1,
        !nodes[0].is_word,
        forall|b: int| 0 <= b < 256 ==> nodes[0].children[b] == NO_CHILD,
    ensures
        !accepts(nodes, path),
        walk(nodes, path) is Some ==> path.len() == 0,
    decreases path.len(),
{
    if path.len() > 0 {
        lemma_walk_root_only(nodes, path.drop_last());
    }
}

/// Once a prefix of a path walks into an unused slot, so does the whole path.
proof fn lemma_walk_dead_end(nodes: Seq<TrieNode>, path: Seq<u8>, k: int)
    requires
        0 <= k <= path.len(),
        walk(nodes, path.take(k)) is None,
    ensures
        walk(nodes, path) is None,
    decreases path.len() - k,
{
    if k < path.len() {
        assert(path.take(k + 1).drop_last() =~= path.take(k));
        lemma_walk_dead_end(nodes, path, k + 1);
    } else {
        assert(path.take(k) =~= path);
    }
}

/// Adding a token that is already stored changes nothing, and a token that
/// was added is found.
pub proof fn lemma_insert_idempotent(tokens: Set<Seq<char>>, token: Seq<char>)
    ensures
        tokens.insert(token).insert(token) == tokens.insert(token),
        tokens.insert(token).contains(token),
{
    assert(tokens.insert(token).insert(token) =~= tokens.insert(token));
}

} // verus!
