//! The arguments of an associative-commutative node kept in a tree map: each distinct argument
//! with its multiplicity, under a numeric key.
use vstd::prelude::*;
use std::collections::BTreeMap;
use vstd::std_specs::btree::{increasing_seq, key_obeys_cmp_spec};
use vstd::std_specs::iter::IteratorSpec;
use vstd::std_specs::cmp::OrdSpec;
use crate::dag_compare::dags_equal;
use crate::dag_node::{DagHeap, Signature, heap_wf, hash_at};
use crate::term::{Term, TermStore, store_wf, thash_at};
use crate::dag_node::DagNode;
use crate::symbol::SymbolMembers;
use crate::term_compare::{term_dag_arguments_equal, term_dag_equal};

verus! {

/// An argument held in the tree: a DAG node and how many times it occurs.
#[derive(Copy, Clone, Debug)]
pub struct RedBlackNode {
    pub dag_node: usize,
    pub multiplicity: u32,
    pub flags: u8,
}

impl RedBlackNode {
    /// The node for `dag_node` occurring `multiplicity` times, with no flags.
    pub fn new(dag_node: usize, multiplicity: u32) -> (r: RedBlackNode)
        ensures
            r == (RedBlackNode { dag_node, multiplicity, flags: 0 }),
    {
        RedBlackNode { dag_node, multiplicity, flags: 0 }
    }
}

/// An argument of an associative-commutative node with its multiplicity.
#[derive(Copy, Clone, Debug)]
pub struct DagPair {
    pub dag_node: usize,
    pub multiplicity: u32,
}

/// `BTreeMap::first_key_value`: the entry with the least key, or `None` when the map is empty.
#[verifier::external_body]
fn first_entry(m: &BTreeMap<i32, RedBlackNode>) -> (r: Option<(i32, RedBlackNode)>)
    ensures
        match r {
            None => m@ == Map::<i32, RedBlackNode>::empty(),
            Some(e) => {
                &&& m@.contains_key(e.0)
                &&& m@[e.0] == e.1
                &&& forall|k: i32| #[trigger] m@.contains_key(k) ==> e.0 <= k
            },
        },
{
    m.first_key_value().map(|(k, v)| (*k, *v))
}

/// The key under which the arguments with a top symbol of hash `h` are looked up.
pub open spec fn key_of_hash(h: u32) -> i32 {
    h as i32
}

fn hash_key(h: u32) -> (r: i32)
    ensures
        r == key_of_hash(h),
{
    h as i32
}

/// Every entry of the tree holds a node of a heap of `len` nodes.
pub open spec fn tree_in_heap(m: Map<i32, RedBlackNode>, len: nat) -> bool {
    forall|k: i32| #[trigger] m.contains_key(k) ==> m[k].dag_node < len
}

/// The pair for an entry of the tree.
pub open spec fn pair_of(n: RedBlackNode) -> DagPair {
    DagPair { dag_node: n.dag_node, multiplicity: n.multiplicity }
}

/// `ks` lists the keys of `m` in increasing order.
pub open spec fn key_order(m: Map<i32, RedBlackNode>, ks: Seq<i32>) -> bool {
    &&& forall|i: int, j: int| 0 <= i < j < ks.len() ==> #[trigger] ks[i] < #[trigger] ks[j]
    &&& ks.to_set() == m.dom()
}

/// The entry under the hash of the top symbol of node `key`, if its node equals `key`.
pub open spec fn found_node(sig: Seq<SymbolMembers>, heap: Seq<DagNode>, m: Map<i32, RedBlackNode>, key: usize) -> Option<RedBlackNode> {
    let k = key_of_hash(hash_at(sig, heap, key));
    if m.contains_key(k) && dags_equal(sig, heap, key, m[k].dag_node) {
        Some(m[k])
    } else {
        None
    }
}

/// A node just inserted is found: inserting `d` and then looking `d` up gives the entry of
/// `d` with multiplicity 1.
pub proof fn lemma_insert_then_find(sig: Seq<SymbolMembers>, heap: Seq<DagNode>, m: Map<i32, RedBlackNode>, d: usize)
    requires
        heap_wf(sig, heap),
        d < heap.len(),
    ensures
        found_node(
            sig,
            heap,
            m.insert(key_of_hash(hash_at(sig, heap, d)), RedBlackNode { dag_node: d, multiplicity: 1, flags: 0 }),
            d,
        ) == Some(RedBlackNode { dag_node: d, multiplicity: 1, flags: 0 }),
{
    crate::dag_compare::lemma_compare_reflexive(sig, heap, d);
}

/// The arguments keyed by the hash of their top symbols; `size` counts the nodes.
pub struct RedBlackTree {
    pub rb_tree: BTreeMap<i32, RedBlackNode>,
    pub size: usize,
}

impl RedBlackTree {
    /// A tree of one node: `root`, `multiplicity` times, under the hash of its top symbol.
    pub fn new(sig: &Signature, heap: &DagHeap, root: usize, multiplicity: u32) -> (r: RedBlackTree)
        requires
            crate::dag_node::in_heap(sig.symbols@, heap.nodes@, root),
        ensures
            r.rb_tree@ == map![
                key_of_hash(hash_at(sig.symbols@, heap.nodes@, root)) => RedBlackNode { dag_node: root, multiplicity, flags: 0 },
            ],
            r.size == 1,
    {
        let key = hash_key(heap.symbol_hash_of(sig, root));
        let node = RedBlackNode::new(root, multiplicity);
        let mut rb_tree: BTreeMap<i32, RedBlackNode> = BTreeMap::new();
        rb_tree.insert(key, node);
        RedBlackTree { rb_tree, size: 1 }
    }

    /// Removes everything.
    pub fn clear(&mut self)
        ensures
            final(self).rb_tree@ == Map::<i32, RedBlackNode>::empty(),
            final(self).size == 0,
    {
        self.rb_tree.clear();
        self.size = 0;
    }

    /// Puts `dag_node` once under the hash of its top symbol, replacing a node of the same
    /// top symbol; a node under a new key adds one to the size (which stops at `usize::MAX`).
    pub fn insert(&mut self, sig: &Signature, heap: &DagHeap, dag_node: usize)
        requires
            crate::dag_node::in_heap(sig.symbols@, heap.nodes@, dag_node),
        ensures
            ({
                let k = key_of_hash(hash_at(sig.symbols@, heap.nodes@, dag_node));
                &&& final(self).rb_tree@ == old(self).rb_tree@.insert(k, RedBlackNode { dag_node, multiplicity: 1, flags: 0 })
                &&& final(self).size == if old(self).rb_tree@.contains_key(k) || old(self).size == usize::MAX {
                    old(self).size
                } else {
                    (old(self).size + 1) as usize
                }
            }),
    {
        let key = hash_key(heap.symbol_hash_of(sig, dag_node));
        let node = RedBlackNode::new(dag_node, 1);
        let present = self.rb_tree.contains_key(&key);
        self.rb_tree.insert(key, node);
        if !present && self.size < usize::MAX {
            self.size = self.size + 1;
        }
    }

    /// The multiplicity of the entry with the least key (the only one when there is one).
    pub fn get_sole_multiplicity(&self) -> (r: u32)
        requires
            self.rb_tree@ != Map::<i32, RedBlackNode>::empty(),
        ensures
            exists|k: i32| {
                &&& #[trigger] self.rb_tree@.contains_key(k)
                &&& self.rb_tree@[k].multiplicity == r
                &&& forall|j: i32| #[trigger] self.rb_tree@.contains_key(j) ==> k <= j
            },
    {
        let e = first_entry(&self.rb_tree);
        match e {
            Some((_, node)) => node.multiplicity,
            None => {
                assert(false);
                0
            },
        }
    }

    /// The DAG node of the entry with the least key (the only one when there is one).
    pub fn get_sole_dag_node(&self) -> (r: usize)
        requires
            self.rb_tree@ != Map::<i32, RedBlackNode>::empty(),
        ensures
            exists|k: i32| {
                &&& #[trigger] self.rb_tree@.contains_key(k)
                &&& self.rb_tree@[k].dag_node == r
                &&& forall|j: i32| #[trigger] self.rb_tree@.contains_key(j) ==> k <= j
            },
    {
        let e = first_entry(&self.rb_tree);
        match e {
            Some((_, node)) => node.dag_node,
            None => {
                assert(false);
                0
            },
        }
    }

    /// The greatest multiplicity in the tree, 0 for an empty tree.
    pub fn max_multiplicity(&self) -> (r: u32)
        ensures
            forall|k: i32| #[trigger] self.rb_tree@.contains_key(k) ==> self.rb_tree@[k].multiplicity <= r,
            r == 0 || exists|k: i32| #[trigger] self.rb_tree@.contains_key(k) && self.rb_tree@[k].multiplicity == r,
    {
        let mut best: u32 = 0;
        let values = self.rb_tree.values();
        let ghost m = self.rb_tree@;
        let ghost rem = IteratorSpec::remaining(&values);
        proof {
            assert(key_obeys_cmp_spec::<i32>());
        }
        let ghost key_seq = choose|ks: Seq<i32>| {
            &&& increasing_seq(ks)
            &&& ks.to_set() == m.dom()
            &&& ks.no_duplicates()
            &&& rem == ks.map(|i: int, k: i32| &m[k])
        };
        for v in it: values
            invariant
                it.seq() == rem,
                forall|i: int| 0 <= i < it.index() ==> (#[trigger] it.seq()[i]).multiplicity <= best,
                best == 0 || exists|i: int| 0 <= i < it.index() && (#[trigger] it.seq()[i]).multiplicity == best,
        {
            if v.multiplicity > best {
                best = v.multiplicity;
            }
        }
        proof {
            assert forall|k: i32| #[trigger] m.contains_key(k) implies m[k].multiplicity <= best by {
                assert(key_seq.to_set().contains(k));
                let j = choose|j: int| 0 <= j < key_seq.len() && key_seq[j] == k;
                assert(rem[j] == &m[k]);
            }
            if best != 0 {
                let i = choose|i: int| 0 <= i < rem.len() && (#[trigger] rem[i]).multiplicity == best;
                assert(key_seq.to_set().contains(key_seq[i]));
                assert(m.contains_key(key_seq[i]));
            }
        }
        best
    }

    /// The entries as argument pairs, in the order of their keys.
    fn pairs(&self) -> (r: Vec<DagPair>)
        ensures
            exists|ks: Seq<i32>| {
                &&& key_order(self.rb_tree@, ks)
                &&& r@ == ks.map(|i: int, k: i32| pair_of(self.rb_tree@[k]))
            },
    {
        let mut pairs: Vec<DagPair> = Vec::new();
        let values = self.rb_tree.values();
        let ghost m = self.rb_tree@;
        let ghost rem = IteratorSpec::remaining(&values);
        proof {
            assert(key_obeys_cmp_spec::<i32>());
        }
        let ghost key_seq = choose|ks: Seq<i32>| {
            &&& increasing_seq(ks)
            &&& ks.to_set() == m.dom()
            &&& ks.no_duplicates()
            &&& rem == ks.map(|i: int, k: i32| &m[k])
        };
        for v in it: values
            invariant
                it.seq() == rem,
                rem == key_seq.map(|i: int, k: i32| &m[k]),
                pairs@.len() == it.index(),
                key_seq.len() == rem.len(),
                forall|i: int| 0 <= i < it.index() ==> #[trigger] pairs@[i] == pair_of(m[key_seq[i]]),
        {
            pairs.push(DagPair { dag_node: v.dag_node, multiplicity: v.multiplicity });
        }
        proof {
            assert forall|i: int, j: int| 0 <= i < j < key_seq.len() implies #[trigger] key_seq[i] < #[trigger] key_seq[j] by {
                assert(key_seq[i].cmp_spec(&key_seq[j]) is Less);
            }
            assert(key_order(m, key_seq));
            assert(pairs@ =~= key_seq.map(|i: int, k: i32| pair_of(m[k])));
        }
        pairs
    }

    /// The entries as argument pairs, in the order of their keys, consuming the tree.
    pub fn vectorize(self) -> (r: Vec<DagPair>)
        ensures
            exists|ks: Seq<i32>| {
                &&& key_order(self.rb_tree@, ks)
                &&& r@ == ks.map(|i: int, k: i32| pair_of(self.rb_tree@[k]))
            },
    {
        self.pairs()
    }

    /// The DAG nodes with their multiplicities, in the order of their keys.
    pub fn iter(&self) -> (r: Vec<(usize, u32)>)
        ensures
            exists|ks: Seq<i32>| {
                &&& key_order(self.rb_tree@, ks)
                &&& r@ == ks.map(|i: int, k: i32| (self.rb_tree@[k].dag_node, self.rb_tree@[k].multiplicity))
            },
    {
        let pairs = self.pairs();
        let ghost ks = choose|ks: Seq<i32>| {
            &&& key_order(self.rb_tree@, ks)
            &&& pairs@ == ks.map(|i: int, k: i32| pair_of(self.rb_tree@[k]))
        };
        let mut out: Vec<(usize, u32)> = Vec::new();
        let mut i: usize = 0;
        while i < pairs.len()
            invariant
                i <= pairs@.len(),
                out@.len() == i,
                forall|j: int| 0 <= j < i ==> #[trigger] out@[j] == (pairs@[j].dag_node, pairs@[j].multiplicity),
            decreases pairs@.len() - i,
        {
            out.push((pairs[i].dag_node, pairs[i].multiplicity));
            i = i + 1;
        }
        assert(out@ =~= ks.map(|i: int, k: i32| (self.rb_tree@[k].dag_node, self.rb_tree@[k].multiplicity)));
        out
    }

    /// The entry under the hash of the top symbol of node `key`, if its node equals `key`.
    pub fn find(&self, sig: &Signature, heap: &DagHeap, key: usize) -> (r: Option<RedBlackNode>)
        requires
            heap_wf(sig.symbols@, heap.nodes@),
            key < heap.nodes@.len(),
            tree_in_heap(self.rb_tree@, heap.nodes@.len()),
        ensures
            r == found_node(sig.symbols@, heap.nodes@, self.rb_tree@, key),
    {
        assert(crate::dag_node::node_wf(sig.symbols@, heap.nodes@[key as int], key as int));
        let k = hash_key(heap.symbol_hash_of(sig, key));
        match self.rb_tree.get(&k) {
            Some(node) => {
                if heap.equal(sig, key, node.dag_node) {
                    Some(*node)
                } else {
                    None
                }
            },
            None => None,
        }
    }

    /// The entry under the hash of the top symbol of term `key`, if its node's arguments equal
    /// those of `key`.
    pub fn find_term(&self, sig: &Signature, terms: &TermStore, heap: &DagHeap, key: usize) -> (r: Option<RedBlackNode>)
        requires
            store_wf(sig.symbols@, terms.terms@),
            heap_wf(sig.symbols@, heap.nodes@),
            key < terms.terms@.len(),
            tree_in_heap(self.rb_tree@, heap.nodes@.len()),
        ensures
            ({
                let k = key_of_hash(thash_at(sig.symbols@, terms.terms@, key));
                r == if self.rb_tree@.contains_key(k) && term_dag_arguments_equal(
                    sig.symbols@,
                    terms.terms@,
                    heap.nodes@,
                    key,
                    self.rb_tree@[k].dag_node,
                ) {
                    Some(self.rb_tree@[k])
                } else {
                    None
                }
            }),
    {
        assert(crate::term::term_wf(sig.symbols@, terms.terms@[key as int], key as int));
        let k = hash_key(terms.symbol_hash_of(sig, key));
        match self.rb_tree.get(&k) {
            Some(node) => {
                if terms.dag_arguments_equal(sig, heap, key, node.dag_node) {
                    Some(*node)
                } else {
                    None
                }
            },
            None => None,
        }
    }

    /// Takes `multiplicity` copies of the entry under the hash of the top symbol of node
    /// `key` away; an entry left with none is removed, and the size goes down by one.
    pub fn delete_multiplicity(&mut self, sig: &Signature, heap: &DagHeap, key: usize, multiplicity: u32)
        requires
            heap_wf(sig.symbols@, heap.nodes@),
            key < heap.nodes@.len(),
            ({
                let k = key_of_hash(hash_at(sig.symbols@, heap.nodes@, key));
                old(self).rb_tree@.contains_key(k) ==> {
                    &&& old(self).rb_tree@[k].multiplicity >= multiplicity
                    &&& old(self).rb_tree@[k].multiplicity == multiplicity ==> old(self).size > 0
                }
            }),
        ensures
            ({
                let k = key_of_hash(hash_at(sig.symbols@, heap.nodes@, key));
                let m = old(self).rb_tree@;
                if !m.contains_key(k) {
                    &&& final(self).rb_tree@ == m
                    &&& final(self).size == old(self).size
                } else if m[k].multiplicity > multiplicity {
                    &&& final(self).rb_tree@ == m.insert(k, RedBlackNode { multiplicity: (m[k].multiplicity - multiplicity) as u32, ..m[k] })
                    &&& final(self).size == old(self).size
                } else {
                    &&& final(self).rb_tree@ == m.remove(k)
                    &&& final(self).size == old(self).size - 1
                }
            }),
    {
        assert(crate::dag_node::node_wf(sig.symbols@, heap.nodes@[key as int], key as int));
        let k = hash_key(heap.symbol_hash_of(sig, key));
        let found = match self.rb_tree.get(&k) {
            Some(node) => Some(*node),
            None => None,
        };
        match found {
            Some(node) => {
                let new_multiplicity = node.multiplicity - multiplicity;
                if new_multiplicity > 0 {
                    self.rb_tree.insert(k, RedBlackNode { multiplicity: new_multiplicity, ..node });
                } else {
                    self.rb_tree.remove(&k);
                    self.size = self.size - 1;
                }
            },
            None => {},
        }
    }

    /// The entry with the greatest key below the hash of the top symbol of term `key`: where
    /// a match for `key` can start.
    pub fn find_first_potential_match(&self, sig: &Signature, terms: &TermStore, key: usize) -> (r: Option<RedBlackNode>)
        requires
            crate::term::in_store(sig.symbols@, terms.terms@, key),
        ensures
            ({
                let nk = key_of_hash(thash_at(sig.symbols@, terms.terms@, key));
                let m = self.rb_tree@;
                match r {
                    None => forall|j: i32| #[trigger] m.contains_key(j) ==> j >= nk,
                    Some(n) => exists|k: i32| {
                        &&& #[trigger] m.contains_key(k)
                        &&& k < nk
                        &&& m[k] == n
                        &&& forall|j: i32| #[trigger] m.contains_key(j) && j < nk ==> j <= k
                    },
                }
            }),
    {
        let nk = hash_key(terms.symbol_hash_of(sig, key));
        let ghost m = self.rb_tree@;
        let mut best: Option<(i32, RedBlackNode)> = None;
        let entries = self.rb_tree.iter();
        let ghost rem = IteratorSpec::remaining(&entries);
        proof {
            assert(key_obeys_cmp_spec::<i32>());
        }
        for e in it: entries
            invariant
                it.seq() == rem,
                rem == vstd::std_specs::btree::spec_btree_map_iter(&self.rb_tree).remaining(),
                m == self.rb_tree@,
                match best {
                    None => forall|i: int| 0 <= i < it.index() ==> *(#[trigger] rem[i]).0 >= nk,
                    Some(b) => {
                        &&& m.contains_key(b.0)
                        &&& b.0 < nk
                        &&& m[b.0] == b.1
                        &&& forall|i: int| 0 <= i < it.index() && *(#[trigger] rem[i]).0 < nk ==> *rem[i].0 <= b.0
                    },
                },
        {
            let (k, v) = e;
            if *k < nk {
                let better = match best {
                    None => true,
                    Some(b) => *k > b.0,
                };
                if better {
                    best = Some((*k, *v));
                }
            }
        }
        proof {
            assert forall|j: i32| #[trigger] m.contains_key(j) implies exists|i: int| 0 <= i < rem.len() && *rem[i].0 == j by {
                assert(rem.contains((&j, &m[j])));
            }
        }
        match best {
            None => None,
            Some(b) => Some(b.1),
        }
    }

    /// The first entry, in the order of the keys, with at least `multiplicity` copies.
    pub fn find_greater_equal_multiplicity(&self, multiplicity: u32) -> (r: Option<RedBlackNode>)
        ensures
            ({
                let m = self.rb_tree@;
                match r {
                    None => forall|k: i32| #[trigger] m.contains_key(k) ==> m[k].multiplicity < multiplicity,
                    Some(n) => exists|k: i32| {
                        &&& #[trigger] m.contains_key(k)
                        &&& m[k] == n
                        &&& n.multiplicity >= multiplicity
                        &&& forall|j: i32| #[trigger] m.contains_key(j) && j < k ==> m[j].multiplicity < multiplicity
                    },
                }
            }),
    {
        let mut found: Option<RedBlackNode> = None;
        let values = self.rb_tree.values();
        let ghost m = self.rb_tree@;
        let ghost rem = IteratorSpec::remaining(&values);
        proof {
            assert(key_obeys_cmp_spec::<i32>());
        }
        let ghost key_seq = choose|ks: Seq<i32>| {
            &&& increasing_seq(ks)
            &&& ks.to_set() == m.dom()
            &&& ks.no_duplicates()
            &&& rem == ks.map(|i: int, k: i32| &m[k])
        };
        let ghost mut at: int = 0;
        for v in it: values
            invariant
                it.seq() == rem,
                rem == key_seq.map(|i: int, k: i32| &m[k]),
                match found {
                    None => forall|i: int| 0 <= i < it.index() ==> (#[trigger] rem[i]).multiplicity < multiplicity,
                    Some(n) => {
                        &&& 0 <= at < it.index()
                        &&& *rem[at] == n
                        &&& n.multiplicity >= multiplicity
                        &&& forall|i: int| 0 <= i < at ==> (#[trigger] rem[i]).multiplicity < multiplicity
                    },
                },
        {
            if found.is_none() && v.multiplicity >= multiplicity {
                found = Some(*v);
                proof {
                    at = it.index();
                }
            }
        }
        proof {
            assert forall|i: int, j: int| 0 <= i < j < key_seq.len() implies #[trigger] key_seq[i] < #[trigger] key_seq[j] by {
                assert(key_seq[i].cmp_spec(&key_seq[j]) is Less);
            }
            assert forall|j: i32| #[trigger] m.contains_key(j) implies exists|i: int| 0 <= i < key_seq.len() && key_seq[i] == j by {
                assert(key_seq.to_set().contains(j));
            }
            match found {
                None => {
                    assert forall|j: i32| #[trigger] m.contains_key(j) implies m[j].multiplicity < multiplicity by {
                        let i = choose|i: int| 0 <= i < key_seq.len() && key_seq[i] == j;
                        assert(rem[i] == &m[j]);
                    }
                },
                Some(n) => {
                    let k = key_seq[at];
                    assert(key_seq.to_set().contains(k));
                    assert forall|j: i32| #[trigger] m.contains_key(j) && j < k implies m[j].multiplicity < multiplicity by {
                        let i = choose|i: int| 0 <= i < key_seq.len() && key_seq[i] == j;
                        if i >= at {
                            if i > at {
                                assert(key_seq[at] < key_seq[i]);
                            }
                        }
                        assert(rem[i] == &m[j]);
                    }
                },
            }
        }
        found
    }

    /// Every tree counts as reduced.
    pub fn is_reduced(&self) -> (r: bool)
        ensures
            r,
    {
        true
    }
}

/// The arguments of an associative-commutative node: a list of pairs, or a tree.
pub enum ACUArguments {
    List(Vec<DagPair>),
    Tree(RedBlackTree),
}

/// `r` is the multiplicity of the first pair of `v` whose node equals term `t`, or `None` when
/// there is none.
pub open spec fn list_search(sig: Seq<SymbolMembers>, ts: Seq<Term>, heap: Seq<DagNode>, t: usize, v: Seq<DagPair>, r: Option<u32>) -> bool {
    match r {
        None => forall|i: int| 0 <= i < v.len() ==> !term_dag_equal(sig, ts, heap, t, #[trigger] v[i].dag_node),
        Some(m) => exists|i: int| {
            &&& 0 <= i < v.len()
            &&& term_dag_equal(sig, ts, heap, t, #[trigger] v[i].dag_node)
            &&& v[i].multiplicity == m
            &&& forall|j: int| 0 <= j < i ==> !term_dag_equal(sig, ts, heap, t, #[trigger] v[j].dag_node)
        },
    }
}

/// `es` lists the arguments with their multiplicities: those of a list in its order, those of
/// a tree in the order of its keys.
pub open spec fn entries_are(a: ACUArguments, es: Seq<(usize, u32)>) -> bool {
    match a {
        ACUArguments::List(v) => es == v@.map(|i: int, p: DagPair| (p.dag_node, p.multiplicity)),
        ACUArguments::Tree(t) => exists|ks: Seq<i32>| {
            &&& key_order(t.rb_tree@, ks)
            &&& es == ks.map(|i: int, k: i32| (t.rb_tree@[k].dag_node, t.rb_tree@[k].multiplicity))
        },
    }
}

/// Two increasing sequences of the same keys are equal.
proof fn lemma_key_order_unique(m: Map<i32, RedBlackNode>, a: Seq<i32>, b: Seq<i32>)
    requires
        key_order(m, a),
        key_order(m, b),
    ensures
        a == b,
    decreases a.len(),
{
    if a.len() == 0 || b.len() == 0 {
        if a.len() > 0 {
            assert(a.to_set().contains(a[0]));
            assert(b.contains(a[0]));
        } else if b.len() > 0 {
            assert(b.to_set().contains(b[0]));
            assert(a.contains(b[0]));
        }
        assert(a =~= b);
    } else {
        assert(a.to_set().contains(a[0]));
        assert(b.to_set().contains(b[0]));
        assert(b.contains(a[0]));
        assert(a.contains(b[0]));
        let j = choose|j: int| 0 <= j < b.len() && b[j] == a[0];
        let i = choose|i: int| 0 <= i < a.len() && a[i] == b[0];
        if j > 0 {
            assert(b[0] < b[j]);
        }
        if i > 0 {
            assert(a[0] < a[i]);
        }
        assert(a[0] == b[0]);
        let m2 = m.remove(a[0]);
        let a2 = a.drop_first();
        let b2 = b.drop_first();
        assert forall|k: i32| #[trigger] a2.to_set().contains(k) <==> m2.dom().contains(k) by {
            if a2.contains(k) {
                let x = choose|x: int| 0 <= x < a2.len() && a2[x] == k;
                assert(a[0] < a[x + 1]);
                assert(a.contains(k));
            }
            if m2.dom().contains(k) {
                assert(a.to_set().contains(k));
                let x = choose|x: int| 0 <= x < a.len() && a[x] == k;
                assert(x != 0);
                assert(a2[x - 1] == k);
            }
        }
        assert forall|k: i32| #[trigger] b2.to_set().contains(k) <==> m2.dom().contains(k) by {
            if b2.contains(k) {
                let x = choose|x: int| 0 <= x < b2.len() && b2[x] == k;
                assert(b[0] < b[x + 1]);
                assert(b.contains(k));
            }
            if m2.dom().contains(k) {
                assert(b.to_set().contains(k));
                let x = choose|x: int| 0 <= x < b.len() && b[x] == k;
                assert(x != 0);
                assert(b2[x - 1] == k);
            }
        }
        assert(a2.to_set() =~= m2.dom());
        assert(b2.to_set() =~= m2.dom());
        lemma_key_order_unique(m2, a2, b2);
        assert(a =~= seq![a[0]] + a2);
        assert(b =~= seq![b[0]] + b2);
    }
}

/// The entries of arguments are determined by them: a list gives its pairs in order, a tree
/// its pairs in the order of their keys, and no other sequence.
pub proof fn lemma_entries_unique(a: ACUArguments, es1: Seq<(usize, u32)>, es2: Seq<(usize, u32)>)
    requires
        entries_are(a, es1),
        entries_are(a, es2),
    ensures
        es1 == es2,
{
    if let ACUArguments::Tree(t) = a {
        let k1 = choose|ks: Seq<i32>| {
            &&& key_order(t.rb_tree@, ks)
            &&& es1 == ks.map(|i: int, k: i32| (t.rb_tree@[k].dag_node, t.rb_tree@[k].multiplicity))
        };
        let k2 = choose|ks: Seq<i32>| {
            &&& key_order(t.rb_tree@, ks)
            &&& es2 == ks.map(|i: int, k: i32| (t.rb_tree@[k].dag_node, t.rb_tree@[k].multiplicity))
        };
        lemma_key_order_unique(t.rb_tree@, k1, k2);
    }
}

/// The entries of arguments that are nodes of a heap of `len` nodes are nodes of it.
pub proof fn lemma_entries_in_heap(a: ACUArguments, es: Seq<(usize, u32)>, len: nat)
    requires
        entries_are(a, es),
        arguments_in_heap(a, len),
    ensures
        forall|k: int| 0 <= k < es.len() ==> (#[trigger] es[k]).0 < len,
{
    if let ACUArguments::Tree(t) = a {
        let ks = choose|ks: Seq<i32>| {
            &&& key_order(t.rb_tree@, ks)
            &&& es == ks.map(|i: int, k: i32| (t.rb_tree@[k].dag_node, t.rb_tree@[k].multiplicity))
        };
        assert forall|k: int| 0 <= k < es.len() implies (#[trigger] es[k]).0 < len by {
            assert(ks.to_set().contains(ks[k]));
            assert(t.rb_tree@.contains_key(ks[k]));
        }
    }
}

/// Every argument is a node of a heap of `len` nodes.
pub open spec fn arguments_in_heap(a: ACUArguments, len: nat) -> bool {
    match a {
        ACUArguments::List(v) => forall|i: int| 0 <= i < v@.len() ==> (#[trigger] v@[i]).dag_node < len,
        ACUArguments::Tree(t) => tree_in_heap(t.rb_tree@, len),
    }
}

impl ACUArguments {
    /// The number of arguments: the list's length, or the tree's size.
    pub fn size(&self) -> (r: usize)
        ensures
            r == match self {
                ACUArguments::List(v) => v@.len(),
                ACUArguments::Tree(t) => t.size as nat,
            },
    {
        match self {
            ACUArguments::List(v) => v.len(),
            ACUArguments::Tree(t) => t.size,
        }
    }

    /// The same as `size`.
    pub fn len(&self) -> (r: usize)
        ensures
            r == match self {
                ACUArguments::List(v) => v@.len(),
                ACUArguments::Tree(t) => t.size as nat,
            },
    {
        self.size()
    }

    /// The multiplicity of the argument equal to term `term`: in a list the first such pair,
    /// in a tree the entry that `find_term` finds.
    pub fn search_for_term(&self, sig: &Signature, terms: &TermStore, heap: &DagHeap, term: usize) -> (r: Option<u32>)
        requires
            store_wf(sig.symbols@, terms.terms@),
            heap_wf(sig.symbols@, heap.nodes@),
            term < terms.terms@.len(),
            arguments_in_heap(*self, heap.nodes@.len()),
        ensures
            *self matches ACUArguments::List(v) ==> list_search(sig.symbols@, terms.terms@, heap.nodes@, term, v@, r),
            *self matches ACUArguments::Tree(t) ==> r == (if t.rb_tree@.contains_key(key_of_hash(thash_at(sig.symbols@, terms.terms@, term)))
                && term_dag_arguments_equal(
                sig.symbols@,
                terms.terms@,
                heap.nodes@,
                term,
                t.rb_tree@[key_of_hash(thash_at(sig.symbols@, terms.terms@, term))].dag_node,
            ) {
                Some(t.rb_tree@[key_of_hash(thash_at(sig.symbols@, terms.terms@, term))].multiplicity)
            } else {
                None
            }),
    {
        match self {
            ACUArguments::List(v) => {
                let mut i: usize = 0;
                while i < v.len()
                    invariant
                        *self == ACUArguments::List(*v),
                        store_wf(sig.symbols@, terms.terms@),
                        heap_wf(sig.symbols@, heap.nodes@),
                        term < terms.terms@.len(),
                        forall|j: int| 0 <= j < v@.len() ==> (#[trigger] v@[j]).dag_node < heap.nodes@.len(),
                        i <= v@.len(),
                        forall|j: int| 0 <= j < i ==> !term_dag_equal(
                            sig.symbols@,
                            terms.terms@,
                            heap.nodes@,
                            term,
                            #[trigger] v@[j].dag_node,
                        ),
                    decreases v@.len() - i,
                {
                    if terms.equal_dag_node(sig, heap, term, v[i].dag_node) {
                        let ghost gi = i as int;
                        assert(term_dag_equal(sig.symbols@, terms.terms@, heap.nodes@, term, v@[gi].dag_node));
                        let mult = v[i].multiplicity;
                        assert(list_search(sig.symbols@, terms.terms@, heap.nodes@, term, v@, Some(mult)));
                        return Some(mult);
                    }
                    i = i + 1;
                }
                None
            },
            ACUArguments::Tree(t) => match t.find_term(sig, terms, heap, term) {
                Some(n) => Some(n.multiplicity),
                None => None,
            },
        }
    }

    /// The arguments with their multiplicities: the list in its order, the tree in the order
    /// of its keys.
    pub fn iter(&self) -> (r: Vec<(usize, u32)>)
        ensures
            entries_are(*self, r@),
    {
        match self {
            ACUArguments::List(v) => {
                let mut out: Vec<(usize, u32)> = Vec::new();
                let mut i: usize = 0;
                while i < v.len()
                    invariant
                        i <= v@.len(),
                        out@.len() == i,
                        forall|j: int| 0 <= j < i ==> #[trigger] out@[j] == (v@[j].dag_node, v@[j].multiplicity),
                    decreases v@.len() - i,
                {
                    out.push((v[i].dag_node, v[i].multiplicity));
                    i = i + 1;
                }
                assert(out@ =~= v@.map(|i: int, p: DagPair| (p.dag_node, p.multiplicity)));
                out
            },
            ACUArguments::Tree(t) => t.iter(),
        }
    }
}

} // verus!
