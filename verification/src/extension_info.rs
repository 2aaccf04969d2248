//! What a match below an associative-commutative symbol leaves of its subject.
use vstd::prelude::*;
use std::rc::Rc;
use crate::acu_dag_node::ACUDagNode;
use crate::dag_node::{DagHeap, Signature, hash_at};
use crate::red_black_tree::{RedBlackNode, RedBlackTree, key_of_hash};
use crate::subproblem::ExtensionInfo;

verus! {

/// The extension of a match below an associative-commutative symbol.
pub struct ACUExtensionInfo {
    /// Whether the extension is valid after the match.
    pub valid_after_match: bool,
    /// Whether the whole subject matched.
    pub matched_whole: bool,
    /// The subject of the extension.
    pub subject: Rc<ACUDagNode>,
    /// The unmatched part of the subject.
    pub unmatched: RedBlackTree,
    /// The multiplicities of the unmatched part.
    pub unmatched_multiplicity: Vec<u32>,
    /// The upper bound of the unmatched multiplicity.
    pub upper_bound: u32,
}

impl ExtensionInfo for ACUExtensionInfo {
    fn set_valid_after_match(&mut self, value: bool)
        ensures
            *final(self) == (ACUExtensionInfo { valid_after_match: value, ..*old(self) }),
    {
        self.valid_after_match = value;
    }

    fn set_matched_whole(&mut self, value: bool)
        ensures
            *final(self) == (ACUExtensionInfo { matched_whole: value, ..*old(self) }),
    {
        self.matched_whole = value;
    }

    /// Puts `value` into the unmatched part, under the hash of its top symbol.
    fn set_unmatched(&mut self, sig: &Signature, heap: &DagHeap, value: usize)
        ensures
            ({
                let k = key_of_hash(hash_at(sig.symbols@, heap.nodes@, value));
                let m = old(self).unmatched.rb_tree@;
                &&& final(self).unmatched.rb_tree@ == m.insert(k, RedBlackNode { dag_node: value, multiplicity: 1, flags: 0 })
                &&& final(self).unmatched.size == if m.contains_key(k) || old(self).unmatched.size == usize::MAX {
                    old(self).unmatched.size
                } else {
                    (old(self).unmatched.size + 1) as usize
                }
            }),
            final(self).valid_after_match == old(self).valid_after_match,
            final(self).matched_whole == old(self).matched_whole,
            final(self).subject == old(self).subject,
            final(self).unmatched_multiplicity@ == old(self).unmatched_multiplicity@,
            final(self).upper_bound == old(self).upper_bound,
    {
        self.unmatched.insert(sig, heap, value)
    }
}

} // verus!
