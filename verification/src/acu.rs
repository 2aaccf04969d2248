//! Data of the associative-commutative theory with identity: the symbols of associative
//! theories, the normalization status of their nodes, the flags of the red-black tree nodes
//! that hold their arguments, and their matching subproblems.
use vstd::prelude::*;
use crate::AssociativeSymbolStructure;
use crate::extension_info::ACUExtensionInfo;
use crate::subproblem::{RewritingContext, Subproblem};
use crate::substitution::LocalBindings;
use crate::symbol::{Sort, SymbolMembers};

verus! {

/// How far the arguments of an associative-commutative node are known to be normalized.
#[derive(Copy, Clone, PartialEq, Eq, Debug)]
pub enum NormalizationStatus {
    /// Default: no guarantees.
    Fresh,
    /// Node was produced by an assignment in the matcher: all arguments are reduced up to the
    /// strategy of the symbol (if the subject was), have the correct sort, and the argument
    /// list is in theory normal form.
    Assignment,
    /// As above, but the arguments are stored in a red-black tree rather than in a list.
    Tree,
}

/// The flags of a red-black tree node, each a bit of the node's flag word.
#[derive(Copy, Clone, PartialEq, Eq, Debug)]
pub enum RedBlackNodeFlags {
    Color,
    Marked,
    Collect,
}

impl RedBlackNodeFlags {
    /// The position of the flag's bit.
    pub fn bit_position(self) -> (r: u8)
        ensures
            r == (match self {
                RedBlackNodeFlags::Color => 0u8,
                RedBlackNodeFlags::Marked => 6u8,
                RedBlackNodeFlags::Collect => 7u8,
            }),
    {
        match self {
            RedBlackNodeFlags::Color => 0,
            RedBlackNodeFlags::Marked => 6,
            RedBlackNodeFlags::Collect => 7,
        }
    }
}

/// The members shared by the symbols of associative theories.
pub struct AssociativeSymbol {
    pub sort_bounds: Vec<u32>,
    pub sort_structure: Vec<AssociativeSymbolStructure>,
    pub uniform_sort: Sort,
    pub sort: Sort,
    pub symbol_members: SymbolMembers,
}

impl AssociativeSymbol {
    /// The members every symbol has.
    pub fn symbol_members(&self) -> (r: &SymbolMembers)
        ensures
            *r == self.symbol_members,
    {
        &self.symbol_members
    }
}

/// A symbol of the associative-commutative theory with identity.
pub struct ACUSymbol {
    pub sort_bounds: Vec<u32>,
    pub sort_structure: Vec<AssociativeSymbolStructure>,
    pub uniform_sort: Sort,
    pub sort: Sort,
    /// Unique integer for comparing symbols, also called order.
    pub hash_value: u32,
    /// Slow case: 0, fast case: -1, positive for symbols that only produce one sort.
    pub unique_sort_index: i32,
    /// For fast matching.
    pub match_index: u32,
    pub arity: u32,
    pub memo_flag: u32,
}

/// An edge of the bipartite graph of a matching subproblem: the subject it leads to, the
/// bindings its match adds, and the subproblem its match leaves.
pub struct Edge {
    pub target: u32,
    pub difference: LocalBindings,
    pub subproblem: Box<dyn Subproblem>,
}

/// A pattern of the bipartite graph of a matching subproblem, with its multiplicity, its edges
/// and the edge it currently uses.
pub struct PatternNode {
    pub multiplicity: u32,
    pub edges: Vec<Edge>,
    pub selected_edge: u32,
}

impl PatternNode {
    /// Solving a pattern node always succeeds and changes nothing.
    pub fn solve(&mut self, find_first: bool, solution: &mut RewritingContext, current_multiplicity: &mut Vec<u32>) -> (r: bool)
        ensures
            r,
            final(self).multiplicity == old(self).multiplicity,
            final(self).selected_edge == old(self).selected_edge,
            final(current_multiplicity)@ == old(current_multiplicity)@,
    {
        true
    }
}


/// A variable directly below the top symbol, as a matching subproblem sees it.
pub struct SubproblemTopVariable {
    pub index: u32,
    pub multiplicity: u32,
    pub lower_bound: u32,
    pub upper_bound: u32,
    pub sort: Sort,
}

/// The subproblem that matching below an associative-commutative symbol leaves: a bipartite
/// graph from the patterns to the subjects of node `subject`, and the top variables that take
/// what is left. It holds no Diophantine system: solving it finds no solution.
pub struct ACUSubproblem {
    pub subject: usize,
    pub extension_info: Option<ACUExtensionInfo>,
    pub solved: bool,
    pub current_multiplicity: Vec<u32>,
    pub top_variables: Vec<SubproblemTopVariable>,
    pub pattern_nodes: Vec<PatternNode>,
    pub variable_map: Vec<u32>,
    pub subject_map: Vec<u32>,
    pub after_multiplicity: Vec<u32>,
}

impl ACUSubproblem {
    /// Solving with delay finds no solution and changes nothing.
    pub fn delayed_solve(&mut self, find_first: bool, context: &mut RewritingContext) -> (r: bool)
        ensures
            !r,
            *final(self) == *old(self),
            *final(context) == *old(context),
    {
        false
    }

    /// Whether the subproblem has been solved.
    pub fn is_solved(&self) -> (r: bool)
        ensures
            r == self.solved,
    {
        self.solved
    }

    /// Records whether the subproblem has been solved.
    pub fn set_solved(&mut self, solved: bool)
        ensures
            *final(self) == (ACUSubproblem { solved, ..*old(self) }),
    {
        self.solved = solved;
    }

    /// Whether the graph has no patterns.
    pub fn no_patterns(&self) -> (r: bool)
        ensures
            r == (self.pattern_nodes@.len() == 0),
    {
        self.pattern_nodes.len() == 0
    }
}

impl Subproblem for ACUSubproblem {
    open spec fn answer(&self, calls: Seq<crate::subproblem::SolveRequest>) -> bool {
        false
    }

    open spec fn context_after(&self, calls: Seq<crate::subproblem::SolveRequest>) -> RewritingContext {
        calls.last().1
    }

    /// Finds no solution and changes nothing.
    fn solve(&mut self, find_first: bool, context: &mut RewritingContext) -> (r: bool)
        ensures
            !r,
            *final(self) == *old(self),
            *final(context) == *old(context),
    {
        proof {
            assert forall|h: Seq<crate::subproblem::SolveRequest>| h.len() > 0 implies #[trigger] self.context_after(h)
                == self.context_after(seq![(find_first, *context)] + h) by {
                assert((seq![(find_first, *context)] + h).last() == h.last());
            }
        }
        false
    }
}

} // verus!
