use vstd::prelude::*;

pub mod dag_node_flags;
pub mod symbol_type;
pub mod node_list;
pub mod symbol;
pub mod dag_node;
pub mod dag_compare;
pub mod substitution;
pub mod nat_set;
pub mod term;
pub mod term_compare;
pub mod term_analysis;
pub mod subproblem;
pub mod lhs_automaton;
pub mod lhs_compiler;
pub mod abstraction;
pub mod acu;
pub mod free_remainder;
pub mod rhs_automaton;
pub mod free_net;
pub mod dag_ops;
pub mod red_black_tree;
pub mod acu_dag_node;
pub mod acu_automaton;
pub mod extension_info;
pub mod numeric;
pub mod acu_term;

verus! {

/// Whether a match succeeded, failed, or could not be decided yet.
#[derive(Copy, Clone, PartialEq, Eq, Debug)]
pub enum Outcome {
    Success,
    Failure,
    Undecided,
}

impl Outcome {
    /// `Success` for true, `Failure` for false.
    pub fn from_bool(value: bool) -> (r: Outcome)
        ensures
            r == (if value { Outcome::Success } else { Outcome::Failure }),
    {
        if value {
            Outcome::Success
        } else {
            Outcome::Failure
        }
    }
}

/// How the sorts of an associative symbol's arguments bound the sort of an application.
#[derive(Copy, Clone, PartialEq, Eq, Debug)]
pub enum AssociativeSymbolStructure {
    /// No guarantees.
    Unstructured,
    /// s_1 <= s and s_2 <= s imply s_f(s_1, s_2) <= s.
    LimitSort,
    /// As `LimitSort` with the implication in both directions, taking sort constraints into account.
    PureSort,
}

impl AssociativeSymbolStructure {
    /// The name under which the structure is printed.
    pub fn repr(&self) -> (r: &'static str)
        ensures
            *self == AssociativeSymbolStructure::LimitSort ==> r@ == "LIMIT_SORT"@,
            *self == AssociativeSymbolStructure::PureSort ==> r@ == "PURE_SORT"@,
            *self == AssociativeSymbolStructure::Unstructured ==> r@ == "UNSTRUCTURED"@,
    {
        match self {
            AssociativeSymbolStructure::LimitSort => "LIMIT_SORT",
            AssociativeSymbolStructure::PureSort => "PURE_SORT",
            AssociativeSymbolStructure::Unstructured => "UNSTRUCTURED",
        }
    }
}

} // verus!
