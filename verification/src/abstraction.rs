//! The subproblem left when a variable abstracts a subpattern: the abstracted pattern is
//! matched against the variable's binding when the subproblem is solved.
use vstd::prelude::*;
use crate::dag_compare::consistent_binding;
use crate::dag_node::heap_wf;
use crate::lhs_automaton::{LHSAutomaton, lhs_match, lhs_wf};
use crate::subproblem::{MaybeSubproblem, RewritingContext, Subproblem};
use crate::substitution::{LocalBindings, MaybeDagNode, Substitution, binding, bindings_in_heap, retracted};
use crate::term::store_wf;

verus! {

/// Matching `abstracted_pattern` against the binding of `abstraction_variable`, in a local
/// copy of the solution.
pub struct VariableAbstractionSubproblem {
    pub abstracted_pattern: LHSAutomaton,
    pub abstraction_variable: u32,
    pub variable_count: u32,
    pub difference: Option<LocalBindings>,
    pub subproblem: MaybeSubproblem,
    pub local: Substitution,
    pub solved: bool,
}

/// The bindings of the local copy once the solution is copied into it.
pub open spec fn local_after_copy(p: VariableAbstractionSubproblem, solution: Substitution) -> Seq<MaybeDagNode> {
    if solution.copy_size > 0 {
        solution.bindings@
    } else {
        p.local.bindings@
    }
}

/// The node bound to the abstraction variable.
pub open spec fn abstracted_subject(p: VariableAbstractionSubproblem, c: RewritingContext) -> usize {
    binding(c.solution.bindings@, p.abstraction_variable as int)->Some_0
}

/// A first solution can be looked for: the local copy can take the solution's bindings, the
/// abstraction variable is bound, the pattern can be matched against its binding, and a
/// successful match binds no variable of the solution to a different node.
pub open spec fn first_solve_ready(p: VariableAbstractionSubproblem, c: RewritingContext) -> bool {
    let local = local_after_copy(p, c.solution);
    let m = lhs_match(c.signature.symbols@, c.terms.terms@, p.abstracted_pattern, abstracted_subject(p, c), c.heap.nodes@, local);
    &&& p.local.copy_size == c.solution.copy_size
    &&& binding(c.solution.bindings@, p.abstraction_variable as int) is Some
    &&& lhs_wf(c.signature.symbols@, c.terms.terms@.len(), p.abstracted_pattern)
    &&& store_wf(c.signature.symbols@, c.terms.terms@)
    &&& heap_wf(c.signature.symbols@, c.heap.nodes@)
    &&& bindings_in_heap(c.solution.bindings@, c.heap.nodes@.len())
    &&& bindings_in_heap(local, c.heap.nodes@.len())
    &&& m.defined
    &&& (m.ok ==> forall|i: int| 0 <= i < m.sol.len() && 0 <= i < c.solution.bindings@.len() ==> consistent_binding(
        c.signature.symbols@,
        m.heap,
        #[trigger] m.sol[i],
        c.solution.bindings@[i],
    ))
}

impl VariableAbstractionSubproblem {
    /// The subproblem for `abstracted_pattern` under `abstraction_variable`, not yet solved, with
    /// an empty difference and an empty local substitution.
    pub fn new(abstracted_pattern: LHSAutomaton, abstraction_variable: u32, variable_count: u32) -> (r: VariableAbstractionSubproblem)
        ensures
            r.abstracted_pattern == abstracted_pattern,
            r.abstraction_variable == abstraction_variable,
            r.variable_count == variable_count,
            r.difference is Some,
            r.difference->Some_0.bindings@ == Seq::<(u32, usize)>::empty(),
            r.subproblem is None,
            r.local.bindings@ == Seq::<MaybeDagNode>::empty(),
            r.local.copy_size == 0,
            !r.solved,
    {
        VariableAbstractionSubproblem {
            abstracted_pattern,
            abstraction_variable,
            variable_count,
            difference: Some(LocalBindings::new()),
            subproblem: None,
            local: Substitution::new(),
            solved: false,
        }
    }

    /// Looks for the first (`find_first`) or the next solution; each solution found is a
    /// different one. A first solution copies the solution into the local substitution and
    /// matches the pattern against the binding of the abstraction variable there; when that
    /// fails there is no solution and the solution is left as it was. Otherwise the bindings
    /// the match adds to the solution (its difference with the solution, always empty since a
    /// consistent match only adds bindings that the solution also has) are made, and the nested
    /// subproblem, if any, is asked for its first solution. A next solution is asked of the
    /// nested subproblem; without one the match has no other solution. When no solution is
    /// left the difference is retracted and the difference and the nested subproblem dropped.
    pub fn solve(&mut self, find_first: bool, context: &mut RewritingContext) -> (r: bool)
        requires
            find_first ==> first_solve_ready(*old(self), *old(context)),
            !find_first && old(self).difference is Some ==> forall|k: int|
                0 <= k < old(self).difference->Some_0.bindings@.len() ==> (#[trigger] old(self).difference->Some_0.bindings@[k]).0
                    < old(context).solution.bindings@.len(),
        ensures
            final(context).solution.bindings@.len() == old(context).solution.bindings@.len(),
            final(context).signature == old(context).signature || old(self).subproblem is Some,
            final(context).terms == old(context).terms || old(self).subproblem is Some,
            find_first ==> {
                let m = lhs_match(
                    old(context).signature.symbols@,
                    old(context).terms.terms@,
                    old(self).abstracted_pattern,
                    abstracted_subject(*old(self), *old(context)),
                    old(context).heap.nodes@,
                    local_after_copy(*old(self), old(context).solution),
                );
                &&& final(self).local.bindings@ == m.sol
                &&& !m.ok ==> {
                    &&& !r
                    &&& final(context).heap.nodes@ == m.heap
                    &&& final(context).solution.bindings@ == old(context).solution.bindings@
                    &&& final(context).signature == old(context).signature
                    &&& final(context).terms == old(context).terms
                }
                &&& old(self).subproblem is None ==> {
                    &&& r == m.ok
                    &&& final(context).heap.nodes@ == m.heap
                    &&& final(context).solution.bindings@ == old(context).solution.bindings@
                    &&& r ==> final(self).difference is None
                }
            },
            !find_first && old(self).subproblem is None ==> {
                &&& !r
                &&& final(context).heap.nodes@ == old(context).heap.nodes@
                &&& final(context).solution.bindings@ == after_retract(old(self).difference, old(context).solution.bindings@)
            },
            !r && !(find_first && !lhs_match(
                old(context).signature.symbols@,
                old(context).terms.terms@,
                old(self).abstracted_pattern,
                abstracted_subject(*old(self), *old(context)),
                old(context).heap.nodes@,
                local_after_copy(*old(self), old(context).solution),
            ).ok) ==> final(self).subproblem is None && final(self).difference is None,
            r ==> (final(self).subproblem is Some) == (old(self).subproblem is Some),
            find_first && r && old(self).subproblem is None ==> final(self).subproblem is None && final(self).difference is None,
            !find_first && old(self).subproblem is None && old(self).difference is None ==> {
                &&& !r
                &&& final(context).solution.bindings@ == old(context).solution.bindings@
                &&& final(self).difference is None
            },
    {
        if find_first {
            self.local.copy_from_substitution(&context.solution);
            let v = context.solution.value(self.abstraction_variable).unwrap();
            let (ok, _) = self.abstracted_pattern.match_(&context.signature, &context.terms, &mut context.heap, v, &mut self.local);
            if !ok {
                return false;
            }
            self.difference = self.local.subtract(&context.solution, &context.signature, &context.heap);
            match &self.difference {
                Some(difference) => {
                    difference.assert_bindings(&mut context.solution);
                },
                None => {},
            }
            match &mut self.subproblem {
                Some(subproblem) => {
                    if subproblem.solve(true, context) {
                        return true;
                    }
                },
                None => {
                    return true;
                },
            }
        } else {
            match &mut self.subproblem {
                Some(subproblem) => {
                    if subproblem.solve(false, context) {
                        return true;
                    }
                },
                None => {},
            }
        }
        match &self.difference {
            Some(difference) => {
                let ghost before = context.solution.bindings@;
                difference.retract(&mut context.solution);
                proof {
                    crate::substitution::lemma_retracted_len(
                        before,
                        difference.bindings@,
                        difference.bindings@.len() as int,
                    );
                }
            },
            None => {},
        }
        self.difference = None;
        self.subproblem = None;
        false
    }
}

/// The bindings after retracting the difference `d`, if there is one.
pub open spec fn after_retract(d: Option<LocalBindings>, s: Seq<MaybeDagNode>) -> Seq<MaybeDagNode> {
    match d {
        Some(l) => retracted(s, l.bindings@, l.bindings@.len() as int),
        None => s,
    }
}

} // verus!
