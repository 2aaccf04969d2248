//! Matching automata for left-hand sides.
//!
//! A free automaton matches the skeleton of free symbols at the top of a pattern, then the
//! variables directly below it whose binding is uncertain, then those that are bound for
//! sure, then the ground subterms of other theories, and last the non-ground subterms of other
//! theories, each with an automaton of its own. The nodes below the skeleton are found through
//! a stack of argument lists, one slot per skeleton symbol of nonzero arity.
use vstd::prelude::*;
use crate::dag_node::{
    DagHeap, DagNode, Signature, arg_at, args_len_at, hash_at, heap_wf, members, node_args,
    node_wf, shallow_copy_node, sort_index_at, check_sort_defined, check_sort_result, lemma_sort_index_update,
};
use crate::dag_compare::dags_equal;
use crate::node_list::{NodeList, node_list_items};
use crate::substitution::{MaybeDagNode, Substitution, binding, bindings_in_heap};
use crate::subproblem::{MaybeSubproblem, SubproblemSequence};
use crate::symbol::{NONE, SORT_UNKNOWN, Sort, SymbolMembers, index_leq_sort};
use crate::term::{TermStore, store_wf, Term};
use crate::term_compare::term_dag_equal;
use crate::Outcome;

verus! {

/// A free symbol of the skeleton below the top: found as argument `arg_index` of the node in
/// slot `position`, and bound to variable `save_index` unless that is `NONE`.
#[derive(Copy, Clone, Debug)]
pub struct FreeSubterm {
    pub position: i32,
    pub arg_index: i32,
    pub symbol: usize,
    pub save_index: i32,
}

/// A variable directly below the skeleton that may or may not be bound when it is reached.
pub struct FreeVariable {
    pub position: i32,
    pub arg_index: i32,
    pub var_index: i32,
    pub sort: Sort,
}

/// A variable directly below the skeleton that is bound for sure when it is reached.
#[derive(Copy, Clone, Debug)]
pub struct BoundVariable {
    pub position: i32,
    pub arg_index: i32,
    pub var_index: i32,
}

/// A ground subterm of another theory directly below the skeleton: term `alien` of the store.
#[derive(Copy, Clone, Debug)]
pub struct GroundAlien {
    pub position: i32,
    pub arg_index: i32,
    pub alien: usize,
}

/// A non-ground subterm of another theory directly below the skeleton, with its automaton.
pub struct NonGroundAlien {
    pub position: i32,
    pub arg_index: i32,
    pub automaton: LHSAutomaton,
}

/// The automaton of a pattern whose top symbol is free.
pub struct FreeLHSAutomaton {
    pub top_symbol: usize,
    pub stack: Vec<NodeList>,
    pub free_subterms: Vec<FreeSubterm>,
    pub uncertain_variables: Vec<FreeVariable>,
    pub bound_variables: Vec<BoundVariable>,
    pub ground_aliens: Vec<GroundAlien>,
    pub non_ground_aliens: Vec<NonGroundAlien>,
}

/// The automaton of a pattern that is a variable.
pub struct VariableLHSAutomaton {
    pub index: i32,
    pub sort: Sort,
    pub copy_to_avoid_overwriting: bool,
}

/// An automaton that matches with another automaton and then binds variable
/// `variable_index` to the subject.
pub struct BindingLHSAutomaton {
    pub variable_index: i32,
    pub real_automaton: Box<LHSAutomaton>,
}

/// A matching automaton.
pub enum LHSAutomaton {
    Free(FreeLHSAutomaton),
    Variable(VariableLHSAutomaton),
    Binding(BindingLHSAutomaton),
}

/// The outcome of a match: whether it runs through without failing one of its internal checks
/// (`defined`), whether it succeeds, and the heap and the bindings after it.
pub struct MatchResult {
    pub defined: bool,
    pub ok: bool,
    pub heap: Seq<DagNode>,
    pub sol: Seq<MaybeDagNode>,
}

/// What a run ended with: success `ok`, heap `heap` and bindings `sol`.
pub open spec fn matched_as(m: MatchResult, ok: bool, heap: Seq<DagNode>, sol: Seq<MaybeDagNode>) -> bool {
    &&& ok == m.ok
    &&& heap == m.heap
    &&& sol == m.sol
}

pub open spec fn undefined_match(heap: Seq<DagNode>, sol: Seq<MaybeDagNode>) -> MatchResult {
    MatchResult { defined: false, ok: false, heap, sol }
}

pub open spec fn failed_match(heap: Seq<DagNode>, sol: Seq<MaybeDagNode>) -> MatchResult {
    MatchResult { defined: true, ok: false, heap, sol }
}

/// Matching `subject` against variable `index` of sort `sort`. A bound variable matches a node
/// equal to its binding. An unbound one matches a node whose sort check succeeds, and is bound
/// to the node, or to a shallow copy of it when `copy` is set.
pub open spec fn variable_match(
    sig: Seq<SymbolMembers>,
    heap: Seq<DagNode>,
    index: i32,
    sort: Sort,
    copy: bool,
    subject: usize,
    sol: Seq<MaybeDagNode>,
) -> MatchResult {
    match binding(sol, index as int) {
        Some(e) => MatchResult { defined: true, ok: dags_equal(sig, heap, subject, e), heap, sol },
        None => if !check_sort_defined(sig, heap, subject) {
            undefined_match(heap, sol)
        } else {
            let checked = check_sort_result(sig, heap, subject, sort);
            let h1 = checked.1;
            if !(checked.0 is Success) {
                failed_match(h1, sol)
            } else if index < 0 || index >= sol.len() {
                undefined_match(h1, sol)
            } else if copy {
                MatchResult {
                    defined: true,
                    ok: true,
                    heap: h1.push(shallow_copy_node(h1[subject as int])),
                    sol: sol.update(index as int, Some(h1.len() as usize)),
                }
            } else {
                MatchResult { defined: true, ok: true, heap: h1, sol: sol.update(index as int, Some(subject)) }
            }
        },
    }
}

/// The node in slot `position` exists and has an argument `arg_index`.
pub open spec fn slot_ok(heap: Seq<DagNode>, slots: Seq<usize>, position: i32, arg_index: i32) -> bool {
    &&& 0 <= position < slots.len()
    &&& 0 <= arg_index < args_len_at(heap, slots[position as int])
}

/// Argument `arg_index` of the node in slot `position`.
pub open spec fn slot_node(heap: Seq<DagNode>, slots: Seq<usize>, position: i32, arg_index: i32) -> usize {
    arg_at(heap, slots[position as int], arg_index as int)
}

/// The state after the skeleton phase: the nodes in the slots and the bindings.
pub struct SkeletonResult {
    pub defined: bool,
    pub ok: bool,
    pub slots: Seq<usize>,
    pub sol: Seq<MaybeDagNode>,
}

/// The skeleton phase from subterm `i` on: each subterm's node must have the subterm's symbol;
/// it is bound to the save index, if any, and takes the next slot if its symbol has arguments.
pub open spec fn skeleton_from(
    sig: Seq<SymbolMembers>,
    heap: Seq<DagNode>,
    subterms: Seq<FreeSubterm>,
    slot_count: int,
    i: int,
    slots: Seq<usize>,
    sol: Seq<MaybeDagNode>,
) -> SkeletonResult
    decreases subterms.len() - i,
{
    if i < 0 || i >= subterms.len() {
        SkeletonResult { defined: true, ok: true, slots, sol }
    } else {
        let t = subterms[i];
        if !slot_ok(heap, slots, t.position, t.arg_index) {
            SkeletonResult { defined: false, ok: false, slots, sol }
        } else {
            let d = slot_node(heap, slots, t.position, t.arg_index);
            let arity = sig[t.symbol as int].arity;
            if hash_at(sig, heap, d) != sig[t.symbol as int].hash_value {
                SkeletonResult { defined: true, ok: false, slots, sol }
            } else if t.save_index != NONE && (t.save_index < 0 || t.save_index >= sol.len()) {
                SkeletonResult { defined: false, ok: false, slots, sol }
            } else if arity != 0 && slots.len() >= slot_count {
                SkeletonResult { defined: false, ok: false, slots, sol }
            } else {
                let sol1 = if t.save_index != NONE {
                    sol.update(t.save_index as int, Some(d))
                } else {
                    sol
                };
                let slots1 = if arity != 0 {
                    slots.push(d)
                } else {
                    slots
                };
                skeleton_from(sig, heap, subterms, slot_count, i + 1, slots1, sol1)
            }
        }
    }
}

/// The state after a phase that can only bind variables.
pub struct PhaseResult {
    pub defined: bool,
    pub ok: bool,
    pub sol: Seq<MaybeDagNode>,
}

/// The phase of the uncertain variables from `i` on: a bound variable's node must equal its
/// binding; an unbound variable's node must have a known sort below the variable's, and is bound.
pub open spec fn uncertain_from(
    sig: Seq<SymbolMembers>,
    heap: Seq<DagNode>,
    vars: Seq<FreeVariable>,
    slots: Seq<usize>,
    i: int,
    sol: Seq<MaybeDagNode>,
) -> PhaseResult
    decreases vars.len() - i,
{
    if i < 0 || i >= vars.len() {
        PhaseResult { defined: true, ok: true, sol }
    } else {
        let v = vars[i];
        if !slot_ok(heap, slots, v.position, v.arg_index) {
            PhaseResult { defined: false, ok: false, sol }
        } else {
            let d = slot_node(heap, slots, v.position, v.arg_index);
            match binding(sol, v.var_index as int) {
                None => if sort_index_at(heap, d) == SORT_UNKNOWN {
                    PhaseResult { defined: false, ok: false, sol }
                } else if !index_leq_sort(sort_index_at(heap, d) as int, v.sort) {
                    PhaseResult { defined: true, ok: false, sol }
                } else if v.var_index < 0 || v.var_index >= sol.len() {
                    PhaseResult { defined: false, ok: false, sol }
                } else {
                    uncertain_from(sig, heap, vars, slots, i + 1, sol.update(v.var_index as int, Some(d)))
                },
                Some(b) => if dags_equal(sig, heap, d, b) {
                    uncertain_from(sig, heap, vars, slots, i + 1, sol)
                } else {
                    PhaseResult { defined: true, ok: false, sol }
                },
            }
        }
    }
}

/// The phase of the bound variables from `i` on: each node must equal the variable's binding.
pub open spec fn bound_from(
    sig: Seq<SymbolMembers>,
    heap: Seq<DagNode>,
    vars: Seq<BoundVariable>,
    slots: Seq<usize>,
    i: int,
    sol: Seq<MaybeDagNode>,
) -> PhaseResult
    decreases vars.len() - i,
{
    if i < 0 || i >= vars.len() {
        PhaseResult { defined: true, ok: true, sol }
    } else {
        let v = vars[i];
        if !slot_ok(heap, slots, v.position, v.arg_index) {
            PhaseResult { defined: false, ok: false, sol }
        } else {
            match binding(sol, v.var_index as int) {
                None => PhaseResult { defined: false, ok: false, sol },
                Some(b) => if dags_equal(sig, heap, slot_node(heap, slots, v.position, v.arg_index), b) {
                    bound_from(sig, heap, vars, slots, i + 1, sol)
                } else {
                    PhaseResult { defined: true, ok: false, sol }
                },
            }
        }
    }
}

/// The phase of the ground aliens from `i` on: each node must equal the alien term.
pub open spec fn ground_from(
    sig: Seq<SymbolMembers>,
    ts: Seq<Term>,
    heap: Seq<DagNode>,
    aliens: Seq<GroundAlien>,
    slots: Seq<usize>,
    i: int,
    sol: Seq<MaybeDagNode>,
) -> PhaseResult
    decreases aliens.len() - i,
{
    if i < 0 || i >= aliens.len() {
        PhaseResult { defined: true, ok: true, sol }
    } else {
        let g = aliens[i];
        if !slot_ok(heap, slots, g.position, g.arg_index) {
            PhaseResult { defined: false, ok: false, sol }
        } else if term_dag_equal(sig, ts, heap, g.alien, slot_node(heap, slots, g.position, g.arg_index)) {
            ground_from(sig, ts, heap, aliens, slots, i + 1, sol)
        } else {
            PhaseResult { defined: true, ok: false, sol }
        }
    }
}

/// Matching `subject` against automaton `a`.
pub open spec fn lhs_match(
    sig: Seq<SymbolMembers>,
    ts: Seq<Term>,
    a: LHSAutomaton,
    subject: usize,
    heap: Seq<DagNode>,
    sol: Seq<MaybeDagNode>,
) -> MatchResult
    decreases a, 0int,
{
    match a {
        LHSAutomaton::Variable(v) => variable_match(sig, heap, v.index, v.sort, v.copy_to_avoid_overwriting, subject, sol),
        LHSAutomaton::Free(f) => free_match(sig, ts, f, subject, heap, sol),
        LHSAutomaton::Binding(b) => {
            let m = lhs_match(sig, ts, *b.real_automaton, subject, heap, sol);
            if !m.defined || !m.ok {
                m
            } else if b.variable_index < 0 || b.variable_index >= m.sol.len() {
                undefined_match(m.heap, m.sol)
            } else {
                MatchResult { defined: true, ok: true, heap: m.heap, sol: m.sol.update(b.variable_index as int, Some(subject)) }
            }
        },
    }
}

/// Matching `subject` against free automaton `f`: the top symbol, then the phases in order;
/// the first that fails ends the match, keeping the bindings made so far.
pub open spec fn free_match(
    sig: Seq<SymbolMembers>,
    ts: Seq<Term>,
    f: FreeLHSAutomaton,
    subject: usize,
    heap: Seq<DagNode>,
    sol: Seq<MaybeDagNode>,
) -> MatchResult
    decreases f, f.non_ground_aliens@.len() + 1,
{
    if hash_at(sig, heap, subject) != sig[f.top_symbol as int].hash_value {
        failed_match(heap, sol)
    } else if sig[f.top_symbol as int].arity == 0 {
        MatchResult { defined: true, ok: true, heap, sol }
    } else if f.stack@.len() == 0 {
        undefined_match(heap, sol)
    } else {
        let sk = skeleton_from(sig, heap, f.free_subterms@, f.stack@.len() as int, 0, seq![subject], sol);
        if !sk.defined {
            undefined_match(heap, sk.sol)
        } else if !sk.ok {
            failed_match(heap, sk.sol)
        } else {
            let u = uncertain_from(sig, heap, f.uncertain_variables@, sk.slots, 0, sk.sol);
            let b = bound_from(sig, heap, f.bound_variables@, sk.slots, 0, u.sol);
            let g = ground_from(sig, ts, heap, f.ground_aliens@, sk.slots, 0, u.sol);
            if !u.defined {
                undefined_match(heap, u.sol)
            } else if !u.ok {
                failed_match(heap, u.sol)
            } else if !b.defined {
                undefined_match(heap, u.sol)
            } else if !b.ok {
                failed_match(heap, u.sol)
            } else if !g.defined {
                undefined_match(heap, u.sol)
            } else if !g.ok {
                failed_match(heap, u.sol)
            } else if f.non_ground_aliens@.len() == 0 {
                undefined_match(heap, u.sol)
            } else {
                nga_from(sig, ts, f, heap, sk.slots, 0, heap, u.sol)
            }
        }
    }
}

/// The phase of the non-ground aliens from `i` on: each node (taken from the argument lists of
/// the slots as they were before the phase) is matched by the alien's automaton, which threads
/// the heap and the bindings.
pub open spec fn nga_from(
    sig: Seq<SymbolMembers>,
    ts: Seq<Term>,
    f: FreeLHSAutomaton,
    heap0: Seq<DagNode>,
    slots: Seq<usize>,
    i: int,
    heap: Seq<DagNode>,
    sol: Seq<MaybeDagNode>,
) -> MatchResult
    decreases f, f.non_ground_aliens@.len() - i,
{
    if i < 0 || i >= f.non_ground_aliens@.len() {
        MatchResult { defined: true, ok: true, heap, sol }
    } else {
        let n = f.non_ground_aliens@[i];
        if !slot_ok(heap0, slots, n.position, n.arg_index) {
            undefined_match(heap, sol)
        } else {
            proof {
                assert(decreases_to!(f => f.non_ground_aliens));
                assert(decreases_to!(f.non_ground_aliens => f.non_ground_aliens@));
                assert(decreases_to!(f.non_ground_aliens@ => f.non_ground_aliens@[i]));
            }
            let m = lhs_match(sig, ts, n.automaton, slot_node(heap0, slots, n.position, n.arg_index), heap, sol);
            if !m.defined || !m.ok {
                m
            } else {
                nga_from(sig, ts, f, heap0, slots, i + 1, m.heap, m.sol)
            }
        }
    }
}


/// A skeleton subterm is well formed: its symbol exists and its save index is `NONE` or a
/// variable index.
pub open spec fn subterm_wf(sig: Seq<SymbolMembers>, t: FreeSubterm) -> bool {
    &&& t.symbol < sig.len()
    &&& (t.save_index == NONE || t.save_index >= 0)
}

/// An automaton is well formed for a signature and a store of `term_count` terms: its symbols
/// exist, the top symbol of a free automaton is not a variable symbol, variable indices are
/// not negative and ground aliens are terms of the store.
pub open spec fn lhs_wf(sig: Seq<SymbolMembers>, term_count: nat, a: LHSAutomaton) -> bool
    decreases a, 0int,
{
    match a {
        LHSAutomaton::Variable(v) => v.index >= 0,
        LHSAutomaton::Free(f) => free_wf(sig, term_count, f),
        LHSAutomaton::Binding(b) => b.variable_index >= 0 && lhs_wf(sig, term_count, *b.real_automaton),
    }
}

pub open spec fn free_wf(sig: Seq<SymbolMembers>, term_count: nat, f: FreeLHSAutomaton) -> bool
    decreases f, 1int,
{
    &&& f.top_symbol < sig.len()
    &&& !sig[f.top_symbol as int].is_variable
    &&& forall|j: int| 0 <= j < f.free_subterms@.len() ==> subterm_wf(sig, #[trigger] f.free_subterms@[j])
    &&& forall|j: int| 0 <= j < f.uncertain_variables@.len() ==> (#[trigger] f.uncertain_variables@[j]).var_index >= 0
    &&& forall|j: int| 0 <= j < f.bound_variables@.len() ==> (#[trigger] f.bound_variables@[j]).var_index >= 0
    &&& forall|j: int| 0 <= j < f.ground_aliens@.len() ==> (#[trigger] f.ground_aliens@[j]).alien < term_count
    &&& forall|j: int| 0 <= j < f.non_ground_aliens@.len() ==> lhs_wf(sig, term_count, #[trigger] f.non_ground_aliens@[j].automaton)
}

/// Two automata are the same pattern: they differ at most in the contents of their stacks.
pub open spec fn same_pattern(a1: LHSAutomaton, a2: LHSAutomaton) -> bool
    decreases a1, 0int,
{
    match a1 {
        LHSAutomaton::Variable(_) => a2 == a1,
        LHSAutomaton::Free(f1) => match a2 {
            LHSAutomaton::Free(f2) => same_free_pattern(f1, f2),
            _ => false,
        },
        LHSAutomaton::Binding(b1) => match a2 {
            LHSAutomaton::Binding(b2) => b2.variable_index == b1.variable_index && same_pattern(*b1.real_automaton, *b2.real_automaton),
            _ => false,
        },
    }
}

pub open spec fn same_free_pattern(f1: FreeLHSAutomaton, f2: FreeLHSAutomaton) -> bool
    decreases f1, 1int,
{
    &&& f2.top_symbol == f1.top_symbol
    &&& f2.stack@.len() == f1.stack@.len()
    &&& f2.free_subterms@ == f1.free_subterms@
    &&& f2.uncertain_variables@ == f1.uncertain_variables@
    &&& f2.bound_variables@ == f1.bound_variables@
    &&& f2.ground_aliens@ == f1.ground_aliens@
    &&& f2.non_ground_aliens@.len() == f1.non_ground_aliens@.len()
    &&& forall|j: int| 0 <= j < f1.non_ground_aliens@.len() ==> {
        &&& (#[trigger] f2.non_ground_aliens@[j]).position == f1.non_ground_aliens@[j].position
        &&& f2.non_ground_aliens@[j].arg_index == f1.non_ground_aliens@[j].arg_index
        &&& same_pattern(f1.non_ground_aliens@[j].automaton, f2.non_ground_aliens@[j].automaton)
    }
}

/// Every automaton is the same pattern as itself.
pub proof fn lemma_same_pattern_refl(a: LHSAutomaton)
    ensures
        same_pattern(a, a),
    decreases a, 0int,
{
    match a {
        LHSAutomaton::Free(f) => lemma_same_free_pattern_refl(f),
        LHSAutomaton::Variable(_) => {},
        LHSAutomaton::Binding(b) => lemma_same_pattern_refl(*b.real_automaton),
    }
}

pub proof fn lemma_same_free_pattern_refl(f: FreeLHSAutomaton)
    ensures
        same_free_pattern(f, f),
    decreases f, 1int,
{
    assert forall|j: int| 0 <= j < f.non_ground_aliens@.len() implies same_pattern(
        f.non_ground_aliens@[j].automaton,
        f.non_ground_aliens@[j].automaton,
    ) by {
        assert(decreases_to!(f => f.non_ground_aliens));
        assert(decreases_to!(f.non_ground_aliens => f.non_ground_aliens@));
        assert(decreases_to!(f.non_ground_aliens@ => f.non_ground_aliens@[j]));
        lemma_same_pattern_refl(f.non_ground_aliens@[j].automaton);
    }
}

/// Being the same pattern is transitive.
pub proof fn lemma_same_pattern_trans(a1: LHSAutomaton, a2: LHSAutomaton, a3: LHSAutomaton)
    requires
        same_pattern(a1, a2),
        same_pattern(a2, a3),
    ensures
        same_pattern(a1, a3),
    decreases a1, 0int,
{
    match (a1, a2, a3) {
        (LHSAutomaton::Free(f1), LHSAutomaton::Free(f2), LHSAutomaton::Free(f3)) => lemma_same_free_pattern_trans(f1, f2, f3),
        (LHSAutomaton::Binding(b1), LHSAutomaton::Binding(b2), LHSAutomaton::Binding(b3)) => {
            lemma_same_pattern_trans(*b1.real_automaton, *b2.real_automaton, *b3.real_automaton)
        },
        _ => {},
    }
}

pub proof fn lemma_same_free_pattern_trans(f1: FreeLHSAutomaton, f2: FreeLHSAutomaton, f3: FreeLHSAutomaton)
    requires
        same_free_pattern(f1, f2),
        same_free_pattern(f2, f3),
    ensures
        same_free_pattern(f1, f3),
    decreases f1, 1int,
{
    assert forall|j: int| 0 <= j < f1.non_ground_aliens@.len() implies {
        &&& (#[trigger] f3.non_ground_aliens@[j]).position == f1.non_ground_aliens@[j].position
        &&& f3.non_ground_aliens@[j].arg_index == f1.non_ground_aliens@[j].arg_index
        &&& same_pattern(f1.non_ground_aliens@[j].automaton, f3.non_ground_aliens@[j].automaton)
    } by {
        assert(decreases_to!(f1 => f1.non_ground_aliens));
        assert(decreases_to!(f1.non_ground_aliens => f1.non_ground_aliens@));
        assert(decreases_to!(f1.non_ground_aliens@ => f1.non_ground_aliens@[j]));
        assert(f2.non_ground_aliens@[j].position == f1.non_ground_aliens@[j].position);
        lemma_same_pattern_trans(
            f1.non_ground_aliens@[j].automaton,
            f2.non_ground_aliens@[j].automaton,
            f3.non_ground_aliens@[j].automaton,
        );
    }
}

/// The stack holds, in its first slots, the argument lists of the nodes `slots`.
pub open spec fn slots_loaded(heap: Seq<DagNode>, stack: Seq<NodeList>, slots: Seq<usize>) -> bool {
    &&& slots.len() <= stack.len()
    &&& forall|j: int| 0 <= j < slots.len() ==> {
        &&& #[trigger] slots[j] < heap.len()
        &&& stack[j] == members(heap[slots[j] as int]).args
    }
}

/// Whether a successful match leaves a subproblem: a free automaton whose top symbol has
/// arguments does, and a binding automaton whose automaton does.
pub open spec fn returns_subproblem(sig: Seq<SymbolMembers>, a: LHSAutomaton) -> bool
    decreases a,
{
    match a {
        LHSAutomaton::Free(f) => sig[f.top_symbol as int].arity != 0,
        LHSAutomaton::Variable(_) => false,
        LHSAutomaton::Binding(b) => returns_subproblem(sig, *b.real_automaton),
    }
}

/// Matches `subject` against variable `index` of sort `sort`: an unbound variable is bound to
/// `subject` (or to a shallow copy of it when `copy_to_avoid_overwriting` is set) if the sort
/// check of `subject` succeeds; a bound variable matches a node equal to its binding.
pub fn match_variable(
    sig: &Signature,
    heap: &mut DagHeap,
    subject: usize,
    index: i32,
    sort: &Sort,
    copy_to_avoid_overwriting: bool,
    solution: &mut Substitution,
) -> (r: (bool, MaybeSubproblem))
    requires
        heap_wf(sig.symbols@, old(heap).nodes@),
        subject < old(heap).nodes@.len(),
        index >= 0,
        bindings_in_heap(old(solution).bindings@, old(heap).nodes@.len()),
        variable_match(sig.symbols@, old(heap).nodes@, index, *sort, copy_to_avoid_overwriting, subject, old(solution).bindings@).defined,
    ensures
        matched_as(
            variable_match(sig.symbols@, old(heap).nodes@, index, *sort, copy_to_avoid_overwriting, subject, old(solution).bindings@),
            r.0,
            final(heap).nodes@,
            final(solution).bindings@,
        ),
        r.1 is None,
        final(solution).copy_size == old(solution).copy_size,
        heap_wf(sig.symbols@, final(heap).nodes@),
        old(heap).nodes@.len() <= final(heap).nodes@.len(),
        bindings_in_heap(final(solution).bindings@, final(heap).nodes@.len()),
{
    let d = solution.value(index as u32);
    match d {
        None => {
            let ghost h0 = heap.nodes@;
            let outcome = heap.check_sort(sig, subject, sort);
            proof {
                if heap.nodes@ != h0 {
                    lemma_sort_index_update(sig.symbols@, h0, subject, heap.nodes@[subject as int].dag_node_members_spec().sort_index);
                }
            }
            match outcome {
                Outcome::Success => {
                    let node = if copy_to_avoid_overwriting {
                        heap.shallow_copy(sig, subject)
                    } else {
                        subject
                    };
                    solution.bind(index as u32, Some(node));
                    (true, None)
                },
                _ => (false, None),
            }
        },
        Some(existing) => {
            if heap.equal(sig, subject, existing) {
                (true, None)
            } else {
                (false, None)
            }
        },
    }
}

impl VariableLHSAutomaton {
    /// The automaton that matches variable `index` of sort `sort`.
    pub fn new(index: i32, sort: Sort, copy_to_avoid_overwriting: bool) -> (r: VariableLHSAutomaton)
        ensures
            r.index == index,
            r.sort == sort,
            r.copy_to_avoid_overwriting == copy_to_avoid_overwriting,
    {
        VariableLHSAutomaton { index, sort, copy_to_avoid_overwriting }
    }

    /// Matches `subject` against the variable.
    pub fn match_(&self, sig: &Signature, heap: &mut DagHeap, subject: usize, solution: &mut Substitution) -> (r: (bool, MaybeSubproblem))
        requires
            heap_wf(sig.symbols@, old(heap).nodes@),
            subject < old(heap).nodes@.len(),
            self.index >= 0,
            bindings_in_heap(old(solution).bindings@, old(heap).nodes@.len()),
            variable_match(sig.symbols@, old(heap).nodes@, self.index, self.sort, self.copy_to_avoid_overwriting, subject, old(solution).bindings@).defined,
        ensures
            matched_as(
                variable_match(sig.symbols@, old(heap).nodes@, self.index, self.sort, self.copy_to_avoid_overwriting, subject, old(solution).bindings@),
                r.0,
                final(heap).nodes@,
                final(solution).bindings@,
            ),
            r.1 is None,
            final(solution).copy_size == old(solution).copy_size,
            heap_wf(sig.symbols@, final(heap).nodes@),
            old(heap).nodes@.len() <= final(heap).nodes@.len(),
            bindings_in_heap(final(solution).bindings@, final(heap).nodes@.len()),
    {
        match_variable(sig, heap, subject, self.index, &self.sort, self.copy_to_avoid_overwriting, solution)
    }
}


impl LHSAutomaton {
    /// Matches `subject`, extending `solution`; returns whether the match succeeded and the
    /// subproblem left to solve, if any.
    pub fn match_(
        &mut self,
        sig: &Signature,
        terms: &TermStore,
        heap: &mut DagHeap,
        subject: usize,
        solution: &mut Substitution,
    ) -> (r: (bool, MaybeSubproblem))
        requires
            lhs_wf(sig.symbols@, terms.terms@.len(), *old(self)),
            store_wf(sig.symbols@, terms.terms@),
            heap_wf(sig.symbols@, old(heap).nodes@),
            subject < old(heap).nodes@.len(),
            bindings_in_heap(old(solution).bindings@, old(heap).nodes@.len()),
            lhs_match(sig.symbols@, terms.terms@, *old(self), subject, old(heap).nodes@, old(solution).bindings@).defined,
        ensures
            matched_as(
                lhs_match(sig.symbols@, terms.terms@, *old(self), subject, old(heap).nodes@, old(solution).bindings@),
                r.0,
                final(heap).nodes@,
                final(solution).bindings@,
            ),
            (r.1 is Some) == (r.0 && returns_subproblem(sig.symbols@, *old(self))),
            final(solution).copy_size == old(solution).copy_size,
            heap_wf(sig.symbols@, final(heap).nodes@),
            old(heap).nodes@.len() <= final(heap).nodes@.len(),
            bindings_in_heap(final(solution).bindings@, final(heap).nodes@.len()),
            lhs_wf(sig.symbols@, terms.terms@.len(), *final(self)),
            same_pattern(*old(self), *final(self)),
        decreases *old(self), 0int,
    {
        match self {
            LHSAutomaton::Free(f) => f.match_(sig, terms, heap, subject, solution),
            LHSAutomaton::Variable(v) => v.match_(sig, heap, subject, solution),
            LHSAutomaton::Binding(b) => b.match_(sig, terms, heap, subject, solution),
        }
    }
}

impl BindingLHSAutomaton {
    /// The automaton that matches with `real_automaton` and then binds `variable_index`.
    pub fn new(variable_index: i32, real_automaton: LHSAutomaton) -> (r: BindingLHSAutomaton)
        ensures
            r.variable_index == variable_index,
            *r.real_automaton == real_automaton,
    {
        BindingLHSAutomaton { variable_index, real_automaton: Box::new(real_automaton) }
    }

    /// Matches `subject` with the real automaton and, if that succeeds, binds the variable to
    /// `subject`.
    pub fn match_(
        &mut self,
        sig: &Signature,
        terms: &TermStore,
        heap: &mut DagHeap,
        subject: usize,
        solution: &mut Substitution,
    ) -> (r: (bool, MaybeSubproblem))
        requires
            lhs_wf(sig.symbols@, terms.terms@.len(), LHSAutomaton::Binding(*old(self))),
            store_wf(sig.symbols@, terms.terms@),
            heap_wf(sig.symbols@, old(heap).nodes@),
            subject < old(heap).nodes@.len(),
            bindings_in_heap(old(solution).bindings@, old(heap).nodes@.len()),
            lhs_match(sig.symbols@, terms.terms@, LHSAutomaton::Binding(*old(self)), subject, old(heap).nodes@, old(solution).bindings@).defined,
        ensures
            matched_as(
                lhs_match(sig.symbols@, terms.terms@, LHSAutomaton::Binding(*old(self)), subject, old(heap).nodes@, old(solution).bindings@),
                r.0,
                final(heap).nodes@,
                final(solution).bindings@,
            ),
            (r.1 is Some) == (r.0 && returns_subproblem(sig.symbols@, *old(self).real_automaton)),
            final(solution).copy_size == old(solution).copy_size,
            heap_wf(sig.symbols@, final(heap).nodes@),
            old(heap).nodes@.len() <= final(heap).nodes@.len(),
            bindings_in_heap(final(solution).bindings@, final(heap).nodes@.len()),
            lhs_wf(sig.symbols@, terms.terms@.len(), LHSAutomaton::Binding(*final(self))),
            same_pattern(LHSAutomaton::Binding(*old(self)), LHSAutomaton::Binding(*final(self))),
        decreases *old(self), 1int,
    {
        let (ok, subproblem) = self.real_automaton.match_(sig, terms, heap, subject, solution);
        if ok {
            solution.bind(self.variable_index as u32, Some(subject));
        }
        (ok, subproblem)
    }
}

impl FreeLHSAutomaton {
    /// Matches `subject`: its top symbol must be the automaton's; then the skeleton, the
    /// uncertain variables, the bound variables, the ground aliens and the non-ground aliens are
    /// matched in turn against the arguments found through the stack of slots.
    pub fn match_(
        &mut self,
        sig: &Signature,
        terms: &TermStore,
        heap: &mut DagHeap,
        subject: usize,
        solution: &mut Substitution,
    ) -> (r: (bool, MaybeSubproblem))
        requires
            free_wf(sig.symbols@, terms.terms@.len(), *old(self)),
            store_wf(sig.symbols@, terms.terms@),
            heap_wf(sig.symbols@, old(heap).nodes@),
            subject < old(heap).nodes@.len(),
            bindings_in_heap(old(solution).bindings@, old(heap).nodes@.len()),
            free_match(sig.symbols@, terms.terms@, *old(self), subject, old(heap).nodes@, old(solution).bindings@).defined,
        ensures
            matched_as(
                free_match(sig.symbols@, terms.terms@, *old(self), subject, old(heap).nodes@, old(solution).bindings@),
                r.0,
                final(heap).nodes@,
                final(solution).bindings@,
            ),
            (r.1 is Some) == (r.0 && sig.symbols@[old(self).top_symbol as int].arity != 0),
            final(solution).copy_size == old(solution).copy_size,
            heap_wf(sig.symbols@, final(heap).nodes@),
            old(heap).nodes@.len() <= final(heap).nodes@.len(),
            bindings_in_heap(final(solution).bindings@, final(heap).nodes@.len()),
            free_wf(sig.symbols@, terms.terms@.len(), *final(self)),
            same_free_pattern(*old(self), *final(self)),
        decreases *old(self), 1int,
    {
        let ghost f0 = *self;
        let ghost heap0 = heap.nodes@;
        let ghost sol0 = solution.bindings@;
        proof {
            lemma_same_free_pattern_refl(f0);
            assert(node_wf(sig.symbols@, heap0[subject as int], subject as int));
        }
        if heap.symbol_hash_of(sig, subject) != sig.symbols[self.top_symbol].semantic_hash() {
            return (false, None);
        }
        if sig.symbols[self.top_symbol].arity == 0 {
            return (true, None);
        }
        let top_args = heap.nodes[subject].dag_node_members().args.new_ref();
        self.stack.set(0, top_args);

        // The skeleton of free symbols.
        let ghost sk = skeleton_from(sig.symbols@, heap0, f0.free_subterms@, f0.stack@.len() as int, 0, seq![subject], sol0);
        let ghost mut slots: Seq<usize> = seq![subject];
        let mut stack_idx: usize = 0;
        let mut k: usize = 0;
        while k < self.free_subterms.len()
            invariant
                f0 == *old(self),
                same_free_pattern(f0, f0),
                heap0 == old(heap).nodes@,
                sol0 == old(solution).bindings@,
                subject < heap0.len(),
                hash_at(sig.symbols@, heap0, subject) == sig.symbols@[f0.top_symbol as int].hash_value,
                sig.symbols@[f0.top_symbol as int].arity != 0,
                sk == skeleton_from(sig.symbols@, heap0, f0.free_subterms@, f0.stack@.len() as int, 0, seq![subject], sol0),
                heap.nodes@ == heap0,
                heap_wf(sig.symbols@, heap0),
                free_wf(sig.symbols@, terms.terms@.len(), f0),
                self.top_symbol == f0.top_symbol,
                self.free_subterms == f0.free_subterms,
                self.uncertain_variables == f0.uncertain_variables,
                self.bound_variables == f0.bound_variables,
                self.ground_aliens == f0.ground_aliens,
                self.non_ground_aliens == f0.non_ground_aliens,
                self.stack@.len() == f0.stack@.len(),
                slots.len() == stack_idx + 1,
                slots_loaded(heap0, self.stack@, slots),
                k <= self.free_subterms@.len(),
                sk.defined,
                skeleton_from(sig.symbols@, heap0, f0.free_subterms@, f0.stack@.len() as int, k as int, slots, solution.bindings@) == sk,
                solution.copy_size == old(solution).copy_size,
                bindings_in_heap(solution.bindings@, heap0.len()),
            decreases self.free_subterms@.len() - k,
        {
            let t = self.free_subterms[k];
            assert(subterm_wf(sig.symbols@, f0.free_subterms@[k as int]));
            let ghost slot = slots[t.position as int];
            assert(node_wf(sig.symbols@, heap0[slot as int], slot as int));
            assert(node_list_items(self.stack@[t.position as int]) == node_args(heap0[slot as int]));
            let d = self.stack[t.position as usize].get(t.arg_index as usize);
            assert(node_wf(sig.symbols@, heap0[d as int], d as int));
            if heap.symbol_hash_of(sig, d) != sig.symbols[t.symbol].semantic_hash() {
                return (false, None);
            }
            if t.save_index != NONE {
                solution.bind(t.save_index as u32, Some(d));
            }
            if sig.symbols[t.symbol].arity != 0 {
                assert(slots.len() < self.stack@.len());
                assert(self.stack@.len() == self.stack.len());
                stack_idx = stack_idx + 1;
                let l = heap.nodes[d].dag_node_members().args.new_ref();
                self.stack.set(stack_idx, l);
                proof {
                    slots = slots.push(d);
                }
            }
            k = k + 1;
        }

        // The variables that may or may not be bound.
        let ghost u = uncertain_from(sig.symbols@, heap0, f0.uncertain_variables@, slots, 0, sk.sol);
        let ghost stack1 = self.stack@;
        let mut k: usize = 0;
        while k < self.uncertain_variables.len()
            invariant
                f0 == *old(self),
                same_free_pattern(f0, f0),
                heap0 == old(heap).nodes@,
                sol0 == old(solution).bindings@,
                subject < heap0.len(),
                hash_at(sig.symbols@, heap0, subject) == sig.symbols@[f0.top_symbol as int].hash_value,
                sig.symbols@[f0.top_symbol as int].arity != 0,
                sk == skeleton_from(sig.symbols@, heap0, f0.free_subterms@, f0.stack@.len() as int, 0, seq![subject], sol0),
                heap.nodes@ == heap0,
                heap_wf(sig.symbols@, heap0),
                free_wf(sig.symbols@, terms.terms@.len(), f0),
                self.top_symbol == f0.top_symbol,
                self.free_subterms == f0.free_subterms,
                self.uncertain_variables == f0.uncertain_variables,
                self.bound_variables == f0.bound_variables,
                self.ground_aliens == f0.ground_aliens,
                self.non_ground_aliens == f0.non_ground_aliens,
                self.stack@ == stack1,
                stack1.len() == f0.stack@.len(),
                slots_loaded(heap0, stack1, slots),
                sk.defined,
                sk.ok,
                sk.slots == slots,
                u.defined,
                u == uncertain_from(sig.symbols@, heap0, f0.uncertain_variables@, slots, 0, sk.sol),
                k <= self.uncertain_variables@.len(),
                uncertain_from(sig.symbols@, heap0, f0.uncertain_variables@, slots, k as int, solution.bindings@) == u,
                solution.copy_size == old(solution).copy_size,
                bindings_in_heap(solution.bindings@, heap0.len()),
            decreases self.uncertain_variables@.len() - k,
        {
            let v = &self.uncertain_variables[k];
            assert(f0.uncertain_variables@[k as int].var_index >= 0);
            let ghost slot = slots[v.position as int];
            assert(node_wf(sig.symbols@, heap0[slot as int], slot as int));
            assert(node_list_items(self.stack@[v.position as int]) == node_args(heap0[slot as int]));
            let d = self.stack[v.position as usize].get(v.arg_index as usize);
            let b = solution.get(v.var_index as usize);
            match b {
                None => {
                    if heap.leq_sort(d, &v.sort) {
                        solution.bind(v.var_index as u32, Some(d));
                    } else {
                        return (false, None);
                    }
                },
                Some(e) => {
                    if !heap.equal(sig, d, e) {
                        return (false, None);
                    }
                },
            }
            k = k + 1;
        }

        // The variables that are bound for sure.
        let ghost b = bound_from(sig.symbols@, heap0, f0.bound_variables@, slots, 0, u.sol);
        let mut k: usize = 0;
        while k < self.bound_variables.len()
            invariant
                f0 == *old(self),
                same_free_pattern(f0, f0),
                heap0 == old(heap).nodes@,
                sol0 == old(solution).bindings@,
                subject < heap0.len(),
                hash_at(sig.symbols@, heap0, subject) == sig.symbols@[f0.top_symbol as int].hash_value,
                sig.symbols@[f0.top_symbol as int].arity != 0,
                sk == skeleton_from(sig.symbols@, heap0, f0.free_subterms@, f0.stack@.len() as int, 0, seq![subject], sol0),
                heap.nodes@ == heap0,
                heap_wf(sig.symbols@, heap0),
                free_wf(sig.symbols@, terms.terms@.len(), f0),
                self.top_symbol == f0.top_symbol,
                self.free_subterms == f0.free_subterms,
                self.uncertain_variables == f0.uncertain_variables,
                self.bound_variables == f0.bound_variables,
                self.ground_aliens == f0.ground_aliens,
                self.non_ground_aliens == f0.non_ground_aliens,
                self.stack@ == stack1,
                stack1.len() == f0.stack@.len(),
                slots_loaded(heap0, stack1, slots),
                sk.defined,
                sk.ok,
                sk.slots == slots,
                u.defined,
                u.ok,
                solution.bindings@ == u.sol,
                b.defined,
                u == uncertain_from(sig.symbols@, heap0, f0.uncertain_variables@, slots, 0, sk.sol),
                b == bound_from(sig.symbols@, heap0, f0.bound_variables@, slots, 0, u.sol),
                k <= self.bound_variables@.len(),
                bound_from(sig.symbols@, heap0, f0.bound_variables@, slots, k as int, u.sol) == b,
                solution.copy_size == old(solution).copy_size,
                bindings_in_heap(solution.bindings@, heap0.len()),
            decreases self.bound_variables@.len() - k,
        {
            let v = self.bound_variables[k];
            assert(f0.bound_variables@[k as int].var_index >= 0);
            let ghost slot = slots[v.position as int];
            assert(node_wf(sig.symbols@, heap0[slot as int], slot as int));
            assert(node_list_items(self.stack@[v.position as int]) == node_args(heap0[slot as int]));
            let d = self.stack[v.position as usize].get(v.arg_index as usize);
            let e = solution.get(v.var_index as usize).unwrap();
            if !heap.equal(sig, d, e) {
                return (false, None);
            }
            k = k + 1;
        }

        // The ground subterms of other theories.
        let ghost g = ground_from(sig.symbols@, terms.terms@, heap0, f0.ground_aliens@, slots, 0, u.sol);
        let mut k: usize = 0;
        while k < self.ground_aliens.len()
            invariant
                f0 == *old(self),
                same_free_pattern(f0, f0),
                heap0 == old(heap).nodes@,
                sol0 == old(solution).bindings@,
                subject < heap0.len(),
                hash_at(sig.symbols@, heap0, subject) == sig.symbols@[f0.top_symbol as int].hash_value,
                sig.symbols@[f0.top_symbol as int].arity != 0,
                sk == skeleton_from(sig.symbols@, heap0, f0.free_subterms@, f0.stack@.len() as int, 0, seq![subject], sol0),
                heap.nodes@ == heap0,
                heap_wf(sig.symbols@, heap0),
                store_wf(sig.symbols@, terms.terms@),
                free_wf(sig.symbols@, terms.terms@.len(), f0),
                self.top_symbol == f0.top_symbol,
                self.free_subterms == f0.free_subterms,
                self.uncertain_variables == f0.uncertain_variables,
                self.bound_variables == f0.bound_variables,
                self.ground_aliens == f0.ground_aliens,
                self.non_ground_aliens == f0.non_ground_aliens,
                self.stack@ == stack1,
                stack1.len() == f0.stack@.len(),
                slots_loaded(heap0, stack1, slots),
                sk.defined,
                sk.ok,
                sk.slots == slots,
                u.defined,
                u.ok,
                solution.bindings@ == u.sol,
                b.defined,
                b.ok,
                g.defined,
                u == uncertain_from(sig.symbols@, heap0, f0.uncertain_variables@, slots, 0, sk.sol),
                b == bound_from(sig.symbols@, heap0, f0.bound_variables@, slots, 0, u.sol),
                g == ground_from(sig.symbols@, terms.terms@, heap0, f0.ground_aliens@, slots, 0, u.sol),
                k <= self.ground_aliens@.len(),
                ground_from(sig.symbols@, terms.terms@, heap0, f0.ground_aliens@, slots, k as int, u.sol) == g,
                solution.copy_size == old(solution).copy_size,
                bindings_in_heap(solution.bindings@, heap0.len()),
            decreases self.ground_aliens@.len() - k,
        {
            let a = self.ground_aliens[k];
            assert(f0.ground_aliens@[k as int].alien < terms.terms@.len());
            let ghost slot = slots[a.position as int];
            assert(node_wf(sig.symbols@, heap0[slot as int], slot as int));
            assert(node_list_items(self.stack@[a.position as int]) == node_args(heap0[slot as int]));
            let d = self.stack[a.position as usize].get(a.arg_index as usize);
            if !terms.equal_dag_node(sig, heap, a.alien, d) {
                return (false, None);
            }
            k = k + 1;
        }

        // The non-ground subterms of other theories, each with its own automaton.
        let ghost total = nga_from(sig.symbols@, terms.terms@, f0, heap0, slots, 0, heap0, u.sol);
        let mut subproblems = SubproblemSequence::new();
        let mut k: usize = 0;
        while k < self.non_ground_aliens.len()
            invariant
                f0 == *old(self),
                same_free_pattern(f0, f0),
                heap0 == old(heap).nodes@,
                sol0 == old(solution).bindings@,
                subject < heap0.len(),
                hash_at(sig.symbols@, heap0, subject) == sig.symbols@[f0.top_symbol as int].hash_value,
                sig.symbols@[f0.top_symbol as int].arity != 0,
                sk == skeleton_from(sig.symbols@, heap0, f0.free_subterms@, f0.stack@.len() as int, 0, seq![subject], sol0),
                heap_wf(sig.symbols@, heap.nodes@),
                heap0.len() <= heap.nodes@.len(),
                store_wf(sig.symbols@, terms.terms@),
                free_wf(sig.symbols@, terms.terms@.len(), f0),
                f0.non_ground_aliens@.len() > 0,
                self.top_symbol == f0.top_symbol,
                self.free_subterms == f0.free_subterms,
                self.uncertain_variables == f0.uncertain_variables,
                self.bound_variables == f0.bound_variables,
                self.ground_aliens == f0.ground_aliens,
                self.non_ground_aliens@.len() == f0.non_ground_aliens@.len(),
                forall|j: int| k <= j < f0.non_ground_aliens@.len() ==> #[trigger] self.non_ground_aliens@[j] == f0.non_ground_aliens@[j],
                forall|j: int| 0 <= j < k ==> {
                    &&& (#[trigger] self.non_ground_aliens@[j]).position == f0.non_ground_aliens@[j].position
                    &&& self.non_ground_aliens@[j].arg_index == f0.non_ground_aliens@[j].arg_index
                    &&& same_pattern(f0.non_ground_aliens@[j].automaton, self.non_ground_aliens@[j].automaton)
                    &&& lhs_wf(sig.symbols@, terms.terms@.len(), self.non_ground_aliens@[j].automaton)
                },
                self.stack@ == stack1,
                stack1.len() == f0.stack@.len(),
                slots_loaded(heap0, stack1, slots),
                total.defined,
                heap_wf(sig.symbols@, heap0),
                sk.defined,
                sk.ok,
                sk.slots == slots,
                u == uncertain_from(sig.symbols@, heap0, f0.uncertain_variables@, slots, 0, sk.sol),
                b == bound_from(sig.symbols@, heap0, f0.bound_variables@, slots, 0, u.sol),
                g == ground_from(sig.symbols@, terms.terms@, heap0, f0.ground_aliens@, slots, 0, u.sol),
                u.defined && u.ok && b.defined && b.ok && g.defined && g.ok,
                total == nga_from(sig.symbols@, terms.terms@, f0, heap0, slots, 0, heap0, u.sol),
                k <= self.non_ground_aliens@.len(),
                nga_from(sig.symbols@, terms.terms@, f0, heap0, slots, k as int, heap.nodes@, solution.bindings@) == total,
                solution.copy_size == old(solution).copy_size,
                bindings_in_heap(solution.bindings@, heap.nodes@.len()),
            decreases self.non_ground_aliens@.len() - k,
        {
            let ghost n = f0.non_ground_aliens@[k as int];
            assert(self.non_ground_aliens@[k as int] == n);
            assert(lhs_wf(sig.symbols@, terms.terms@.len(), n.automaton));
            let pos = self.non_ground_aliens[k].position;
            let arg = self.non_ground_aliens[k].arg_index;
            let ghost slot = slots[pos as int];
            assert(node_wf(sig.symbols@, heap0[slot as int], slot as int));
            assert(node_list_items(self.stack@[pos as int]) == node_args(heap0[slot as int]));
            let d = self.stack[pos as usize].get(arg as usize);
            proof {
                assert(decreases_to!(f0 => f0.non_ground_aliens));
                assert(decreases_to!(f0.non_ground_aliens => f0.non_ground_aliens@));
                assert(decreases_to!(f0.non_ground_aliens@ => f0.non_ground_aliens@[k as int]));
                assert(decreases_to!(f0.non_ground_aliens@[k as int] => f0.non_ground_aliens@[k as int].automaton));
                assert(decreases_to!(f0 => f0.non_ground_aliens@[k as int].automaton));
            }
            let (ok, sp) = self.non_ground_aliens[k].automaton.match_(sig, terms, heap, d, solution);
            if !ok {
                proof {
                    assert forall|j: int| k < j < f0.non_ground_aliens@.len() implies same_pattern(
                        f0.non_ground_aliens@[j].automaton,
                        self.non_ground_aliens@[j].automaton,
                    ) by {
                        lemma_same_pattern_refl(f0.non_ground_aliens@[j].automaton);
                    }
                    assert(same_free_pattern(f0, *self));
                }
                return (false, None);
            }
            match sp {
                Some(p) => subproblems.add(p),
                None => {},
            }
            k = k + 1;
        }
        assert(same_free_pattern(f0, *self));
        (true, Some(subproblems.extract_subproblem()))
    }
}


/// Matching depends on the pattern of an automaton alone, not on what its stacks hold: two
/// automata of the same pattern match every subject in every state alike. Since a match keeps
/// the pattern of its automaton, matching again gives what the first match gave.
pub proof fn lemma_same_pattern_match(
    sig: Seq<SymbolMembers>,
    ts: Seq<Term>,
    a1: LHSAutomaton,
    a2: LHSAutomaton,
    subject: usize,
    heap: Seq<DagNode>,
    sol: Seq<MaybeDagNode>,
)
    requires
        same_pattern(a1, a2),
    ensures
        lhs_match(sig, ts, a1, subject, heap, sol) == lhs_match(sig, ts, a2, subject, heap, sol),
    decreases a1, 0int,
{
    match a1 {
        LHSAutomaton::Free(f1) => {
            let f2 = a2->Free_0;
            lemma_same_free_pattern_match(sig, ts, f1, f2, subject, heap, sol);
        },
        LHSAutomaton::Variable(_) => {},
        LHSAutomaton::Binding(b1) => {
            let b2 = a2->Binding_0;
            lemma_same_pattern_match(sig, ts, *b1.real_automaton, *b2.real_automaton, subject, heap, sol);
        },
    }
}

proof fn lemma_same_free_pattern_match(
    sig: Seq<SymbolMembers>,
    ts: Seq<Term>,
    f1: FreeLHSAutomaton,
    f2: FreeLHSAutomaton,
    subject: usize,
    heap: Seq<DagNode>,
    sol: Seq<MaybeDagNode>,
)
    requires
        same_free_pattern(f1, f2),
    ensures
        free_match(sig, ts, f1, subject, heap, sol) == free_match(sig, ts, f2, subject, heap, sol),
    decreases f1, f1.non_ground_aliens@.len() + 1,
{
    let sk = skeleton_from(sig, heap, f1.free_subterms@, f1.stack@.len() as int, 0, seq![subject], sol);
    let u = uncertain_from(sig, heap, f1.uncertain_variables@, sk.slots, 0, sk.sol);
    lemma_same_nga_match(sig, ts, f1, f2, heap, sk.slots, 0, heap, u.sol);
}

proof fn lemma_same_nga_match(
    sig: Seq<SymbolMembers>,
    ts: Seq<Term>,
    f1: FreeLHSAutomaton,
    f2: FreeLHSAutomaton,
    heap0: Seq<DagNode>,
    slots: Seq<usize>,
    i: int,
    heap: Seq<DagNode>,
    sol: Seq<MaybeDagNode>,
)
    requires
        same_free_pattern(f1, f2),
    ensures
        nga_from(sig, ts, f1, heap0, slots, i, heap, sol) == nga_from(sig, ts, f2, heap0, slots, i, heap, sol),
    decreases f1, f1.non_ground_aliens@.len() - i,
{
    if 0 <= i < f1.non_ground_aliens@.len() {
        let n1 = f1.non_ground_aliens@[i];
        let n2 = f2.non_ground_aliens@[i];
        assert(same_pattern(n1.automaton, n2.automaton));
        assert(decreases_to!(f1 => f1.non_ground_aliens));
        assert(decreases_to!(f1.non_ground_aliens => f1.non_ground_aliens@));
        assert(decreases_to!(f1.non_ground_aliens@ => f1.non_ground_aliens@[i]));
        if slot_ok(heap0, slots, n1.position, n1.arg_index) {
            let d = slot_node(heap0, slots, n1.position, n1.arg_index);
            lemma_same_pattern_match(sig, ts, n1.automaton, n2.automaton, d, heap, sol);
            let m = lhs_match(sig, ts, n1.automaton, d, heap, sol);
            lemma_same_nga_match(sig, ts, f1, f2, heap0, slots, i + 1, m.heap, m.sol);
        }
    }
}

} // verus!
