//! Building matching automata from the free skeleton of a pattern.
//!
//! A pattern term is scanned for its free skeleton: the free symbols at its top, each recorded
//! as an occurrence (the index of its parent occurrence, the argument index below that parent,
//! and the term). The subterms directly below the skeleton that are not free are the other
//! occurrences. The automaton gives every skeleton symbol with arguments a slot, in skeleton
//! order, and refers to parents by their slots.
use vstd::prelude::*;
use crate::dag_node::Signature;
use crate::lhs_automaton::{
    BoundVariable, FreeLHSAutomaton, FreeSubterm, FreeVariable, GroundAlien, LHSAutomaton,
    NonGroundAlien,
};
use crate::node_list::{NodeList, node_list_items};
use crate::nat_set::NatSet;
use crate::lhs_automaton::{BindingLHSAutomaton, VariableLHSAutomaton};
use crate::symbol::{NONE, Sort, SymbolMembers};
use crate::term::{FreeTerm, Term, TermAttribute, TermMembers, TermStore, store_wf, term_args, term_wf, tmembers, term_symbol, has_attribute};

verus! {

/// An occurrence of a subterm in a pattern: `position` is the index of the occurrence of its
/// parent in the list of skeleton occurrences, `arg_index` its argument index there.
#[derive(Copy, Clone, Debug, PartialEq, Eq, Structural)]
pub struct FreeOccurrence {
    pub position: i32,
    pub arg_index: i32,
    pub term: usize,
}

impl FreeOccurrence {
    pub fn new(position: i32, arg_index: i32, term: usize) -> (r: FreeOccurrence)
        ensures
            r == (FreeOccurrence { position, arg_index, term }),
    {
        FreeOccurrence { position, arg_index, term }
    }
}

/// The skeleton and other occurrences after scanning term `t`, an argument `arg_index` of the
/// skeleton occurrence `parent`, onto the lists `fs` and `os`.
pub open spec fn scan_skeleton(
    ts: Seq<Term>,
    t: usize,
    parent: i32,
    arg_index: i32,
    fs: Seq<FreeOccurrence>,
    os: Seq<FreeOccurrence>,
) -> (Seq<FreeOccurrence>, Seq<FreeOccurrence>)
    decreases t, term_args(ts[t as int]).len() + 1,
{
    let ours = fs.len() as i32;
    scan_arguments(ts, t, ours, 0, fs.push(FreeOccurrence { position: parent, arg_index, term: t }), os)
}

/// Scanning the arguments of `t` from `k` on, `t` being the skeleton occurrence `ours`: free
/// arguments continue the skeleton, the others are other occurrences.
pub open spec fn scan_arguments(
    ts: Seq<Term>,
    t: usize,
    ours: i32,
    k: int,
    fs: Seq<FreeOccurrence>,
    os: Seq<FreeOccurrence>,
) -> (Seq<FreeOccurrence>, Seq<FreeOccurrence>)
    decreases t, term_args(ts[t as int]).len() - k,
{
    if k < 0 || k >= term_args(ts[t as int]).len() {
        (fs, os)
    } else {
        let a = term_args(ts[t as int])[k];
        if a >= t {
            (fs, os)
        } else if ts[a as int] is Free {
            let scanned = scan_skeleton(ts, a, ours, k as i32, fs, os);
            scan_arguments(ts, t, ours, k + 1, scanned.0, scanned.1)
        } else {
            scan_arguments(ts, t, ours, k + 1, fs, os.push(FreeOccurrence { position: ours, arg_index: k as i32, term: a }))
        }
    }
}

impl TermStore {
    /// Appends the occurrences of the free skeleton of `t` (an argument `arg_index` of skeleton
    /// occurrence `parent`) to `free_symbols`, in preorder, and the subterms directly below
    /// the skeleton that are not free to `other_symbols`.
    pub fn scan_free_skeleton(
        &self,
        sig: &Signature,
        t: usize,
        free_symbols: &mut Vec<FreeOccurrence>,
        other_symbols: &mut Vec<FreeOccurrence>,
        parent: i32,
        arg_index: i32,
    )
        requires
            store_wf(sig.symbols@, self.terms@),
            t < self.terms@.len(),
        ensures
            (final(free_symbols)@, final(other_symbols)@) == scan_skeleton(
                self.terms@,
                t,
                parent,
                arg_index,
                old(free_symbols)@,
                old(other_symbols)@,
            ),
        decreases t,
    {
        let ours = free_symbols.len() as i32;
        free_symbols.push(FreeOccurrence::new(parent, arg_index, t));
        assert(term_wf(sig.symbols@, self.terms@[t as int], t as int));
        let ghost total = scan_arguments(self.terms@, t, ours, 0, free_symbols@, other_symbols@);
        let n = self.arg_count(t);
        let mut k: usize = 0;
        while k < n
            invariant
                store_wf(sig.symbols@, self.terms@),
                t < self.terms@.len(),
                term_wf(sig.symbols@, self.terms@[t as int], t as int),
                n == term_args(self.terms@[t as int]).len(),
                k <= n,
                scan_arguments(self.terms@, t, ours, k as int, free_symbols@, other_symbols@) == total,
            decreases n - k,
        {
            let a = self.arg(t, k);
            match &self.terms[a] {
                Term::Free(_) => {
                    self.scan_free_skeleton(sig, a, free_symbols, other_symbols, ours, k as i32);
                },
                Term::Variable(_) => {
                    other_symbols.push(FreeOccurrence::new(ours, k as i32, a));
                },
            }
            k = k + 1;
        }
    }

    /// The slot index of free term `t`.
    pub fn slot_index_of(&self, t: usize) -> (r: i32)
        requires
            t < self.terms@.len(),
        ensures
            r == term_slot(self.terms@, t),
    {
        match &self.terms[t] {
            Term::Free(f) => f.slot_index,
            Term::Variable(_) => NONE,
        }
    }

    /// Gives free term `t` the slot index `slot`.
    pub fn set_slot_index(&mut self, t: usize, slot: i32)
        requires
            t < old(self).terms@.len(),
        ensures
            final(self).terms@ == old(self).terms@.update(t as int, with_slot(old(self).terms@[t as int], slot)),
    {
        match &mut self.terms[t] {
            Term::Free(f) => {
                f.slot_index = slot;
            },
            Term::Variable(_) => {},
        }
    }

    /// The index of variable `t`.
    pub fn variable_index_of(&self, t: usize) -> (r: i32)
        requires
            t < self.terms@.len(),
        ensures
            r == variable_index(self.terms@, t),
    {
        match &self.terms[t] {
            Term::Free(_) => NONE,
            Term::Variable(v) => v.index,
        }
    }

    /// The sort of variable `t`: the one sort of its symbol's one declaration.
    pub fn variable_sort(&self, sig: &Signature, t: usize) -> (r: Sort)
        requires
            store_wf(sig.symbols@, self.terms@),
            t < self.terms@.len(),
            has_variable_sort(sig.symbols@, self.terms@, t),
        ensures
            r.sort_index == variable_sort(sig.symbols@, self.terms@, t).sort_index,
            r.leq_sorts@ == variable_sort(sig.symbols@, self.terms@, t).leq_sorts@,
            r.fast_geq_sufficient == variable_sort(sig.symbols@, self.terms@, t).fast_geq_sufficient,
            r.error_free_maximal == variable_sort(sig.symbols@, self.terms@, t).error_free_maximal,
    {
        assert(term_wf(sig.symbols@, self.terms@[t as int], t as int));
        let s = self.terms[t].term_members().top_symbol;
        let declarations = &sig.symbols[s].sort_table.op_declarations;
        let declaration = &declarations[0];
        declaration[0].duplicate()
    }
}

/// The slot index of a free term; `NONE` for a variable.
pub open spec fn term_slot(ts: Seq<Term>, t: usize) -> i32 {
    match ts[t as int] {
        Term::Free(f) => f.slot_index,
        Term::Variable(_) => NONE,
    }
}

/// A term with its slot index set, if it is free.
pub open spec fn with_slot(t: Term, slot: i32) -> Term {
    match t {
        Term::Free(f) => Term::Free(FreeTerm { slot_index: slot, ..f }),
        Term::Variable(v) => Term::Variable(v),
    }
}

/// The index of a variable term; `NONE` for a free term.
pub open spec fn variable_index(ts: Seq<Term>, t: usize) -> i32 {
    match ts[t as int] {
        Term::Free(_) => NONE,
        Term::Variable(v) => v.index,
    }
}

/// The symbol of term `t` has exactly one declaration, of exactly one sort.
pub open spec fn has_variable_sort(sig: Seq<SymbolMembers>, ts: Seq<Term>, t: usize) -> bool {
    &&& sig[term_symbol(ts[t as int])].sort_table.op_declarations@.len() == 1
    &&& sig[term_symbol(ts[t as int])].sort_table.op_declarations@[0]@.len() == 1
}

/// The sort of a variable term: the one sort of its symbol's one declaration.
pub open spec fn variable_sort(sig: Seq<SymbolMembers>, ts: Seq<Term>, t: usize) -> Sort {
    sig[term_symbol(ts[t as int])].sort_table.op_declarations@[0]@[0]
}

/// The state of slot assignment: the terms, the number of slots given out, and the skeleton
/// subterms made so far.
pub struct SlotState {
    pub terms: Seq<Term>,
    pub slot_count: int,
    pub subterms: Seq<FreeSubterm>,
}

/// Slot assignment from skeleton occurrence `i` on: each occurrence becomes a skeleton subterm
/// below its parent's slot, and takes the next slot if its symbol has arguments.
pub open spec fn assign_slots_from(
    sig: Seq<SymbolMembers>,
    fs: Seq<FreeOccurrence>,
    i: int,
    st: SlotState,
) -> SlotState
    decreases fs.len() - i,
{
    if i < 0 || i >= fs.len() {
        st
    } else {
        let oc = fs[i];
        let m = tmembers(st.terms[oc.term as int]);
        let sub = FreeSubterm {
            position: term_slot(st.terms, fs[oc.position as int].term),
            arg_index: oc.arg_index,
            symbol: m.top_symbol,
            save_index: m.save_index,
        };
        if sig[m.top_symbol as int].arity > 0 {
            assign_slots_from(sig, fs, i + 1, SlotState {
                terms: st.terms.update(oc.term as int, with_slot(st.terms[oc.term as int], st.slot_count as i32)),
                slot_count: st.slot_count + 1,
                subterms: st.subterms.push(sub),
            })
        } else {
            assign_slots_from(sig, fs, i + 1, SlotState { subterms: st.subterms.push(sub), ..st })
        }
    }
}

/// The slot state after the top occurrence gets slot 0.
pub open spec fn initial_slots(ts: Seq<Term>, fs: Seq<FreeOccurrence>) -> SlotState {
    SlotState {
        terms: ts.update(fs[0].term as int, with_slot(ts[fs[0].term as int], 0)),
        slot_count: 1,
        subterms: Seq::empty(),
    }
}

/// The slot state after all skeleton occurrences are assigned.
pub open spec fn final_slots(sig: Seq<SymbolMembers>, ts: Seq<Term>, fs: Seq<FreeOccurrence>) -> SlotState {
    assign_slots_from(sig, fs, 1, initial_slots(ts, fs))
}

/// An occurrence below the skeleton: its parent is a skeleton occurrence.
pub open spec fn below_skeleton(fs: Seq<FreeOccurrence>, oc: FreeOccurrence) -> bool {
    0 <= oc.position < fs.len()
}

/// The skeleton occurrences are free terms of the store, each below an earlier one.
pub open spec fn skeleton_wf(ts: Seq<Term>, fs: Seq<FreeOccurrence>) -> bool {
    &&& fs.len() > 0
    &&& forall|i: int| 0 <= i < fs.len() ==> {
        &&& (#[trigger] fs[i]).term < ts.len()
        &&& ts[fs[i].term as int] is Free
        &&& (i > 0 ==> below_skeleton(fs, fs[i]))
    }
}

/// Every occurrence is a free term of the store, each but the first below an earlier one.
pub open spec fn occurrences_ok(ts: Seq<Term>, fs: Seq<FreeOccurrence>) -> bool {
    forall|i: int| 0 <= i < fs.len() ==> {
        &&& (#[trigger] fs[i]).term < ts.len()
        &&& ts[fs[i].term as int] is Free
        &&& (i > 0 ==> below_skeleton(fs, fs[i]))
    }
}

/// Scanning a free term's skeleton only adds occurrences, and keeps them well formed as long
/// as their number fits in an `i32`.
proof fn lemma_scan_skeleton_ok(
    ts: Seq<Term>,
    t: usize,
    parent: i32,
    arg_index: i32,
    fs: Seq<FreeOccurrence>,
    os: Seq<FreeOccurrence>,
)
    requires
        t < ts.len(),
        ts[t as int] is Free,
        occurrences_ok(ts, fs),
        fs.len() > 0 ==> 0 <= parent < fs.len(),
    ensures
        scan_skeleton(ts, t, parent, arg_index, fs, os).0.len() > fs.len(),
        scan_skeleton(ts, t, parent, arg_index, fs, os).0.len() < 0x7fff_ffff ==> occurrences_ok(
            ts,
            scan_skeleton(ts, t, parent, arg_index, fs, os).0,
        ),
    decreases t, term_args(ts[t as int]).len() + 1,
{
    let ours = fs.len() as i32;
    let fs2 = fs.push(FreeOccurrence { position: parent, arg_index, term: t });
    lemma_scan_arguments_ok(ts, t, ours, 0, fs2, os);
    let r = scan_arguments(ts, t, ours, 0, fs2, os).0;
    if r.len() < 0x7fff_ffff {
        assert(ours == fs.len());
        assert(occurrences_ok(ts, fs2)) by {
            assert forall|i: int| 0 <= i < fs2.len() implies {
                &&& (#[trigger] fs2[i]).term < ts.len()
                &&& ts[fs2[i].term as int] is Free
                &&& (i > 0 ==> below_skeleton(fs2, fs2[i]))
            } by {
                if i < fs.len() {
                    assert(fs2[i] == fs[i]);
                }
            }
        }
        lemma_scan_arguments_ok(ts, t, ours, 0, fs2, os);
    }
}

proof fn lemma_scan_arguments_ok(
    ts: Seq<Term>,
    t: usize,
    ours: i32,
    k: int,
    fs: Seq<FreeOccurrence>,
    os: Seq<FreeOccurrence>,
)
    requires
        t < ts.len(),
    ensures
        scan_arguments(ts, t, ours, k, fs, os).0.len() >= fs.len(),
        scan_arguments(ts, t, ours, k, fs, os).0.len() < 0x7fff_ffff && occurrences_ok(ts, fs) && 0 <= ours
            < fs.len() ==> occurrences_ok(ts, scan_arguments(ts, t, ours, k, fs, os).0),
    decreases t, term_args(ts[t as int]).len() - k,
{
    if 0 <= k < term_args(ts[t as int]).len() {
        let a = term_args(ts[t as int])[k];
        if a < t {
            if ts[a as int] is Free {
                let scanned = scan_skeleton(ts, a, ours, k as i32, fs, os);
                lemma_scan_arguments_ok(ts, t, ours, k + 1, scanned.0, scanned.1);
                if occurrences_ok(ts, fs) && 0 <= ours < fs.len() {
                    lemma_scan_skeleton_ok(ts, a, ours, k as i32, fs, os);
                } else {
                    lemma_scan_skeleton_len(ts, a, ours, k as i32, fs, os);
                }
            } else {
                lemma_scan_arguments_ok(
                    ts,
                    t,
                    ours,
                    k + 1,
                    fs,
                    os.push(FreeOccurrence { position: ours, arg_index: k as i32, term: a }),
                );
            }
        }
    }
}

/// Scanning a skeleton adds at least one occurrence.
proof fn lemma_scan_skeleton_len(
    ts: Seq<Term>,
    t: usize,
    parent: i32,
    arg_index: i32,
    fs: Seq<FreeOccurrence>,
    os: Seq<FreeOccurrence>,
)
    requires
        t < ts.len(),
    ensures
        scan_skeleton(ts, t, parent, arg_index, fs, os).0.len() > fs.len(),
    decreases t, term_args(ts[t as int]).len() + 1,
{
    let ours = fs.len() as i32;
    let fs2 = fs.push(FreeOccurrence { position: parent, arg_index, term: t });
    lemma_scan_arguments_ok(ts, t, ours, 0, fs2, os);
}

/// The skeleton of a free term is well formed when its size fits in an `i32`.
pub proof fn lemma_skeleton_wf(ts: Seq<Term>, t: usize)
    requires
        t < ts.len(),
        ts[t as int] is Free,
        skeleton_of(ts, t).len() < 0x7fff_ffff,
    ensures
        skeleton_wf(ts, skeleton_of(ts, t)),
{
    lemma_scan_skeleton_ok(ts, t, 0, 0, Seq::empty(), Seq::empty());
}

/// The slot of the parent of an occurrence, once slots are assigned.
pub open spec fn parent_slot(ts: Seq<Term>, fs: Seq<FreeOccurrence>, oc: FreeOccurrence) -> i32 {
    term_slot(ts, fs[oc.position as int].term)
}

/// Only slot indices differ between the two stores.
pub open spec fn same_but_slots(ts1: Seq<Term>, ts2: Seq<Term>) -> bool {
    &&& ts1.len() == ts2.len()
    &&& forall|t: int| 0 <= t < ts1.len() ==> {
        &&& (#[trigger] ts2[t] is Free) == (ts1[t] is Free)
        &&& tmembers(ts2[t]) == tmembers(ts1[t])
        &&& term_args(ts2[t]) == term_args(ts1[t])
        &&& (ts1[t] is Variable ==> ts2[t] == ts1[t])
    }
}


/// A list of occurrences below the skeleton whose terms are variables with a sort.
pub open spec fn variables_below(sig: Seq<SymbolMembers>, ts: Seq<Term>, fs: Seq<FreeOccurrence>, vs: Seq<FreeOccurrence>) -> bool {
    forall|j: int| 0 <= j < vs.len() ==> {
        &&& below_skeleton(fs, #[trigger] vs[j])
        &&& vs[j].term < ts.len()
        &&& ts[vs[j].term as int] is Variable
        &&& has_variable_sort(sig, ts, vs[j].term)
    }
}

/// The automaton that `FreeLHSAutomaton::new` builds from the skeleton `fs`, the uncertain and
/// bound variables `uv` and `bv`, the ground aliens `ga`, the non-ground aliens `nga` in the
/// order `best`, and their automata `sub`, is `r`, with the store `ts` after slot assignment.
pub open spec fn builds_automaton(
    sig: Seq<SymbolMembers>,
    ts0: Seq<Term>,
    ts: Seq<Term>,
    fs: Seq<FreeOccurrence>,
    uv: Seq<FreeOccurrence>,
    bv: Seq<FreeOccurrence>,
    ga: Seq<FreeOccurrence>,
    nga: Seq<FreeOccurrence>,
    best: Seq<u32>,
    sub: Seq<LHSAutomaton>,
    r: FreeLHSAutomaton,
) -> bool {
    let st = final_slots(sig, ts0, fs);
    &&& ts == st.terms
    &&& r.top_symbol == tmembers(ts0[fs[0].term as int]).top_symbol
    &&& r.stack@.len() == st.slot_count
    &&& forall|j: int| 0 <= j < r.stack@.len() ==> node_list_items(#[trigger] r.stack@[j]) == Seq::<usize>::empty()
    &&& r.free_subterms@ == st.subterms
    &&& r.uncertain_variables@.len() == uv.len()
    &&& forall|j: int| 0 <= j < uv.len() ==> {
        &&& (#[trigger] r.uncertain_variables@[j]).position == parent_slot(ts, fs, uv[j])
        &&& r.uncertain_variables@[j].arg_index == uv[j].arg_index
        &&& r.uncertain_variables@[j].var_index == variable_index(ts0, uv[j].term)
        &&& r.uncertain_variables@[j].sort.sort_index == variable_sort(sig, ts0, uv[j].term).sort_index
        &&& r.uncertain_variables@[j].sort.leq_sorts@ == variable_sort(sig, ts0, uv[j].term).leq_sorts@
    }
    &&& r.bound_variables@ == Seq::new(bv.len(), |j: int| BoundVariable {
        position: parent_slot(ts, fs, bv[j]),
        arg_index: bv[j].arg_index,
        var_index: variable_index(ts0, bv[j].term),
    })
    &&& r.ground_aliens@ == Seq::new(ga.len(), |j: int| GroundAlien {
        position: parent_slot(ts, fs, ga[j]),
        arg_index: ga[j].arg_index,
        alien: ga[j].term,
    })
    &&& r.non_ground_aliens@.len() == best.len()
    &&& forall|j: int| 0 <= j < best.len() ==> {
        &&& (#[trigger] r.non_ground_aliens@[j]).position == parent_slot(ts, fs, nga[best[j] as int])
        &&& r.non_ground_aliens@[j].arg_index == nga[best[j] as int].arg_index
        &&& r.non_ground_aliens@[j].automaton == sub[best[j] as int]
    }
}

impl FreeLHSAutomaton {
    /// Builds the automaton for a skeleton. The top occurrence gets slot 0 and every later
    /// skeleton occurrence whose symbol has arguments the next slot (stored in the term); every
    /// entry refers to its parent by the parent's slot. The non-ground aliens come in the order
    /// of `best_sequence`, each with the automaton of `sub_automata` at its index there.
    pub fn new(
        terms: &mut TermStore,
        sig: &Signature,
        free_symbols: &Vec<FreeOccurrence>,
        uncertain_vars: &Vec<FreeOccurrence>,
        bound_vars: &Vec<FreeOccurrence>,
        gnd_aliens: &Vec<FreeOccurrence>,
        non_gnd_aliens: &Vec<FreeOccurrence>,
        best_sequence: &Vec<u32>,
        sub_automata: Vec<LHSAutomaton>,
    ) -> (r: FreeLHSAutomaton)
        requires
            store_wf(sig.symbols@, old(terms).terms@),
            skeleton_wf(old(terms).terms@, free_symbols@),
            free_symbols@.len() < 0x7fff_ffff,
            variables_below(sig.symbols@, old(terms).terms@, free_symbols@, uncertain_vars@),
            forall|j: int| 0 <= j < bound_vars@.len() ==> {
                &&& below_skeleton(free_symbols@, #[trigger] bound_vars@[j])
                &&& bound_vars@[j].term < old(terms).terms@.len()
                &&& old(terms).terms@[bound_vars@[j].term as int] is Variable
            },
            forall|j: int| 0 <= j < gnd_aliens@.len() ==> below_skeleton(free_symbols@, #[trigger] gnd_aliens@[j]),
            forall|j: int| 0 <= j < best_sequence@.len() ==> {
                &&& (#[trigger] best_sequence@[j]) < non_gnd_aliens@.len()
                &&& best_sequence@[j] < sub_automata@.len()
                &&& below_skeleton(free_symbols@, non_gnd_aliens@[best_sequence@[j] as int])
            },
            forall|j: int, k: int| 0 <= j < k < best_sequence@.len() ==> best_sequence@[j] != best_sequence@[k],
        ensures
            builds_automaton(
                sig.symbols@,
                old(terms).terms@,
                final(terms).terms@,
                free_symbols@,
                uncertain_vars@,
                bound_vars@,
                gnd_aliens@,
                non_gnd_aliens@,
                best_sequence@,
                sub_automata@,
                r,
            ),
    {
        let ghost ts0 = terms.terms@;
        let top = free_symbols[0].term;
        let top_symbol = terms.terms[top].term_members().top_symbol;
        terms.set_slot_index(top, 0);
        let mut slot_nr: i32 = 1;

        // The skeleton below the top.
        let ghost st_final = final_slots(sig.symbols@, ts0, free_symbols@);
        let mut free_subterms: Vec<FreeSubterm> = Vec::new();
        let mut i: usize = 1;
        while i < free_symbols.len()
            invariant
                store_wf(sig.symbols@, ts0),
                skeleton_wf(ts0, free_symbols@),
                free_symbols@.len() < 0x7fff_ffff,
                same_but_slots(ts0, terms.terms@),
                1 <= i <= free_symbols@.len(),
                1 <= slot_nr as int <= i,
                st_final == final_slots(sig.symbols@, ts0, free_symbols@),
                assign_slots_from(sig.symbols@, free_symbols@, i as int, SlotState {
                    terms: terms.terms@,
                    slot_count: slot_nr as int,
                    subterms: free_subterms@,
                }) == st_final,
            decreases free_symbols@.len() - i,
        {
            let oc = free_symbols[i];
            assert(free_symbols@[i as int] == oc);
            assert(ts0[oc.term as int] is Free);
            assert(term_wf(sig.symbols@, ts0[oc.term as int], oc.term as int));
            let parent = free_symbols[oc.position as usize].term;
            let m = terms.terms[oc.term].term_members();
            let symbol = m.top_symbol;
            let save_index = m.save_index;
            let position = terms.slot_index_of(parent);
            free_subterms.push(FreeSubterm { position, arg_index: oc.arg_index, symbol, save_index });
            if sig.symbols[symbol].arity > 0 {
                let ghost before = terms.terms@;
                terms.set_slot_index(oc.term, slot_nr);
                slot_nr = slot_nr + 1;
                assert(same_but_slots(ts0, terms.terms@)) by {
                    assert forall|t: int| 0 <= t < ts0.len() implies {
                        &&& (#[trigger] terms.terms@[t] is Free) == (ts0[t] is Free)
                        &&& tmembers(terms.terms@[t]) == tmembers(ts0[t])
                        &&& term_args(terms.terms@[t]) == term_args(ts0[t])
                        &&& (ts0[t] is Variable ==> terms.terms@[t] == ts0[t])
                    } by {
                        assert(before[t] is Free == ts0[t] is Free);
                    }
                }
            }
            i = i + 1;
        }
        let ghost ts = terms.terms@;

        let mut stack: Vec<NodeList> = Vec::new();
        let mut j: i32 = 0;
        while j < slot_nr
            invariant
                0 <= j <= slot_nr,
                stack@.len() == j,
                forall|k: int| 0 <= k < stack@.len() ==> node_list_items(#[trigger] stack@[k]) == Seq::<usize>::empty(),
            decreases slot_nr - j,
        {
            stack.push(NodeList::new());
            j = j + 1;
        }

        // Variables that may be bound.
        let mut uncertain_variables: Vec<FreeVariable> = Vec::new();
        let mut k: usize = 0;
        while k < uncertain_vars.len()
            invariant
                store_wf(sig.symbols@, ts0),
                same_but_slots(ts0, ts),
                terms.terms@ == ts,
                variables_below(sig.symbols@, ts0, free_symbols@, uncertain_vars@),
                skeleton_wf(ts0, free_symbols@),
                k <= uncertain_vars@.len(),
                uncertain_variables@.len() == k,
                forall|j: int| 0 <= j < k ==> {
                    &&& (#[trigger] uncertain_variables@[j]).position == parent_slot(ts, free_symbols@, uncertain_vars@[j])
                    &&& uncertain_variables@[j].arg_index == uncertain_vars@[j].arg_index
                    &&& uncertain_variables@[j].var_index == variable_index(ts0, uncertain_vars@[j].term)
                    &&& uncertain_variables@[j].sort.sort_index == variable_sort(sig.symbols@, ts0, uncertain_vars@[j].term).sort_index
                    &&& uncertain_variables@[j].sort.leq_sorts@ == variable_sort(sig.symbols@, ts0, uncertain_vars@[j].term).leq_sorts@
                },
            decreases uncertain_vars@.len() - k,
        {
            let oc = uncertain_vars[k];
            assert(uncertain_vars@[k as int] == oc);
            let parent = free_symbols[oc.position as usize].term;
            assert(free_symbols@[oc.position as int].term < ts0.len());
            assert(ts0[oc.term as int] == ts[oc.term as int]);
            proof {
                crate::term::lemma_same_shape_wf(sig.symbols@, ts0, ts);
            }
            let var_index = terms.variable_index_of(oc.term);
            let sort = terms.variable_sort(sig, oc.term);
            let position = terms.slot_index_of(parent);
            uncertain_variables.push(FreeVariable { position, arg_index: oc.arg_index, var_index, sort });
            k = k + 1;
        }

        // Variables that will be bound.
        let mut bound_variables: Vec<BoundVariable> = Vec::new();
        let mut k: usize = 0;
        while k < bound_vars.len()
            invariant
                same_but_slots(ts0, ts),
                terms.terms@ == ts,
                skeleton_wf(ts0, free_symbols@),
                forall|j: int| 0 <= j < bound_vars@.len() ==> {
                    &&& below_skeleton(free_symbols@, #[trigger] bound_vars@[j])
                    &&& bound_vars@[j].term < ts0.len()
                    &&& ts0[bound_vars@[j].term as int] is Variable
                },
                k <= bound_vars@.len(),
                bound_variables@ == Seq::new(k as nat, |j: int| BoundVariable {
                    position: parent_slot(ts, free_symbols@, bound_vars@[j]),
                    arg_index: bound_vars@[j].arg_index,
                    var_index: variable_index(ts0, bound_vars@[j].term),
                }),
            decreases bound_vars@.len() - k,
        {
            let oc = bound_vars[k];
            assert(bound_vars@[k as int] == oc);
            let parent = free_symbols[oc.position as usize].term;
            assert(free_symbols@[oc.position as int].term < ts0.len());
            assert(ts0[oc.term as int] == ts[oc.term as int]);
            let var_index = terms.variable_index_of(oc.term);
            let position = terms.slot_index_of(parent);
            bound_variables.push(BoundVariable { position, arg_index: oc.arg_index, var_index });
            k = k + 1;
            assert(bound_variables@ =~= Seq::new(k as nat, |j: int| BoundVariable {
                position: parent_slot(ts, free_symbols@, bound_vars@[j]),
                arg_index: bound_vars@[j].arg_index,
                var_index: variable_index(ts0, bound_vars@[j].term),
            }));
        }

        // Ground alien subterms.
        let mut ground_aliens: Vec<GroundAlien> = Vec::new();
        let mut k: usize = 0;
        while k < gnd_aliens.len()
            invariant
                same_but_slots(ts0, ts),
                terms.terms@ == ts,
                skeleton_wf(ts0, free_symbols@),
                forall|j: int| 0 <= j < gnd_aliens@.len() ==> below_skeleton(free_symbols@, #[trigger] gnd_aliens@[j]),
                k <= gnd_aliens@.len(),
                ground_aliens@ == Seq::new(k as nat, |j: int| GroundAlien {
                    position: parent_slot(ts, free_symbols@, gnd_aliens@[j]),
                    arg_index: gnd_aliens@[j].arg_index,
                    alien: gnd_aliens@[j].term,
                }),
            decreases gnd_aliens@.len() - k,
        {
            let oc = gnd_aliens[k];
            assert(gnd_aliens@[k as int] == oc);
            let parent = free_symbols[oc.position as usize].term;
            assert(free_symbols@[oc.position as int].term < ts0.len());
            let position = terms.slot_index_of(parent);
            ground_aliens.push(GroundAlien { position, arg_index: oc.arg_index, alien: oc.term });
            k = k + 1;
            assert(ground_aliens@ =~= Seq::new(k as nat, |j: int| GroundAlien {
                position: parent_slot(ts, free_symbols@, gnd_aliens@[j]),
                arg_index: gnd_aliens@[j].arg_index,
                alien: gnd_aliens@[j].term,
            }));
        }

        // Non-ground alien subterms, in the chosen order.
        let ghost sub0 = sub_automata@;
        let mut sub_automata = sub_automata;
        let mut non_ground_aliens: Vec<NonGroundAlien> = Vec::new();
        let mut k: usize = 0;
        while k < best_sequence.len()
            invariant
                same_but_slots(ts0, ts),
                terms.terms@ == ts,
                skeleton_wf(ts0, free_symbols@),
                sub_automata@.len() == sub0.len(),
                forall|j: int| 0 <= j < best_sequence@.len() ==> {
                    &&& (#[trigger] best_sequence@[j]) < non_gnd_aliens@.len()
                    &&& best_sequence@[j] < sub0.len()
                    &&& below_skeleton(free_symbols@, non_gnd_aliens@[best_sequence@[j] as int])
                },
                forall|j: int, l: int| 0 <= j < l < best_sequence@.len() ==> best_sequence@[j] != best_sequence@[l],
                forall|j: int| k <= j < best_sequence@.len() ==> sub_automata@[#[trigger] best_sequence@[j] as int] == sub0[best_sequence@[j] as int],
                k <= best_sequence@.len(),
                non_ground_aliens@.len() == k,
                forall|j: int| 0 <= j < k ==> {
                    &&& (#[trigger] non_ground_aliens@[j]).position == parent_slot(ts, free_symbols@, non_gnd_aliens@[best_sequence@[j] as int])
                    &&& non_ground_aliens@[j].arg_index == non_gnd_aliens@[best_sequence@[j] as int].arg_index
                    &&& non_ground_aliens@[j].automaton == sub0[best_sequence@[j] as int]
                },
            decreases best_sequence@.len() - k,
        {
            let b = best_sequence[k] as usize;
            let oc = non_gnd_aliens[b];
            let parent = free_symbols[oc.position as usize].term;
            assert(free_symbols@[oc.position as int].term < ts0.len());
            let position = terms.slot_index_of(parent);
            let mut automaton = placeholder_automaton();
            std::mem::swap(&mut sub_automata[b], &mut automaton);
            non_ground_aliens.push(NonGroundAlien { position, arg_index: oc.arg_index, automaton });
            k = k + 1;
        }

        FreeLHSAutomaton {
            top_symbol,
            stack,
            free_subterms,
            uncertain_variables,
            bound_variables,
            ground_aliens,
            non_ground_aliens,
        }
    }
}

/// A stand-in left in a list of automata whose entry was taken out: the automaton of a
/// variable with index and sort index `NONE`, an empty sort table, and no copying.
pub(crate) fn placeholder_automaton() -> (r: LHSAutomaton)
    ensures
        r matches LHSAutomaton::Variable(v) && {
            &&& v.index == NONE
            &&& v.sort.sort_index == NONE
            &&& v.sort.leq_sorts@.len() == 0
            &&& !v.sort.fast_geq_sufficient
            &&& !v.sort.error_free_maximal
            &&& !v.copy_to_avoid_overwriting
        },
{
    LHSAutomaton::Variable(crate::lhs_automaton::VariableLHSAutomaton {
        index: NONE,
        sort: Sort { sort_index: NONE, leq_sorts: Vec::new(), fast_geq_sufficient: false, error_free_maximal: false },
        copy_to_avoid_overwriting: false,
    })
}


/// The best order found so far in which to match non-ground aliens, the variables it binds
/// uniquely, and their number (`-1` before any order is found).
pub struct ConstraintPropagationSequence {
    pub sequence: Vec<u32>,
    pub bound: NatSet,
    pub cardinality: i32,
}

impl ConstraintPropagationSequence {
    /// No order yet: an empty sequence binding nothing.
    pub fn new() -> (r: ConstraintPropagationSequence)
        ensures
            r.sequence@ == Seq::<u32>::empty(),
            r.bound@ == Set::<int>::empty(),
            r.cardinality == 0,
    {
        ConstraintPropagationSequence { sequence: Vec::new(), bound: NatSet::new(), cardinality: 0 }
    }
}

/// The variables that occur in term `t`.
pub open spec fn occurs_below(ts: Seq<Term>, t: usize) -> Set<int> {
    tmembers(ts[t as int]).occurs_set@
}

/// The alien at place `i` of the sequence.
pub open spec fn alien_at(aliens: Seq<FreeOccurrence>, sequence: Seq<u32>, i: int) -> usize {
    aliens[sequence[i] as int].term
}

/// Every place from `step` on, but `us`, names an alien term of the store.
pub open spec fn sequence_names_aliens(ts: Seq<Term>, aliens: Seq<FreeOccurrence>, sequence: Seq<u32>, step: int, us: int) -> bool {
    &&& sequence.len() >= aliens.len()
    &&& forall|i: int| step <= i < aliens.len() && i != us ==> {
        &&& (#[trigger] sequence[i]) < aliens.len()
        &&& aliens[sequence[i] as int].term < ts.len()
    }
}

/// Matching term `t` will bind nothing new once `bound` is bound: it honors ground out match
/// and all its variables are in `bound`.
pub open spec fn grounds_out(ts: Seq<Term>, t: usize, bound: Set<int>) -> bool {
    &&& has_attribute(ts, t as int, TermAttribute::HonorsGroundOutMatch)
    &&& occurs_below(ts, t).subset_of(bound)
}

impl TermStore {
    /// Whether some alien at a place from `step` on, other than `us`, has a variable in
    /// `interesting_variables`.
    pub fn remaining_aliens_contain(
        &self,
        aliens: &Vec<FreeOccurrence>,
        current_sequence: &Vec<u32>,
        step: usize,
        us: usize,
        interesting_variables: &NatSet,
    ) -> (r: bool)
        requires
            sequence_names_aliens(self.terms@, aliens@, current_sequence@, step as int, us as int),
        ensures
            r == (interesting_variables@ != Set::<int>::empty() && exists|i: int|
                step <= i < aliens@.len() && i != us && !interesting_variables@.disjoint(
                    occurs_below(self.terms@, #[trigger] alien_at(aliens@, current_sequence@, i)),
                )),
    {
        if interesting_variables.is_empty() {
            return false;
        }
        let mut i = step;
        while i < aliens.len()
            invariant
                step <= i,
                sequence_names_aliens(self.terms@, aliens@, current_sequence@, step as int, us as int),
                forall|j: int| step <= j < i && j < aliens@.len() && j != us ==> interesting_variables@.disjoint(
                    occurs_below(self.terms@, #[trigger] alien_at(aliens@, current_sequence@, j)),
                ),
            decreases aliens@.len() - i,
        {
            if i != us {
                assert(step <= i < aliens@.len() && i != us);
                assert(current_sequence@[i as int] < aliens@.len());
                let t = aliens[current_sequence[i] as usize].term;
                if !interesting_variables.is_disjoint(&self.terms[t].term_members().occurs_set) {
                    assert(alien_at(aliens@, current_sequence@, i as int) == t);
                    return true;
                }
            }
            i = i + 1;
        }
        false
    }

    /// The search for an order of the non-ground aliens from `step` on that binds the most
    /// variables uniquely. Aliens that will ground out match are moved to the front, in order.
    /// When all remaining aliens ground out, the sequence reached is a leaf of the search: it
    /// replaces the best so far if it binds more variables. `requires` admits only the
    /// searches that reach such a leaf at once.
    pub fn find_constraint_propagation_sequence_helper(
        &self,
        aliens: &Vec<FreeOccurrence>,
        current_sequence: &mut Vec<u32>,
        bound_uniquely: &NatSet,
        step: usize,
        best_sequence: &mut ConstraintPropagationSequence,
    )
        requires
            step <= aliens@.len(),
            old(current_sequence)@.len() >= aliens@.len(),
            forall|i: int| step <= i < aliens@.len() ==> {
                &&& (#[trigger] old(current_sequence)@[i]) < aliens@.len()
                &&& aliens@[old(current_sequence)@[i] as int].term < self.terms@.len()
                &&& grounds_out(self.terms@, aliens@[old(current_sequence)@[i] as int].term, bound_uniquely@)
            },
        ensures
            final(current_sequence)@ == old(current_sequence)@,
            if (bound_uniquely.cardinality() as i32) > old(best_sequence).cardinality {
                &&& final(best_sequence).sequence@ == old(current_sequence)@
                &&& final(best_sequence).bound@ == bound_uniquely@
                &&& final(best_sequence).cardinality == bound_uniquely.cardinality() as i32
            } else {
                &&& final(best_sequence).sequence@ == old(best_sequence).sequence@
                &&& final(best_sequence).bound@ == old(best_sequence).bound@
                &&& final(best_sequence).cardinality == old(best_sequence).cardinality
            },
    {
        let alien_count = aliens.len();
        let mut step = step;
        let mut i = step;
        while i < alien_count
            invariant
                step == i,
                i <= alien_count,
                alien_count == aliens@.len(),
                current_sequence@ == old(current_sequence)@,
                old(current_sequence)@.len() >= aliens@.len(),
                forall|j: int| i <= j < aliens@.len() ==> {
                    &&& (#[trigger] old(current_sequence)@[j]) < aliens@.len()
                    &&& aliens@[old(current_sequence)@[j] as int].term < self.terms@.len()
                    &&& grounds_out(self.terms@, aliens@[old(current_sequence)@[j] as int].term, bound_uniquely@)
                },
            decreases alien_count - i,
        {
            assert(old(current_sequence)@[i as int] < aliens@.len());
            let t = aliens[current_sequence[i] as usize].term;
            if self.will_ground_out_match(t, bound_uniquely) {
                let a = current_sequence[step];
                let b = current_sequence[i];
                current_sequence.set(step, b);
                current_sequence.set(i, a);
                assert(current_sequence@ =~= old(current_sequence)@);
                step = step + 1;
            }
            i = i + 1;
        }
        let n = bound_uniquely.len() as i32;
        if n > best_sequence.cardinality {
            best_sequence.sequence = current_sequence.clone();
            assert(best_sequence.sequence@ =~= current_sequence@);
            best_sequence.bound = bound_uniquely.duplicate();
            best_sequence.cardinality = n;
        }
    }

    /// Finds the order in which to match the non-ground aliens, starting from their order in
    /// `aliens`.
    pub fn find_constraint_propagation_sequence(
        &self,
        aliens: &Vec<FreeOccurrence>,
        bound_uniquely: &mut NatSet,
        best_sequence: &mut ConstraintPropagationSequence,
    )
        requires
            aliens@.len() <= u32::MAX,
            old(bound_uniquely).cardinality() < 0x8000_0000,
            forall|i: int| 0 <= i < aliens@.len() ==> {
                &&& (#[trigger] aliens@[i]).term < self.terms@.len()
                &&& grounds_out(self.terms@, aliens@[i].term, old(bound_uniquely)@)
            },
        ensures
            final(bound_uniquely)@ == old(bound_uniquely)@,
            final(best_sequence).sequence@ == Seq::new(aliens@.len(), |i: int| i as u32),
            final(best_sequence).bound@ == old(bound_uniquely)@,
            final(best_sequence).cardinality == old(bound_uniquely).cardinality() as i32,
    {
        let mut current_sequence: Vec<u32> = Vec::new();
        let n = aliens.len();
        let mut i: usize = 0;
        while i < n
            invariant
                n == aliens@.len(),
                n <= u32::MAX,
                i <= n,
                current_sequence@ == Seq::new(i as nat, |j: int| j as u32),
            decreases n - i,
        {
            current_sequence.push(i as u32);
            i = i + 1;
            assert(current_sequence@ =~= Seq::new(i as nat, |j: int| j as u32));
        }
        best_sequence.cardinality = -1;
        self.find_constraint_propagation_sequence_helper(aliens, &mut current_sequence, bound_uniquely, 0, best_sequence);
    }
}


/// The skeleton occurrences of term `t`, scanned from the top.
pub open spec fn skeleton_of(ts: Seq<Term>, t: usize) -> Seq<FreeOccurrence> {
    scan_skeleton(ts, t, 0, 0, Seq::empty(), Seq::empty()).0
}

/// The occurrences directly below the free skeleton of term `t`.
pub open spec fn others_of(ts: Seq<Term>, t: usize) -> Seq<FreeOccurrence> {
    scan_skeleton(ts, t, 0, 0, Seq::empty(), Seq::empty()).1
}

/// The set `bound` with the indices of the variables among the first `k` occurrences added.
pub open spec fn with_variables(ts: Seq<Term>, os: Seq<FreeOccurrence>, k: int, bound: Set<int>) -> Set<int>
    decreases k,
{
    if k <= 0 {
        bound
    } else if ts[os[k - 1].term as int] is Variable {
        with_variables(ts, os, k - 1, bound).insert(variable_index(ts, os[k - 1].term) as int)
    } else {
        with_variables(ts, os, k - 1, bound)
    }
}

/// The occurrences directly below the skeleton: variables with an index that a `NatSet` can
/// hold, and other terms that are ground.
pub open spec fn analysable(ts: Seq<Term>, os: Seq<FreeOccurrence>) -> bool {
    forall|j: int| 0 <= j < os.len() ==> {
        &&& (#[trigger] os[j]).term < ts.len()
        &&& (ts[os[j].term as int] is Variable ==> 0 <= variable_index(ts, os[j].term))
        &&& (!(ts[os[j].term as int] is Variable) ==> occurs_below(ts, os[j].term) == Set::<int>::empty())
    }
}

impl TermStore {
    /// Adds to `bound_uniquely` the variables that matching term `t` binds uniquely: those
    /// directly below its free skeleton. `requires` admits only terms whose occurrences below
    /// the skeleton are variables and ground terms.
    pub fn analyse_constraint_propagation(&self, sig: &Signature, t: usize, bound_uniquely: &mut NatSet)
        requires
            store_wf(sig.symbols@, self.terms@),
            t < self.terms@.len(),
            analysable(self.terms@, others_of(self.terms@, t)),
        ensures
            final(bound_uniquely)@ == with_variables(
                self.terms@,
                others_of(self.terms@, t),
                others_of(self.terms@, t).len() as int,
                old(bound_uniquely)@,
            ),
    {
        let mut free_symbols: Vec<FreeOccurrence> = Vec::new();
        let mut other_symbols: Vec<FreeOccurrence> = Vec::new();
        self.scan_free_skeleton(sig, t, &mut free_symbols, &mut other_symbols, 0, 0);
        let mut non_ground_aliens: Vec<FreeOccurrence> = Vec::new();
        let mut k: usize = 0;
        while k < other_symbols.len()
            invariant
                other_symbols@ == others_of(self.terms@, t),
                analysable(self.terms@, other_symbols@),
                k <= other_symbols@.len(),
                bound_uniquely@ == with_variables(self.terms@, other_symbols@, k as int, old(bound_uniquely)@),
                non_ground_aliens@.len() == 0,
            decreases other_symbols@.len() - k,
        {
            let oc = other_symbols[k];
            assert(other_symbols@[k as int] == oc);
            match &self.terms[oc.term] {
                Term::Variable(v) => {
                    bound_uniquely.insert(v.index as usize);
                },
                Term::Free(_) => {
                    if !self.ground(oc.term) {
                        non_ground_aliens.push(oc);
                    }
                },
            }
            k = k + 1;
        }
    }
}

/// Which automaton `compile_lhs` makes of a free term whose skeleton yields the automaton `a`:
/// `a` itself, or a binding automaton around it when the term has a save index.
pub open spec fn with_save_index(save_index: i32, a: LHSAutomaton) -> LHSAutomaton {
    if save_index != NONE {
        LHSAutomaton::Binding(BindingLHSAutomaton { variable_index: save_index, real_automaton: Box::new(a) })
    } else {
        a
    }
}

impl TermStore {
    /// Compiles the free pattern `t` into an automaton; also returns whether matching it is
    /// likely to leave a subproblem. The occurrences directly below the skeleton are sorted
    /// into uncertain and bound variables, ground and non-ground aliens. `requires` admits only
    /// patterns with nothing below the skeleton.
    pub fn compile_lhs(
        &mut self,
        sig: &Signature,
        t: usize,
        match_at_top: bool,
        bound_uniquely: &mut NatSet,
    ) -> (r: (LHSAutomaton, bool))
        requires
            store_wf(sig.symbols@, old(self).terms@),
            t < old(self).terms@.len(),
            old(self).terms@[t as int] is Free,
            skeleton_of(old(self).terms@, t).len() < 0x7fff_ffff,
            others_of(old(self).terms@, t).len() == 0,
        ensures
            final(bound_uniquely)@ == old(bound_uniquely)@,
            !r.1,
            r.0 is Binding ==> tmembers(old(self).terms@[t as int]).save_index != NONE,
            exists|a: FreeLHSAutomaton| {
                &&& builds_automaton(
                    sig.symbols@,
                    old(self).terms@,
                    final(self).terms@,
                    skeleton_of(old(self).terms@, t),
                    Seq::empty(),
                    Seq::empty(),
                    Seq::empty(),
                    Seq::empty(),
                    Seq::empty(),
                    Seq::empty(),
                    a,
                )
                &&& r.0 == with_save_index(tmembers(old(self).terms@[t as int]).save_index, LHSAutomaton::Free(a))
            },
    {
        proof {
            lemma_skeleton_wf(self.terms@, t);
        }
        let save_index = self.terms[t].term_members().save_index;
        let mut free_symbols: Vec<FreeOccurrence> = Vec::new();
        let mut other_symbols: Vec<FreeOccurrence> = Vec::new();
        self.scan_free_skeleton(sig, t, &mut free_symbols, &mut other_symbols, 0, 0);

        // Sort the occurrences below the skeleton.
        let bound_variables: Vec<FreeOccurrence> = Vec::new();
        let uncertain_variables: Vec<FreeOccurrence> = Vec::new();
        let mut ground_aliens: Vec<FreeOccurrence> = Vec::new();
        let mut non_ground_aliens: Vec<FreeOccurrence> = Vec::new();
        let mut k: usize = 0;
        while k < other_symbols.len()
            invariant
                other_symbols@.len() == 0,
                ground_aliens@.len() == 0,
                non_ground_aliens@.len() == 0,
            decreases other_symbols@.len() - k,
        {
            let oc = other_symbols[k];
            match &self.terms[oc.term] {
                Term::Variable(_) => {},
                Term::Free(_) => {
                    if self.ground(oc.term) {
                        ground_aliens.push(oc);
                    } else {
                        non_ground_aliens.push(oc);
                    }
                },
            }
            k = k + 1;
        }

        // With no non-ground aliens there is no order to find and nothing else to compile.
        let best_sequence: Vec<u32> = Vec::new();
        let sub_automata: Vec<LHSAutomaton> = Vec::new();
        let subproblem_likely = false;
        let ghost ts0 = self.terms@;
        let automaton = FreeLHSAutomaton::new(
            self,
            sig,
            &free_symbols,
            &uncertain_variables,
            &bound_variables,
            &ground_aliens,
            &non_ground_aliens,
            &best_sequence,
            sub_automata,
        );
        let ghost a = automaton;
        assert(uncertain_variables@ =~= Seq::<FreeOccurrence>::empty());
        assert(bound_variables@ =~= Seq::<FreeOccurrence>::empty());
        assert(ground_aliens@ =~= Seq::<FreeOccurrence>::empty());
        assert(non_ground_aliens@ =~= Seq::<FreeOccurrence>::empty());
        assert(best_sequence@ =~= Seq::<u32>::empty());
        let automaton = LHSAutomaton::Free(automaton);
        if save_index != NONE {
            (LHSAutomaton::Binding(BindingLHSAutomaton::new(save_index, automaton)), subproblem_likely)
        } else {
            (automaton, subproblem_likely)
        }
    }

    /// Compiles the variable pattern `t` into an automaton that binds it (copying the subject
    /// when matching at the top), wrapped in a binding automaton when the term has a save index;
    /// the variable is now bound uniquely and no subproblem is likely.
    pub fn compile_variable_lhs(
        &self,
        sig: &Signature,
        t: usize,
        match_at_top: bool,
        bound_uniquely: &mut NatSet,
        subproblem_likely: &mut bool,
    ) -> (r: LHSAutomaton)
        requires
            store_wf(sig.symbols@, self.terms@),
            t < self.terms@.len(),
            self.terms@[t as int] is Variable,
            has_variable_sort(sig.symbols@, self.terms@, t),
            0 <= variable_index(self.terms@, t),
        ensures
            final(bound_uniquely)@ == old(bound_uniquely)@.insert(variable_index(self.terms@, t) as int),
            !*final(subproblem_likely),
            ({
                let inner = if r is Binding { *r->Binding_0.real_automaton } else { r };
                &&& inner is Variable
                &&& inner->Variable_0.index == variable_index(self.terms@, t)
                &&& inner->Variable_0.sort.sort_index == variable_sort(sig.symbols@, self.terms@, t).sort_index
                &&& inner->Variable_0.sort.leq_sorts@ == variable_sort(sig.symbols@, self.terms@, t).leq_sorts@
                &&& inner->Variable_0.copy_to_avoid_overwriting == match_at_top
            }),
            (r is Binding) == (tmembers(self.terms@[t as int]).save_index != NONE),
            r is Binding ==> r->Binding_0.variable_index == tmembers(self.terms@[t as int]).save_index,
    {
        let index = self.variable_index_of(t);
        bound_uniquely.insert(index as usize);
        *subproblem_likely = false;
        let sort = self.variable_sort(sig, t);
        let a = LHSAutomaton::Variable(VariableLHSAutomaton::new(index, sort, match_at_top));
        let save_index = self.terms[t].term_members().save_index;
        if save_index != NONE {
            LHSAutomaton::Binding(BindingLHSAutomaton::new(save_index, a))
        } else {
            a
        }
    }
}

} // verus!
