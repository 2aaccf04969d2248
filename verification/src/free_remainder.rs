//! Remainders: what is left of a pattern of an equation after its free symbols have been
//! matched by the discrimination net, and how fast it can be matched.
use vstd::prelude::*;
use crate::dag_node::Signature;
use crate::lhs_automaton::{BoundVariable, FreeVariable, GroundAlien, LHSAutomaton, NonGroundAlien};
use crate::lhs_compiler::{FreeOccurrence, below_skeleton, has_variable_sort, parent_slot, term_slot, variable_index, variable_sort};
use crate::symbol::{NONE, Sort, SymbolMembers, ConnectedComponent};
use crate::term::{Term, TermStore, store_wf, term_wf, tmembers};

verus! {

/// How a remainder can be matched: super fast, fast, or slow.
#[derive(Copy, Clone, PartialEq, Eq, Structural, Debug)]
pub enum Speed {
    Fast,
    Slow,
    SuperFast,
}

impl Speed {
    /// The number that orders speeds: positive for super fast, negative for fast, 0 for slow.
    pub fn value(self) -> (r: i8)
        ensures
            r == speed_value(self),
    {
        match self {
            Speed::Fast => -1,
            Speed::Slow => 0,
            Speed::SuperFast => 1,
        }
    }
}

pub open spec fn speed_value(s: Speed) -> int {
    match s {
        Speed::Fast => -1,
        Speed::Slow => 0,
        Speed::SuperFast => 1,
    }
}

/// An equation as a remainder refers to it: its index among the module's equations and
/// whether it has a condition.
#[derive(Copy, Clone, PartialEq, Eq, Structural, Debug)]
pub struct PreEquation {
    pub index: usize,
    pub has_condition: bool,
}

/// The remainder of the pattern of `equation`.
pub struct FreeRemainder {
    pub fast: Speed,
    /// The remainder is a foreign equation that might collapse into the free theory.
    pub foreign: bool,
    pub free_variables: Vec<FreeVariable>,
    pub equation: PreEquation,
    pub bound_variables: Vec<BoundVariable>,
    pub ground_aliens: Vec<GroundAlien>,
    pub non_ground_aliens: Vec<NonGroundAlien>,
}

/// The speed after looking at the sorts of the first `k` free variables, from `fast`: a sort
/// for which the fast test does not suffice makes the remainder slow; a super fast remainder
/// becomes fast at a sort that is not the one maximal sort of an error free component.
pub open spec fn speed_after_variables(sig: Seq<SymbolMembers>, ts: Seq<Term>, vars: Seq<FreeOccurrence>, k: int, fast: Speed) -> Speed
    decreases k,
{
    if k <= 0 {
        fast
    } else {
        let f = speed_after_variables(sig, ts, vars, k - 1, fast);
        let sort = variable_sort(sig, ts, vars[k - 1].term);
        if !sort.fast_geq_sufficient {
            Speed::Slow
        } else if f == Speed::SuperFast && !sort.error_free_maximal {
            Speed::Fast
        } else {
            f
        }
    }
}

/// The slot that slot `slot` becomes under the translation.
pub open spec fn translated(slot_translation: Seq<i32>, slot: i32) -> i32 {
    slot_translation[slot as int]
}

/// The error sort of the connected component of term `t`.
pub open spec fn component_error_sort(sig_components: Seq<ConnectedComponent>, ts: Seq<Term>, t: usize) -> Sort {
    sig_components[tmembers(ts[t as int]).connected_component as int].sorts@[0]
}

/// The skeleton occurrences, among the first `k`, that save their node: their indices.
pub open spec fn saving_occurrences(ts: Seq<Term>, fs: Seq<FreeOccurrence>, k: int) -> Seq<int>
    decreases k,
{
    if k <= 0 {
        Seq::empty()
    } else if tmembers(ts[fs[k - 1].term as int]).save_index != NONE {
        saving_occurrences(ts, fs, k - 1).push(k - 1)
    } else {
        saving_occurrences(ts, fs, k - 1)
    }
}

/// The slot of the parent of an occurrence can be translated.
pub open spec fn translatable(ts: Seq<Term>, fs: Seq<FreeOccurrence>, slot_translation: Seq<i32>, oc: FreeOccurrence) -> bool {
    &&& below_skeleton(fs, oc)
    &&& 0 <= parent_slot(ts, fs, oc) < slot_translation.len()
}

impl FreeRemainder {
    /// A slow foreign remainder of `equation`, with nothing to match.
    pub fn with_equation(equation: PreEquation) -> (r: FreeRemainder)
        ensures
            r.fast == Speed::Slow,
            r.foreign,
            r.equation == equation,
            r.free_variables@.len() == 0,
            r.bound_variables@.len() == 0,
            r.ground_aliens@.len() == 0,
            r.non_ground_aliens@.len() == 0,
    {
        FreeRemainder {
            fast: Speed::Slow,
            foreign: true,
            free_variables: Vec::new(),
            equation,
            bound_variables: Vec::new(),
            ground_aliens: Vec::new(),
            non_ground_aliens: Vec::new(),
        }
    }

    /// The remainder of `equation`, whose skeleton `free_symbols` the net matches. Parents are
    /// referred to by their slots translated through `slot_translation` (ground aliens by their
    /// untranslated slots). The free variables come first, then a variable for each skeleton
    /// symbol with a save index, of the error sort of its component. The remainder is super
    /// fast for an unconditional equation whose variables all have sorts for which the fast
    /// test suffices and that are maximal in error free components, fast if the first holds,
    /// and slow otherwise or when there are bound variables or aliens.
    pub fn new(
        terms: &TermStore,
        sig: &Signature,
        equation: PreEquation,
        free_symbols: &Vec<FreeOccurrence>,
        free_variables: &Vec<FreeOccurrence>,
        bound_variables: &Vec<FreeOccurrence>,
        gnd_aliens: &Vec<FreeOccurrence>,
        non_gnd_aliens: &Vec<FreeOccurrence>,
        best_sequence: &Vec<u32>,
        sub_automata: Vec<LHSAutomaton>,
        slot_translation: &Vec<i32>,
    ) -> (r: FreeRemainder)
        requires
            store_wf(sig.symbols@, terms.terms@),
            forall|i: int| 0 <= i < free_symbols@.len() ==> {
                &&& (#[trigger] free_symbols@[i]).term < terms.terms@.len()
                &&& terms.terms@[free_symbols@[i].term as int] is Free
                &&& below_skeleton(free_symbols@, free_symbols@[i])
            },
            forall|j: int| 0 <= j < free_variables@.len() ==> {
                &&& translatable(terms.terms@, free_symbols@, slot_translation@, #[trigger] free_variables@[j])
                &&& free_variables@[j].term < terms.terms@.len()
                &&& terms.terms@[free_variables@[j].term as int] is Variable
                &&& has_variable_sort(sig.symbols@, terms.terms@, free_variables@[j].term)
            },
            forall|i: int| 0 <= i < free_symbols@.len() && tmembers(terms.terms@[(#[trigger] free_symbols@[i]).term as int]).save_index != NONE ==> {
                &&& translatable(terms.terms@, free_symbols@, slot_translation@, free_symbols@[i])
                &&& tmembers(terms.terms@[free_symbols@[i].term as int]).connected_component < sig.components@.len()
                &&& sig.components@[tmembers(terms.terms@[free_symbols@[i].term as int]).connected_component as int].sorts@.len() > 0
            },
            forall|j: int| 0 <= j < bound_variables@.len() ==> {
                &&& translatable(terms.terms@, free_symbols@, slot_translation@, #[trigger] bound_variables@[j])
                &&& bound_variables@[j].term < terms.terms@.len()
                &&& terms.terms@[bound_variables@[j].term as int] is Variable
            },
            forall|j: int| 0 <= j < gnd_aliens@.len() ==> below_skeleton(free_symbols@, #[trigger] gnd_aliens@[j]),
            forall|j: int| 0 <= j < best_sequence@.len() ==> {
                &&& (#[trigger] best_sequence@[j]) < non_gnd_aliens@.len()
                &&& best_sequence@[j] < sub_automata@.len()
                &&& translatable(terms.terms@, free_symbols@, slot_translation@, non_gnd_aliens@[best_sequence@[j] as int])
            },
            forall|j: int, k: int| 0 <= j < k < best_sequence@.len() ==> best_sequence@[j] != best_sequence@[k],
        ensures
            r.fast == (if bound_variables@.len() > 0 || gnd_aliens@.len() > 0 || best_sequence@.len() > 0 {
                Speed::Slow
            } else {
                speed_after_variables(
                    sig.symbols@,
                    terms.terms@,
                    free_variables@,
                    free_variables@.len() as int,
                    if equation.has_condition { Speed::Slow } else { Speed::SuperFast },
                )
            }),
            !r.foreign,
            r.equation == equation,
            r.free_variables@.len() == free_variables@.len() + saving_occurrences(terms.terms@, free_symbols@, free_symbols@.len() as int).len(),
            forall|j: int| 0 <= j < free_variables@.len() ==> {
                &&& (#[trigger] r.free_variables@[j]).position == translated(slot_translation@, parent_slot(terms.terms@, free_symbols@, free_variables@[j]))
                &&& r.free_variables@[j].arg_index == free_variables@[j].arg_index
                &&& r.free_variables@[j].var_index == variable_index(terms.terms@, free_variables@[j].term)
                &&& r.free_variables@[j].sort.sort_index == variable_sort(sig.symbols@, terms.terms@, free_variables@[j].term).sort_index
                &&& r.free_variables@[j].sort.leq_sorts@ == variable_sort(sig.symbols@, terms.terms@, free_variables@[j].term).leq_sorts@
            },
            forall|j: int|
                #![trigger saving_occurrences(terms.terms@, free_symbols@, free_symbols@.len() as int)[j]]
                0 <= j < saving_occurrences(terms.terms@, free_symbols@, free_symbols@.len() as int).len() ==> {
                let i = saving_occurrences(terms.terms@, free_symbols@, free_symbols@.len() as int)[j];
                let oc = free_symbols@[i];
                let v = r.free_variables@[free_variables@.len() + j];
                &&& v.position == translated(slot_translation@, parent_slot(terms.terms@, free_symbols@, oc))
                &&& v.arg_index == oc.arg_index
                &&& v.var_index == tmembers(terms.terms@[oc.term as int]).save_index
                &&& v.sort.sort_index == component_error_sort(sig.components@, terms.terms@, oc.term).sort_index
                &&& v.sort.leq_sorts@ == component_error_sort(sig.components@, terms.terms@, oc.term).leq_sorts@
            },
            r.bound_variables@ == Seq::new(bound_variables@.len(), |j: int| BoundVariable {
                position: translated(slot_translation@, parent_slot(terms.terms@, free_symbols@, bound_variables@[j])),
                arg_index: bound_variables@[j].arg_index,
                var_index: variable_index(terms.terms@, bound_variables@[j].term),
            }),
            r.ground_aliens@ == Seq::new(gnd_aliens@.len(), |j: int| GroundAlien {
                position: parent_slot(terms.terms@, free_symbols@, gnd_aliens@[j]),
                arg_index: gnd_aliens@[j].arg_index,
                alien: gnd_aliens@[j].term,
            }),
            r.non_ground_aliens@.len() == best_sequence@.len(),
            forall|j: int| 0 <= j < best_sequence@.len() ==> {
                &&& (#[trigger] r.non_ground_aliens@[j]).position == translated(
                    slot_translation@,
                    parent_slot(terms.terms@, free_symbols@, non_gnd_aliens@[best_sequence@[j] as int]),
                )
                &&& r.non_ground_aliens@[j].arg_index == non_gnd_aliens@[best_sequence@[j] as int].arg_index
                &&& r.non_ground_aliens@[j].automaton == sub_automata@[best_sequence@[j] as int]
            },
    {
        let ghost ts = terms.terms@;
        let mut fast = if !equation.has_condition {
            Speed::SuperFast
        } else {
            Speed::Slow
        };
        let ghost fast0 = fast;

        // Variables that will be unbound.
        let mut new_free_variables: Vec<FreeVariable> = Vec::new();
        let mut k: usize = 0;
        while k < free_variables.len()
            invariant
                store_wf(sig.symbols@, ts),
                terms.terms@ == ts,
                forall|j: int| 0 <= j < free_variables@.len() ==> {
                    &&& translatable(ts, free_symbols@, slot_translation@, #[trigger] free_variables@[j])
                    &&& free_variables@[j].term < ts.len()
                    &&& ts[free_variables@[j].term as int] is Variable
                    &&& has_variable_sort(sig.symbols@, ts, free_variables@[j].term)
                },
                forall|i: int| 0 <= i < free_symbols@.len() ==> {
                    &&& (#[trigger] free_symbols@[i]).term < ts.len()
                    &&& ts[free_symbols@[i].term as int] is Free
                    &&& below_skeleton(free_symbols@, free_symbols@[i])
                },
                k <= free_variables@.len(),
                fast == speed_after_variables(sig.symbols@, ts, free_variables@, k as int, fast0),
                new_free_variables@.len() == k,
                forall|j: int| 0 <= j < k ==> {
                    &&& (#[trigger] new_free_variables@[j]).position == translated(slot_translation@, parent_slot(ts, free_symbols@, free_variables@[j]))
                    &&& new_free_variables@[j].arg_index == free_variables@[j].arg_index
                    &&& new_free_variables@[j].var_index == variable_index(ts, free_variables@[j].term)
                    &&& new_free_variables@[j].sort.sort_index == variable_sort(sig.symbols@, ts, free_variables@[j].term).sort_index
                    &&& new_free_variables@[j].sort.leq_sorts@ == variable_sort(sig.symbols@, ts, free_variables@[j].term).leq_sorts@
                },
            decreases free_variables@.len() - k,
        {
            let oc = free_variables[k];
            assert(free_variables@[k as int] == oc);
            let parent = free_symbols[oc.position as usize].term;
            assert(free_symbols@[oc.position as int].term < ts.len());
            let sort = terms.variable_sort(sig, oc.term);
            if !sort.fast_geq_sufficient {
                fast = Speed::Slow;
            } else {
                if fast == Speed::SuperFast {
                    if !sort.error_free_maximal {
                        fast = Speed::Fast;
                    }
                }
            }
            let slot = terms.slot_index_of(parent);
            let position = slot_translation[slot as usize];
            let var_index = terms.variable_index_of(oc.term);
            new_free_variables.push(FreeVariable { position, arg_index: oc.arg_index, var_index, sort });
            k = k + 1;
        }

        // Pseudo variables for left to right sharing.
        let ghost base = new_free_variables@.len() as int;
        let ghost prefix = new_free_variables@;
        let mut i: usize = 0;
        while i < free_symbols.len()
            invariant
                terms.terms@ == ts,
                forall|i: int| 0 <= i < free_symbols@.len() ==> {
                    &&& (#[trigger] free_symbols@[i]).term < ts.len()
                    &&& ts[free_symbols@[i].term as int] is Free
                    &&& below_skeleton(free_symbols@, free_symbols@[i])
                },
                forall|i: int| 0 <= i < free_symbols@.len() && tmembers(ts[(#[trigger] free_symbols@[i]).term as int]).save_index != NONE ==> {
                    &&& translatable(ts, free_symbols@, slot_translation@, free_symbols@[i])
                    &&& tmembers(ts[free_symbols@[i].term as int]).connected_component < sig.components@.len()
                    &&& sig.components@[tmembers(ts[free_symbols@[i].term as int]).connected_component as int].sorts@.len() > 0
                },
                i <= free_symbols@.len(),
                base == free_variables@.len(),
                new_free_variables@.len() == base + saving_occurrences(ts, free_symbols@, i as int).len(),
                prefix.len() == base,
                forall|j: int| 0 <= j < base ==> #[trigger] new_free_variables@[j] == prefix[j],
                forall|j: int|
                    #![trigger saving_occurrences(ts, free_symbols@, i as int)[j]]
                    0 <= j < saving_occurrences(ts, free_symbols@, i as int).len() ==> {
                    let n = saving_occurrences(ts, free_symbols@, i as int)[j];
                    let oc = free_symbols@[n];
                    let v = new_free_variables@[base + j];
                    &&& v.position == translated(slot_translation@, parent_slot(ts, free_symbols@, oc))
                    &&& v.arg_index == oc.arg_index
                    &&& v.var_index == tmembers(ts[oc.term as int]).save_index
                    &&& v.sort.sort_index == component_error_sort(sig.components@, ts, oc.term).sort_index
                    &&& v.sort.leq_sorts@ == component_error_sort(sig.components@, ts, oc.term).leq_sorts@
                },
            decreases free_symbols@.len() - i,
        {
            let oc = free_symbols[i];
            assert(free_symbols@[i as int] == oc);
            let m = terms.terms[oc.term].term_members();
            if m.save_index != NONE {
                let index = m.save_index;
                let parent = free_symbols[oc.position as usize].term;
                assert(free_symbols@[oc.position as int].term < ts.len());
                let slot = terms.slot_index_of(parent);
                let component = &sig.components[m.connected_component];
                let sort = component.sorts[0].duplicate();
                new_free_variables.push(FreeVariable { position: slot_translation[slot as usize], arg_index: oc.arg_index, var_index: index, sort });
            }
            i = i + 1;
        }

        // Variables that will be bound.
        let mut new_bound_variables: Vec<BoundVariable> = Vec::new();
        let mut k: usize = 0;
        while k < bound_variables.len()
            invariant
                terms.terms@ == ts,
                forall|i: int| 0 <= i < free_symbols@.len() ==> {
                    &&& (#[trigger] free_symbols@[i]).term < ts.len()
                    &&& ts[free_symbols@[i].term as int] is Free
                    &&& below_skeleton(free_symbols@, free_symbols@[i])
                },
                forall|j: int| 0 <= j < bound_variables@.len() ==> {
                    &&& translatable(ts, free_symbols@, slot_translation@, #[trigger] bound_variables@[j])
                    &&& bound_variables@[j].term < ts.len()
                    &&& ts[bound_variables@[j].term as int] is Variable
                },
                k <= bound_variables@.len(),
                k > 0 ==> fast == Speed::Slow,
                k == 0 ==> fast == speed_after_variables(sig.symbols@, ts, free_variables@, free_variables@.len() as int, fast0),
                new_bound_variables@ == Seq::new(k as nat, |j: int| BoundVariable {
                    position: translated(slot_translation@, parent_slot(ts, free_symbols@, bound_variables@[j])),
                    arg_index: bound_variables@[j].arg_index,
                    var_index: variable_index(ts, bound_variables@[j].term),
                }),
            decreases bound_variables@.len() - k,
        {
            let oc = bound_variables[k];
            assert(bound_variables@[k as int] == oc);
            let parent = free_symbols[oc.position as usize].term;
            assert(free_symbols@[oc.position as int].term < ts.len());
            let slot = terms.slot_index_of(parent);
            let var_index = terms.variable_index_of(oc.term);
            fast = Speed::Slow;
            new_bound_variables.push(BoundVariable { position: slot_translation[slot as usize], arg_index: oc.arg_index, var_index });
            k = k + 1;
            assert(new_bound_variables@ =~= Seq::new(k as nat, |j: int| BoundVariable {
                position: translated(slot_translation@, parent_slot(ts, free_symbols@, bound_variables@[j])),
                arg_index: bound_variables@[j].arg_index,
                var_index: variable_index(ts, bound_variables@[j].term),
            }));
        }

        // Ground alien subterms.
        let ghost fast1 = fast;
        let mut ground_aliens: Vec<GroundAlien> = Vec::new();
        let mut k: usize = 0;
        while k < gnd_aliens.len()
            invariant
                terms.terms@ == ts,
                forall|i: int| 0 <= i < free_symbols@.len() ==> {
                    &&& (#[trigger] free_symbols@[i]).term < ts.len()
                    &&& ts[free_symbols@[i].term as int] is Free
                    &&& below_skeleton(free_symbols@, free_symbols@[i])
                },
                forall|j: int| 0 <= j < gnd_aliens@.len() ==> below_skeleton(free_symbols@, #[trigger] gnd_aliens@[j]),
                k <= gnd_aliens@.len(),
                k > 0 ==> fast == Speed::Slow,
                k == 0 ==> fast == fast1,
                ground_aliens@ == Seq::new(k as nat, |j: int| GroundAlien {
                    position: parent_slot(ts, free_symbols@, gnd_aliens@[j]),
                    arg_index: gnd_aliens@[j].arg_index,
                    alien: gnd_aliens@[j].term,
                }),
            decreases gnd_aliens@.len() - k,
        {
            let oc = gnd_aliens[k];
            assert(gnd_aliens@[k as int] == oc);
            let parent = free_symbols[oc.position as usize].term;
            assert(free_symbols@[oc.position as int].term < ts.len());
            let position = terms.slot_index_of(parent);
            fast = Speed::Slow;
            ground_aliens.push(GroundAlien { position, arg_index: oc.arg_index, alien: oc.term });
            k = k + 1;
            assert(ground_aliens@ =~= Seq::new(k as nat, |j: int| GroundAlien {
                position: parent_slot(ts, free_symbols@, gnd_aliens@[j]),
                arg_index: gnd_aliens@[j].arg_index,
                alien: gnd_aliens@[j].term,
            }));
        }

        // Non-ground alien subterms.
        let ghost fast2 = fast;
        let ghost sub0 = sub_automata@;
        let mut sub_automata = sub_automata;
        let mut non_ground_aliens: Vec<NonGroundAlien> = Vec::new();
        let mut k: usize = 0;
        while k < best_sequence.len()
            invariant
                terms.terms@ == ts,
                forall|i: int| 0 <= i < free_symbols@.len() ==> {
                    &&& (#[trigger] free_symbols@[i]).term < ts.len()
                    &&& ts[free_symbols@[i].term as int] is Free
                    &&& below_skeleton(free_symbols@, free_symbols@[i])
                },
                sub_automata@.len() == sub0.len(),
                forall|j: int| 0 <= j < best_sequence@.len() ==> {
                    &&& (#[trigger] best_sequence@[j]) < non_gnd_aliens@.len()
                    &&& best_sequence@[j] < sub0.len()
                    &&& translatable(ts, free_symbols@, slot_translation@, non_gnd_aliens@[best_sequence@[j] as int])
                },
                forall|j: int, l: int| 0 <= j < l < best_sequence@.len() ==> best_sequence@[j] != best_sequence@[l],
                forall|j: int| k <= j < best_sequence@.len() ==> sub_automata@[#[trigger] best_sequence@[j] as int] == sub0[best_sequence@[j] as int],
                k <= best_sequence@.len(),
                k > 0 ==> fast == Speed::Slow,
                k == 0 ==> fast == fast2,
                non_ground_aliens@.len() == k,
                forall|j: int| 0 <= j < k ==> {
                    &&& (#[trigger] non_ground_aliens@[j]).position == translated(
                        slot_translation@,
                        parent_slot(ts, free_symbols@, non_gnd_aliens@[best_sequence@[j] as int]),
                    )
                    &&& non_ground_aliens@[j].arg_index == non_gnd_aliens@[best_sequence@[j] as int].arg_index
                    &&& non_ground_aliens@[j].automaton == sub0[best_sequence@[j] as int]
                },
            decreases best_sequence@.len() - k,
        {
            let b = best_sequence[k] as usize;
            let oc = non_gnd_aliens[b];
            let parent = free_symbols[oc.position as usize].term;
            assert(free_symbols@[oc.position as int].term < ts.len());
            let slot = terms.slot_index_of(parent);
            fast = Speed::Slow;
            let mut automaton = crate::lhs_compiler::placeholder_automaton();
            std::mem::swap(&mut sub_automata[b], &mut automaton);
            non_ground_aliens.push(NonGroundAlien { position: slot_translation[slot as usize], arg_index: oc.arg_index, automaton });
            k = k + 1;
        }

        FreeRemainder {
            fast,
            foreign: false,
            free_variables: new_free_variables,
            equation,
            bound_variables: new_bound_variables,
            ground_aliens,
            non_ground_aliens,
        }
    }
}

} // verus!
