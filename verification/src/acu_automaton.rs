//! The matching automaton for patterns whose top symbol is associative and commutative:
//! its data, and the first steps of matching, which check multiplicities and take away the
//! subjects that ground subpatterns and grounded-out aliens must match.
use vstd::prelude::*;
use crate::AssociativeSymbolStructure;
use crate::acu_dag_node::{ACUDagNode, arg_count, full_search, potential_run};
use crate::dag_node::{DagHeap, DagNode, Signature, heap_wf};
use crate::lhs_automaton::{LHSAutomaton, lhs_match, lhs_wf, same_pattern, lemma_same_pattern_match, lemma_same_pattern_trans, lemma_same_pattern_refl};
use crate::numeric::{less, usize_of};
use crate::substitution::{MaybeDagNode, Substitution, bindings_in_heap};
use crate::term_compare::{OrderingValue, partial_compare};
use crate::red_black_tree::{ACUArguments, DagPair, RedBlackTree, entries_are};
use crate::symbol::{Sort, SymbolMembers};
use crate::term::{Term, TermStore, store_wf};

verus! {

/// How the automaton matches.
#[derive(Copy, Clone, PartialEq, Eq, Structural, Debug)]
pub enum MatchStrategy {
    /// No extension and everything grounds out; fail if any subjects are left.
    GroundOut,
    /// No extension, no aliens, one unbound variable that must take the remaining subjects.
    LoneVariable,
    /// No extension; all top variables are bound on entry to the matcher.
    AliensOnly,
    /// The subterms' variables that also occur elsewhere are bound on entry to the matcher.
    Greedy,
    /// None of the other cases applies.
    Full,
}

/// A variable directly below the top symbol, with its multiplicity and sort.
pub struct TopVariable {
    pub index: u32,
    pub multiplicity: u32,
    pub sort: Sort,
    pub upper_bound: u32,
    pub structure: AssociativeSymbolStructure,
    pub take_identity: bool,
    /// The automaton for the term that the variable abstracts, if any.
    pub abstracted: Option<LHSAutomaton>,
    pub previous_unbound: u32,
    pub first_subject: u32,
    pub subject_count: u32,
}

/// A ground subterm below the top symbol: term `term`, occurring `multiplicity` times.
#[derive(Copy, Clone, Debug)]
pub struct GroundAlien {
    pub term: usize,
    pub multiplicity: u32,
}

/// A non-ground subterm below the top symbol, with its automaton.
pub struct NonGroundAlien {
    pub term: Option<usize>,
    pub multiplicity: u32,
    pub lhs_automaton: LHSAutomaton,
}

/// The automaton of a pattern with an associative-commutative top symbol.
pub struct ACULHSAutomaton {
    pub max_pattern_multiplicity: u32,
    pub current_multiplicity: Vec<u32>,
    pub total_lower_bound: u32,
    pub total_upper_bound: u32,
    pub total_multiplicity: u32,
    pub total_non_ground_aliens_multiplicity: u32,
    pub last_unbound_variable: u32,
    pub unbound_variable_count: u32,
    pub ground_aliens: Vec<GroundAlien>,
    pub grounded_out_aliens: Vec<NonGroundAlien>,
    pub non_ground_aliens: Vec<NonGroundAlien>,
    pub current: RedBlackTree,
    pub top_symbol: usize,
    pub top_variables: Vec<TopVariable>,
    pub collapse_possible: bool,
    pub match_at_top: bool,
    pub tree_match_ok: bool,
    pub match_strategy: MatchStrategy,
    pub matched_multiplicity: u32,
}

/// The sum of the multiplicities of the entries.
pub open spec fn multiplicity_sum(es: Seq<(usize, u32)>) -> nat
    decreases es.len(),
{
    if es.len() == 0 {
        0
    } else {
        multiplicity_sum(es.drop_last()) + (es.last().1 as nat)
    }
}

/// Some entry occurs at least `m` times.
pub open spec fn some_multiplicity_reaches(es: Seq<(usize, u32)>, m: u32) -> bool {
    exists|i: int| 0 <= i < es.len() && (#[trigger] es[i]).1 >= m
}

/// The multiplicities after `resize` to `len` entries (new ones 0) and writing those of `es`
/// over the first ones.
pub open spec fn copied_multiplicities(old_cm: Seq<u32>, len: nat, es: Seq<(usize, u32)>) -> Seq<u32> {
    Seq::new(len, |i: int| if i < es.len() {
        es[i].1
    } else if i < old_cm.len() {
        old_cm[i]
    } else {
        0u32
    })
}

/// The number of arguments that the node claims.
pub open spec fn claimed_len(a: ACUArguments) -> nat {
    match a {
        ACUArguments::List(v) => v@.len(),
        ACUArguments::Tree(t) => t.size as nat,
    }
}

/// The ground aliens from `i` on taking their subjects away: `(ok, multiplicities)`. Each
/// alien's subject is found by binary search among the arguments; not finding it, or finding
/// it fewer times than the alien occurs, fails and leaves the multiplicities as they are.
pub open spec fn ground_run(
    sig: Seq<SymbolMembers>,
    ts: Seq<Term>,
    heap: Seq<DagNode>,
    aliens: Seq<GroundAlien>,
    args: Seq<DagPair>,
    cm: Seq<u32>,
    i: int,
) -> (bool, Seq<u32>)
    decreases aliens.len() - i,
{
    if i < 0 || i >= aliens.len() {
        (true, cm)
    } else {
        match full_search(sig, ts, heap, aliens[i].term, args) {
            None => (false, cm),
            Some(p) => if cm[p] < aliens[i].multiplicity {
                (false, cm)
            } else {
                ground_run(sig, ts, heap, aliens, args, cm.update(p, (cm[p] - aliens[i].multiplicity) as u32), i + 1)
            },
        }
    }
}

impl ACULHSAutomaton {
    /// Copies the subject's multiplicities into `current_multiplicity` and checks for trivial
    /// failure: no argument occurs as often as the pattern needs, or the total multiplicity of
    /// the subject is out of the pattern's bounds. On success the total is recorded.
    pub fn multiplicity_checks(&mut self, subject: &ACUDagNode) -> (r: bool)
        requires
            forall|es: Seq<(usize, u32)>| #[trigger] entries_are(subject.args, es) ==> {
                &&& es.len() <= claimed_len(subject.args)
                &&& multiplicity_sum(es) <= u32::MAX
            },
        ensures
            exists|es: Seq<(usize, u32)>| {
                &&& #[trigger] entries_are(subject.args, es)
                &&& if old(self).max_pattern_multiplicity > 1 && !some_multiplicity_reaches(es, old(self).max_pattern_multiplicity) {
                    &&& !r
                    &&& *final(self) == *old(self)
                } else {
                    let total = multiplicity_sum(es);
                    let cm = copied_multiplicities(old(self).current_multiplicity@, claimed_len(subject.args), es);
                    &&& r == (old(self).total_lower_bound <= total <= old(self).total_upper_bound)
                    &&& final(self).current_multiplicity@ == cm
                    &&& final(self).total_multiplicity == (if r { total as u32 } else { old(self).total_multiplicity })
                    &&& *final(self) == (ACULHSAutomaton {
                        current_multiplicity: final(self).current_multiplicity,
                        total_multiplicity: final(self).total_multiplicity,
                        ..*old(self)
                    })
                }
            },
    {
        let entries = subject.args.iter();
        let ghost es = entries@;
        if self.max_pattern_multiplicity > 1 {
            let mut ok = false;
            let mut i: usize = 0;
            while i < entries.len()
                invariant
                    i <= entries@.len(),
                    ok == exists|j: int| 0 <= j < i && (#[trigger] entries@[j]).1 >= self.max_pattern_multiplicity,
                decreases entries@.len() - i,
            {
                if entries[i].1 >= self.max_pattern_multiplicity {
                    ok = true;
                }
                i = i + 1;
            }
            if !ok {
                return false;
            }
            assert(some_multiplicity_reaches(es, self.max_pattern_multiplicity));
        }
        let ghost passed = old(self).max_pattern_multiplicity > 1 ==> some_multiplicity_reaches(es, old(self).max_pattern_multiplicity);
        assert(passed);
        assert(entries_are(subject.args, es));
        let len = subject.args.len();
        let ghost old_cm = self.current_multiplicity@;
        self.current_multiplicity.resize(len, 0);
        let mut total: u32 = 0;
        let mut idx: usize = 0;
        while idx < entries.len()
            invariant
                *self == (ACULHSAutomaton { current_multiplicity: self.current_multiplicity, ..*old(self) }),
                entries@ == es,
                es.len() <= len,
                len == claimed_len(subject.args),
                multiplicity_sum(es) <= u32::MAX,
                idx <= es.len(),
                total as nat == multiplicity_sum(es.subrange(0, idx as int)),
                self.current_multiplicity@.len() == len,
                forall|j: int| 0 <= j < len ==> #[trigger] self.current_multiplicity@[j] == (if j < idx {
                    es[j].1
                } else if j < old_cm.len() {
                    old_cm[j]
                } else {
                    0u32
                }),
            decreases es.len() - idx,
        {
            proof {
                assert(es.subrange(0, idx as int + 1).drop_last() == es.subrange(0, idx as int));
                lemma_sum_prefix(es, idx as int + 1);
            }
            self.current_multiplicity.set(idx, entries[idx].1);
            total = total + entries[idx].1;
            idx = idx + 1;
        }
        proof {
            assert(es.subrange(0, es.len() as int) == es);
            assert(self.current_multiplicity@ =~= copied_multiplicities(old_cm, len as nat, es));
        }
        assert(total as nat == multiplicity_sum(es));
        assert(len as nat == claimed_len(subject.args));
        assert(old_cm == old(self).current_multiplicity@);
        assert(self.current_multiplicity@ == copied_multiplicities(old(self).current_multiplicity@, claimed_len(subject.args), es));
        if total < self.total_lower_bound || total > self.total_upper_bound {
            assert(*self == (ACULHSAutomaton {
                current_multiplicity: self.current_multiplicity,
                total_multiplicity: self.total_multiplicity,
                ..*old(self)
            }));
            return false;
        }
        self.total_multiplicity = total;
        assert(*self == (ACULHSAutomaton {
            current_multiplicity: self.current_multiplicity,
            total_multiplicity: self.total_multiplicity,
            ..*old(self)
        }));
        true
    }

    /// Takes away, for each ground alien, its subject as often as the alien occurs; fails when
    /// a ground alien's subject is missing or occurs too few times, leaving what the aliens
    /// before it took away.
    pub fn eliminate_ground_aliens(&mut self, sig: &Signature, terms: &TermStore, heap: &DagHeap, subject: &ACUDagNode) -> (r: bool)
        requires
            store_wf(sig.symbols@, terms.terms@),
            heap_wf(sig.symbols@, heap.nodes@),
            subject.args matches ACUArguments::List(v) && {
                &&& forall|i: int| 0 <= i < v@.len() ==> (#[trigger] v@[i]).dag_node < heap.nodes@.len()
                &&& v@.len() <= old(self).current_multiplicity@.len()
            },
            forall|i: int| 0 <= i < old(self).ground_aliens@.len() ==> (#[trigger] old(self).ground_aliens@[i]).term < terms.terms@.len(),
        ensures
            subject.args matches ACUArguments::List(v) && {
                let run = ground_run(sig.symbols@, terms.terms@, heap.nodes@, old(self).ground_aliens@, v@, old(self).current_multiplicity@, 0);
                &&& r == run.0
                &&& final(self).current_multiplicity@ == run.1
            },
            *final(self) == (ACULHSAutomaton { current_multiplicity: final(self).current_multiplicity, ..*old(self) }),
    {
        let ghost v = match &subject.args { ACUArguments::List(v) => v@, ACUArguments::Tree(_) => Seq::empty() };
        let ghost run0 = ground_run(sig.symbols@, terms.terms@, heap.nodes@, self.ground_aliens@, v, self.current_multiplicity@, 0);
        let mut i: usize = 0;
        while i < self.ground_aliens.len()
            invariant
                store_wf(sig.symbols@, terms.terms@),
                heap_wf(sig.symbols@, heap.nodes@),
                subject.args matches ACUArguments::List(w) && w@ == v,
                forall|j: int| 0 <= j < v.len() ==> (#[trigger] v[j]).dag_node < heap.nodes@.len(),
                v.len() <= self.current_multiplicity@.len(),
                forall|j: int| 0 <= j < self.ground_aliens@.len() ==> (#[trigger] self.ground_aliens@[j]).term < terms.terms@.len(),
                *self == (ACULHSAutomaton { current_multiplicity: self.current_multiplicity, ..*old(self) }),
                i <= self.ground_aliens@.len(),
                ground_run(sig.symbols@, terms.terms@, heap.nodes@, self.ground_aliens@, v, self.current_multiplicity@, i as int) == run0,
                run0 == ground_run(sig.symbols@, terms.terms@, heap.nodes@, old(self).ground_aliens@, v, old(self).current_multiplicity@, 0),
            decreases self.ground_aliens@.len() - i,
        {
            let alien = self.ground_aliens[i];
            let pos = subject.binary_search_by_term(sig, terms, heap, alien.term);
            let count = self.current_multiplicity.len();
            proof {
                crate::acu_dag_node::lemma_full_search_in_range(sig.symbols@, terms.terms@, heap.nodes@, alien.term, v);
                assert(self.ground_aliens@[i as int] == alien);
                if let Some(q) = full_search(sig.symbols@, terms.terms@, heap.nodes@, alien.term, v) {
                    assert(0 <= q < v.len());
                    assert(q < count);
                    assert(pos == Some(q as usize));
                }
            }
            match pos {
                None => {
                    return false;
                },
                Some(p) => {
                    proof {
                        assert(full_search(sig.symbols@, terms.terms@, heap.nodes@, alien.term, v) == Some(p as int));
                        assert(ground_run(sig.symbols@, terms.terms@, heap.nodes@, self.ground_aliens@, v, self.current_multiplicity@, i as int)
                            == if self.current_multiplicity@[p as int] < alien.multiplicity {
                            (false, self.current_multiplicity@)
                        } else {
                            ground_run(
                                sig.symbols@,
                                terms.terms@,
                                heap.nodes@,
                                self.ground_aliens@,
                                v,
                                self.current_multiplicity@.update(p as int, (self.current_multiplicity@[p as int] - alien.multiplicity) as u32),
                                i + 1,
                            )
                        });
                    }
                    if self.current_multiplicity[p] < alien.multiplicity {
                        return false;
                    }
                    let m = self.current_multiplicity[p] - alien.multiplicity;
                    self.current_multiplicity.set(p, m);
                },
            }
            i = i + 1;
        }
        true
    }
}

/// Where taking away the subjects of grounded-out aliens stands: whether it stayed within the
/// matcher's checks (`defined`), whether it succeeded, and the heap, the bindings and the
/// multiplicities after it.
pub struct GroundedOutResult {
    pub defined: bool,
    pub ok: bool,
    pub heap: Seq<DagNode>,
    pub sol: Seq<MaybeDagNode>,
    pub cm: Seq<u32>,
}

/// A grounded-out alien (automaton `a` for term `term`, `multiplicity` times) looking for its
/// subject among the arguments from position `j` on: the first argument `a` matches is taken
/// `multiplicity` times, failing if it occurs fewer times; the search fails at the end of the
/// arguments, or when the term is known to come before the next argument (and so before
/// all later ones).
pub open spec fn alien_scan(
    sig: Seq<SymbolMembers>,
    ts: Seq<Term>,
    a: LHSAutomaton,
    term: Option<usize>,
    multiplicity: u32,
    args: Seq<DagPair>,
    heap: Seq<DagNode>,
    sol: Seq<MaybeDagNode>,
    cm: Seq<u32>,
    j: int,
) -> GroundedOutResult
    decreases args.len() - j,
{
    if j < 0 || j >= args.len() {
        GroundedOutResult { defined: true, ok: false, heap, sol, cm }
    } else {
        let m = lhs_match(sig, ts, a, args[j].dag_node, heap, sol);
        if !m.defined || j >= cm.len() {
            GroundedOutResult { defined: false, ok: false, heap: m.heap, sol: m.sol, cm }
        } else if m.ok {
            if cm[j] < multiplicity {
                GroundedOutResult { defined: true, ok: false, heap: m.heap, sol: m.sol, cm }
            } else {
                GroundedOutResult { defined: true, ok: true, heap: m.heap, sol: m.sol, cm: cm.update(j, less(cm[j], multiplicity)) }
            }
        } else if j + 1 >= args.len() {
            GroundedOutResult { defined: true, ok: false, heap: m.heap, sol: m.sol, cm }
        } else if term matches Some(t) && partial_compare(sig, ts, m.heap, m.sol, t, args[j + 1].dag_node) == OrderingValue::Less {
            GroundedOutResult { defined: true, ok: false, heap: m.heap, sol: m.sol, cm }
        } else {
            alien_scan(sig, ts, a, term, multiplicity, args, m.heap, m.sol, cm, j + 1)
        }
    }
}

/// Where the search of an alien for term `term` starts: at the first argument the term may
/// match, or at the first argument when the alien has no term.
pub open spec fn alien_start(sig: Seq<SymbolMembers>, ts: Seq<Term>, term: Option<usize>, args: Seq<DagPair>, heap: Seq<DagNode>, sol: Seq<MaybeDagNode>) -> int {
    match term {
        Some(t) => potential_run(sig, ts, heap, sol, t, args, 0, arg_count(args), arg_count(args)),
        None => 0,
    }
}

/// The grounded-out aliens from `i` on taking their subjects away, one after the other; the
/// first alien that finds none fails the whole.
pub open spec fn grounded_out_run(
    sig: Seq<SymbolMembers>,
    ts: Seq<Term>,
    aliens: Seq<NonGroundAlien>,
    args: Seq<DagPair>,
    heap: Seq<DagNode>,
    sol: Seq<MaybeDagNode>,
    cm: Seq<u32>,
    i: int,
) -> GroundedOutResult
    decreases aliens.len() - i,
{
    if i < 0 || i >= aliens.len() {
        GroundedOutResult { defined: true, ok: true, heap, sol, cm }
    } else {
        let al = aliens[i];
        let s = alien_scan(sig, ts, al.lhs_automaton, al.term, al.multiplicity, args, heap, sol, cm, alien_start(sig, ts, al.term, args, heap, sol));
        if !s.defined || !s.ok {
            s
        } else {
            grounded_out_run(sig, ts, aliens, args, s.heap, s.sol, s.cm, i + 1)
        }
    }
}

/// The search of one alien gives the same for automata of the same pattern.
proof fn lemma_scan_same_pattern(
    sig: Seq<SymbolMembers>,
    ts: Seq<Term>,
    a1: LHSAutomaton,
    a2: LHSAutomaton,
    term: Option<usize>,
    multiplicity: u32,
    args: Seq<DagPair>,
    heap: Seq<DagNode>,
    sol: Seq<MaybeDagNode>,
    cm: Seq<u32>,
    j: int,
)
    requires
        same_pattern(a1, a2),
    ensures
        alien_scan(sig, ts, a1, term, multiplicity, args, heap, sol, cm, j)
            == alien_scan(sig, ts, a2, term, multiplicity, args, heap, sol, cm, j),
    decreases args.len() - j,
{
    if 0 <= j < args.len() {
        lemma_same_pattern_match(sig, ts, a1, a2, args[j].dag_node, heap, sol);
        let m = lhs_match(sig, ts, a1, args[j].dag_node, heap, sol);
        lemma_scan_same_pattern(sig, ts, a1, a2, term, multiplicity, args, m.heap, m.sol, cm, j + 1);
    }
}

/// The run over the aliens gives the same for aliens of the same patterns, terms and
/// multiplicities.
proof fn lemma_run_same_patterns(
    sig: Seq<SymbolMembers>,
    ts: Seq<Term>,
    aliens1: Seq<NonGroundAlien>,
    aliens2: Seq<NonGroundAlien>,
    args: Seq<DagPair>,
    heap: Seq<DagNode>,
    sol: Seq<MaybeDagNode>,
    cm: Seq<u32>,
    i: int,
)
    requires
        same_aliens(aliens1, aliens2),
    ensures
        grounded_out_run(sig, ts, aliens1, args, heap, sol, cm, i) == grounded_out_run(sig, ts, aliens2, args, heap, sol, cm, i),
    decreases aliens1.len() - i,
{
    if 0 <= i < aliens1.len() {
        let a1 = aliens1[i];
        let a2 = aliens2[i];
        let j = alien_start(sig, ts, a1.term, args, heap, sol);
        lemma_scan_same_pattern(sig, ts, a1.lhs_automaton, a2.lhs_automaton, a1.term, a1.multiplicity, args, heap, sol, cm, j);
        let s = alien_scan(sig, ts, a1.lhs_automaton, a1.term, a1.multiplicity, args, heap, sol, cm, j);
        lemma_run_same_patterns(sig, ts, aliens1, aliens2, args, s.heap, s.sol, s.cm, i + 1);
    }
}

/// Two lists of aliens agree in everything but the state of their automata.
pub open spec fn same_aliens(aliens1: Seq<NonGroundAlien>, aliens2: Seq<NonGroundAlien>) -> bool {
    &&& aliens1.len() == aliens2.len()
    &&& forall|k: int| 0 <= k < aliens1.len() ==> {
        &&& (#[trigger] aliens2[k]).term == aliens1[k].term
        &&& aliens2[k].multiplicity == aliens1[k].multiplicity
        &&& same_pattern(aliens1[k].lhs_automaton, aliens2[k].lhs_automaton)
    }
}

/// Every alien's automaton is well formed and its term is in the store.
pub open spec fn aliens_wf(sig: Seq<SymbolMembers>, term_count: nat, aliens: Seq<NonGroundAlien>) -> bool {
    forall|k: int| 0 <= k < aliens.len() ==> {
        &&& lhs_wf(sig, term_count, (#[trigger] aliens[k]).lhs_automaton)
        &&& (aliens[k].term matches Some(t) ==> t < term_count)
    }
}

/// Automaton `a` looks for its subject among `args` from position `j` on, as `alien_scan`
/// says.
fn scan_alien(
    a: &mut LHSAutomaton,
    term: Option<usize>,
    multiplicity: u32,
    sig: &Signature,
    terms: &TermStore,
    heap: &mut DagHeap,
    args: &Vec<DagPair>,
    cm: &mut Vec<u32>,
    solution: &mut Substitution,
    j: usize,
) -> (r: bool)
    requires
        lhs_wf(sig.symbols@, terms.terms@.len(), *old(a)),
        term matches Some(t) ==> t < terms.terms@.len(),
        store_wf(sig.symbols@, terms.terms@),
        heap_wf(sig.symbols@, old(heap).nodes@),
        bindings_in_heap(old(solution).bindings@, old(heap).nodes@.len()),
        forall|k: int| 0 <= k < args@.len() ==> (#[trigger] args@[k]).dag_node < old(heap).nodes@.len(),
        alien_scan(sig.symbols@, terms.terms@, *old(a), term, multiplicity, args@, old(heap).nodes@, old(solution).bindings@, old(cm)@, j as int).defined,
    ensures
        ({
            let s = alien_scan(sig.symbols@, terms.terms@, *old(a), term, multiplicity, args@, old(heap).nodes@, old(solution).bindings@, old(cm)@, j as int);
            &&& r == s.ok
            &&& final(heap).nodes@ == s.heap
            &&& final(solution).bindings@ == s.sol
            &&& final(cm)@ == s.cm
        }),
        lhs_wf(sig.symbols@, terms.terms@.len(), *final(a)),
        same_pattern(*old(a), *final(a)),
        final(solution).copy_size == old(solution).copy_size,
        heap_wf(sig.symbols@, final(heap).nodes@),
        old(heap).nodes@.len() <= final(heap).nodes@.len(),
        bindings_in_heap(final(solution).bindings@, final(heap).nodes@.len()),
    decreases args@.len() - j,
{
    if j >= args.len() {
        proof {
            lemma_same_pattern_refl(*a);
        }
        return false;
    }
    let ghost a0 = *a;
    let (ok, _) = a.match_(sig, terms, heap, args[j].dag_node, solution);
    if ok {
        if cm[j] < multiplicity {
            return false;
        }
        let m = cm[j] - multiplicity;
        cm.set(j, m);
        return true;
    }
    if j + 1 >= args.len() {
        return false;
    }
    match term {
        Some(t) => {
            let c = terms.partial_compare(sig, heap, solution, t, args[j + 1].dag_node);
            match c {
                OrderingValue::Less => {
                    return false;
                },
                _ => {},
            }
        },
        None => {},
    }
    proof {
        lemma_scan_same_pattern(sig.symbols@, terms.terms@, a0, *a, term, multiplicity, args@, heap.nodes@, solution.bindings@, cm@, j as int + 1);
    }
    let ghost a1 = *a;
    let r = scan_alien(a, term, multiplicity, sig, terms, heap, args, cm, solution, j + 1);
    proof {
        lemma_same_pattern_trans(a0, a1, *a);
    }
    r
}

impl ACULHSAutomaton {
    /// Takes away, for each grounded-out alien in turn, the first argument of the subject from
    /// the first one its term may match on that its automaton matches, as often as the alien
    /// occurs; fails when an alien finds no such argument or the argument occurs too few times.
    pub fn eliminate_grounded_out_aliens_for_subject(
        &mut self,
        sig: &Signature,
        terms: &TermStore,
        heap: &mut DagHeap,
        subject: &ACUDagNode,
        solution: &mut Substitution,
    ) -> (r: bool)
        requires
            store_wf(sig.symbols@, terms.terms@),
            heap_wf(sig.symbols@, old(heap).nodes@),
            bindings_in_heap(old(solution).bindings@, old(heap).nodes@.len()),
            subject.args matches ACUArguments::List(v) && {
                &&& forall|i: int| 0 <= i < v@.len() ==> (#[trigger] v@[i]).dag_node < old(heap).nodes@.len()
                &&& v@.len() <= u32::MAX
                &&& grounded_out_run(
                    sig.symbols@,
                    terms.terms@,
                    old(self).grounded_out_aliens@,
                    v@,
                    old(heap).nodes@,
                    old(solution).bindings@,
                    old(self).current_multiplicity@,
                    0,
                ).defined
            },
            aliens_wf(sig.symbols@, terms.terms@.len(), old(self).grounded_out_aliens@),
        ensures
            subject.args matches ACUArguments::List(v) && {
                let run = grounded_out_run(
                    sig.symbols@,
                    terms.terms@,
                    old(self).grounded_out_aliens@,
                    v@,
                    old(heap).nodes@,
                    old(solution).bindings@,
                    old(self).current_multiplicity@,
                    0,
                );
                &&& r == run.ok
                &&& final(heap).nodes@ == run.heap
                &&& final(solution).bindings@ == run.sol
                &&& final(self).current_multiplicity@ == run.cm
            },
            same_aliens(old(self).grounded_out_aliens@, final(self).grounded_out_aliens@),
            *final(self) == (ACULHSAutomaton {
                current_multiplicity: final(self).current_multiplicity,
                grounded_out_aliens: final(self).grounded_out_aliens,
                ..*old(self)
            }),
            final(solution).copy_size == old(solution).copy_size,
            heap_wf(sig.symbols@, final(heap).nodes@),
            bindings_in_heap(final(solution).bindings@, final(heap).nodes@.len()),
    {
        let args = match &subject.args {
            ACUArguments::List(v) => v,
            ACUArguments::Tree(_) => {
                return true;
            },
        };
        let ghost aliens0 = self.grounded_out_aliens@;
        let ghost run0 = grounded_out_run(sig.symbols@, terms.terms@, aliens0, args@, heap.nodes@, solution.bindings@, self.current_multiplicity@, 0);
        proof {
            assert forall|k: int| 0 <= k < aliens0.len() implies {
                &&& (#[trigger] aliens0[k]).term == aliens0[k].term
                &&& aliens0[k].multiplicity == aliens0[k].multiplicity
                &&& same_pattern(aliens0[k].lhs_automaton, aliens0[k].lhs_automaton)
            } by {
                lemma_same_pattern_refl(aliens0[k].lhs_automaton);
            }
        }
        let mut i: usize = 0;
        while i < self.grounded_out_aliens.len()
            invariant
                store_wf(sig.symbols@, terms.terms@),
                heap_wf(sig.symbols@, heap.nodes@),
                bindings_in_heap(solution.bindings@, heap.nodes@.len()),
                subject.args == ACUArguments::List(*args),
                forall|k: int| 0 <= k < args@.len() ==> (#[trigger] args@[k]).dag_node < heap.nodes@.len(),
                args@.len() <= u32::MAX,
                aliens0 == old(self).grounded_out_aliens@,
                same_aliens(aliens0, self.grounded_out_aliens@),
                aliens_wf(sig.symbols@, terms.terms@.len(), self.grounded_out_aliens@),
                *self == (ACULHSAutomaton {
                    current_multiplicity: self.current_multiplicity,
                    grounded_out_aliens: self.grounded_out_aliens,
                    ..*old(self)
                }),
                solution.copy_size == old(solution).copy_size,
                i <= aliens0.len(),
                grounded_out_run(sig.symbols@, terms.terms@, aliens0, args@, heap.nodes@, solution.bindings@, self.current_multiplicity@, i as int)
                    == run0,
                run0 == grounded_out_run(
                    sig.symbols@,
                    terms.terms@,
                    old(self).grounded_out_aliens@,
                    args@,
                    old(heap).nodes@,
                    old(solution).bindings@,
                    old(self).current_multiplicity@,
                    0,
                ),
                run0.defined,
            decreases aliens0.len() - i,
        {
            let term = self.grounded_out_aliens[i].term;
            let multiplicity = self.grounded_out_aliens[i].multiplicity;
            let j: usize = match term {
                Some(t) => usize_of(subject.find_first_potential_match(sig, terms, heap, t, solution)),
                None => 0,
            };
            let mut alien = NonGroundAlien { term: None, multiplicity: 0, lhs_automaton: crate::lhs_compiler::placeholder_automaton() };
            std::mem::swap(&mut self.grounded_out_aliens[i], &mut alien);
            let ghost before = alien.lhs_automaton;
            proof {
                assert(aliens0[i as int].term == term);
                lemma_scan_same_pattern(
                    sig.symbols@, terms.terms@, aliens0[i as int].lhs_automaton, before, term, multiplicity,
                    args@, heap.nodes@, solution.bindings@, self.current_multiplicity@, j as int,
                );
            }
            let found = scan_alien(&mut alien.lhs_automaton, term, multiplicity, sig, terms, heap, args, &mut self.current_multiplicity, solution, j);
            proof {
                lemma_same_pattern_trans(aliens0[i as int].lhs_automaton, before, alien.lhs_automaton);
            }
            std::mem::swap(&mut self.grounded_out_aliens[i], &mut alien);
            if !found {
                return false;
            }
            i = i + 1;
        }
        true
    }
}

/// The sum over a prefix grows by the next entry.
proof fn lemma_sum_prefix(es: Seq<(usize, u32)>, k: int)
    requires
        0 < k <= es.len(),
    ensures
        multiplicity_sum(es.subrange(0, k)) == multiplicity_sum(es.subrange(0, k - 1)) + es[k - 1].1,
        multiplicity_sum(es.subrange(0, k)) <= multiplicity_sum(es),
    decreases es.len() - k,
{
    assert(es.subrange(0, k).drop_last() == es.subrange(0, k - 1));
    if k < es.len() {
        lemma_sum_prefix(es, k + 1);
    } else {
        assert(es.subrange(0, k) == es);
    }
}

} // verus!
