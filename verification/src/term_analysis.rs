//! Analyses that walk a term and its subterms and mark them: which are stable, and which honor
//! ground out matching.
use vstd::prelude::*;
use crate::dag_node::Signature;
use crate::symbol::SymbolMembers;
use crate::term::{
    Term, TermAttribute, TermMembers, TermStore, attribute_bit, same_shape, store_wf, term_args, term_symbol,
    term_wf, tmembers, with_tmembers, lemma_same_shape_wf,
};

verus! {

/// Term `u` is term `t` or one of the terms below it.
pub open spec fn reaches(ts: Seq<Term>, t: int, u: int) -> bool
    decreases t, 1int, 0int,
{
    t == u || (0 <= t < ts.len() && reaches_args(ts, t, u, term_args(ts[t]).len() as int))
}

/// Term `u` is one of the first `k` arguments of term `t` or lies below one of them.
pub open spec fn reaches_args(ts: Seq<Term>, t: int, u: int, k: int) -> bool
    decreases t, 0int, k,
{
    if k <= 0 || !(0 <= t < ts.len()) || k > term_args(ts[t]).len() {
        false
    } else {
        reaches_args(ts, t, u, k - 1) || (term_args(ts[t])[k - 1] < t && reaches(ts, term_args(ts[t])[k - 1] as int, u))
    }
}

/// Term `x` with the attribute bits `bit` set.
pub open spec fn with_bit(x: Term, bit: u8) -> Term {
    with_tmembers(x, TermMembers { attributes: tmembers(x).attributes | bit, ..tmembers(x) })
}

/// A free term that cannot collapse to another symbol.
pub open spec fn collapse_free(x: Term) -> bool {
    x is Free && tmembers(x).collapse_set@.len() == 0
}

/// Whether a mark goes on term `x`: on every term, or only on free terms that cannot collapse.
pub open spec fn takes_mark(x: Term, only_collapse_free: bool) -> bool {
    !only_collapse_free || collapse_free(x)
}

/// The store with the mark `bit` on every term that the terms `reached` picks out and that
/// takes it.
pub open spec fn marked_where(ts: Seq<Term>, reached: spec_fn(int) -> bool, bit: u8, only_collapse_free: bool) -> Seq<Term> {
    Seq::new(ts.len(), |u: int| if reached(u) && takes_mark(ts[u], only_collapse_free) {
        with_bit(ts[u], bit)
    } else {
        ts[u]
    })
}

/// The store with the mark `bit` on term `t` and every term below it that takes it.
pub open spec fn marked_below(ts: Seq<Term>, t: int, bit: u8, only_collapse_free: bool) -> Seq<Term> {
    marked_where(ts, |u: int| reaches(ts, t, u), bit, only_collapse_free)
}

/// Which terms lie below each other depends only on the arguments.
proof fn lemma_reaches_shape(ts1: Seq<Term>, ts2: Seq<Term>, t: int, u: int)
    requires
        same_shape(ts1, ts2),
    ensures
        reaches(ts1, t, u) == reaches(ts2, t, u),
    decreases t, 1int, 0int,
{
    if 0 <= t < ts1.len() {
        assert(term_args(ts1[t]) == term_args(ts2[t]));
        lemma_reaches_args_shape(ts1, ts2, t, u, term_args(ts1[t]).len() as int);
    }
}

proof fn lemma_reaches_args_shape(ts1: Seq<Term>, ts2: Seq<Term>, t: int, u: int, k: int)
    requires
        same_shape(ts1, ts2),
    ensures
        reaches_args(ts1, t, u, k) == reaches_args(ts2, t, u, k),
    decreases t, 0int, k,
{
    if 0 <= t < ts1.len() {
        assert(term_args(ts1[t]) == term_args(ts2[t]));
        if 0 < k <= term_args(ts1[t]).len() {
            lemma_reaches_args_shape(ts1, ts2, t, u, k - 1);
            let a = term_args(ts1[t])[k - 1];
            if a < t {
                lemma_reaches_shape(ts1, ts2, a as int, u);
            }
        }
    }
}

/// Nothing below a term comes after it.
proof fn lemma_reaches_before(ts: Seq<Term>, t: int, u: int)
    ensures
        reaches(ts, t, u) ==> u <= t,
    decreases t, 1int, 0int,
{
    if 0 <= t < ts.len() {
        lemma_reaches_args_before(ts, t, u, term_args(ts[t]).len() as int);
    }
}

proof fn lemma_reaches_args_before(ts: Seq<Term>, t: int, u: int, k: int)
    ensures
        reaches_args(ts, t, u, k) ==> u < t,
    decreases t, 0int, k,
{
    if 0 <= t < ts.len() && 0 < k <= term_args(ts[t]).len() {
        lemma_reaches_args_before(ts, t, u, k - 1);
        let a = term_args(ts[t])[k - 1];
        if a < t {
            lemma_reaches_before(ts, a as int, u);
        }
    }
}

/// Marking only touches attributes: the store keeps its shape.
proof fn lemma_marked_shape(ts: Seq<Term>, reached: spec_fn(int) -> bool, bit: u8, only_collapse_free: bool)
    ensures
        same_shape(ts, marked_where(ts, reached, bit, only_collapse_free)),
{
}

/// Setting bits twice is setting them once.
proof fn lemma_bit_twice(x: Term, bit: u8)
    ensures
        with_bit(with_bit(x, bit), bit) == with_bit(x, bit),
        takes_mark(with_bit(x, bit), true) == takes_mark(x, true),
{
    let a = tmembers(x).attributes;
    assert((a | bit) | bit == a | bit) by (bit_vector);
}

/// Marking below argument `k` of `t` after marking below its first `k` arguments marks below
/// its first `k + 1`.
proof fn lemma_mark_step(ts: Seq<Term>, t: int, k: int, bit: u8, only_collapse_free: bool)
    requires
        0 <= t < ts.len(),
        0 <= k < term_args(ts[t]).len(),
        term_args(ts[t])[k] < t,
    ensures
        ({
            let cur = marked_where(ts, |u: int| reaches_args(ts, t, u, k), bit, only_collapse_free);
            marked_below(cur, term_args(ts[t])[k] as int, bit, only_collapse_free)
                == marked_where(ts, |u: int| reaches_args(ts, t, u, k + 1), bit, only_collapse_free)
        }),
{
    let cur = marked_where(ts, |u: int| reaches_args(ts, t, u, k), bit, only_collapse_free);
    let a = term_args(ts[t])[k] as int;
    let lhs = marked_below(cur, a, bit, only_collapse_free);
    let rhs = marked_where(ts, |u: int| reaches_args(ts, t, u, k + 1), bit, only_collapse_free);
    lemma_marked_shape(ts, |u: int| reaches_args(ts, t, u, k), bit, only_collapse_free);
    assert forall|u: int| 0 <= u < ts.len() implies lhs[u] == rhs[u] by {
        lemma_reaches_shape(ts, cur, a, u);
        lemma_bit_twice(ts[u], bit);
    }
    assert(lhs =~= rhs);
}

impl TermStore {
    /// Marks term `t` and every free term below it that cannot collapse to another symbol as
    /// stable.
    pub fn analyse_collapses(&mut self, sig: &Signature, t: usize)
        requires
            store_wf(sig.symbols@, old(self).terms@),
            t < old(self).terms@.len(),
        ensures
            final(self).terms@ == marked_below(old(self).terms@, t as int, attribute_bit(TermAttribute::Stable), true),
        decreases t,
    {
        let ghost ts0 = self.terms@;
        let n = self.arg_count(t);
        let mut k: usize = 0;
        assert(self.terms@ =~= marked_where(ts0, |u: int| reaches_args(ts0, t as int, u, 0), 1u8, true));
        while k < n
            invariant
                store_wf(sig.symbols@, ts0),
                t < ts0.len(),
                n == term_args(ts0[t as int]).len(),
                k <= n,
                self.terms@ == marked_where(ts0, |u: int| reaches_args(ts0, t as int, u, k as int), 1u8, true),
            decreases n - k,
        {
            proof {
                lemma_marked_shape(ts0, |u: int| reaches_args(ts0, t as int, u, k as int), 1u8, true);
                lemma_same_shape_wf(sig.symbols@, ts0, self.terms@);
                assert(crate::term::term_wf(sig.symbols@, ts0[t as int], t as int));
                assert(term_args(ts0[t as int])[k as int] < t);
                lemma_mark_step(ts0, t as int, k as int, 1u8, true);
            }
            let a = self.arg(t, k);
            self.analyse_collapses(sig, a);
            k = k + 1;
        }
        proof {
            lemma_marked_shape(ts0, |u: int| reaches_args(ts0, t as int, u, n as int), 1u8, true);
            lemma_same_shape_wf(sig.symbols@, ts0, self.terms@);
            lemma_reaches_args_before(ts0, t as int, t as int, n as int);
        }
        let ghost cur = self.terms@;
        let is_free = !self.is_variable(sig, t);
        if is_free && self.terms[t].term_members().collapse_set.len() == 0 {
            self.set_attribute(t, TermAttribute::Stable);
        }
        proof {
            let goal = marked_below(ts0, t as int, 1u8, true);
            assert forall|u: int| 0 <= u < ts0.len() implies self.terms@[u] == goal[u] by {
                if u != t as int {
                    lemma_reaches_args_before(ts0, t as int, u, n as int);
                }
            }
            assert(self.terms@ =~= goal);
        }
    }

    /// Marks term `t` and every term below it as honoring ground out matching.
    pub fn insert_abstraction_variables(&mut self, sig: &Signature, t: usize, variable_info: &mut crate::rhs_automaton::VariableInfo)
        requires
            store_wf(sig.symbols@, old(self).terms@),
            t < old(self).terms@.len(),
        ensures
            final(self).terms@ == marked_below(
                old(self).terms@,
                t as int,
                attribute_bit(TermAttribute::HonorsGroundOutMatch),
                false,
            ),
            final(variable_info).remapping@ == old(variable_info).remapping@,
        decreases t,
    {
        let ghost ts0 = self.terms@;
        self.set_honors_ground_out_match(t, true);
        let ghost start = self.terms@;
        let n = self.arg_count(t);
        let mut hgom = true;
        let mut k: usize = 0;
        proof {
            assert(start =~= marked_where(ts0, |u: int| u == t as int || reaches_args(ts0, t as int, u, 0), 4u8, false));
        }
        while k < n
            invariant
                store_wf(sig.symbols@, ts0),
                t < ts0.len(),
                n == term_args(ts0[t as int]).len(),
                k <= n,
                hgom,
                variable_info.remapping@ == old(variable_info).remapping@,
                self.terms@ == marked_where(ts0, |u: int| u == t as int || reaches_args(ts0, t as int, u, k as int), 4u8, false),
            decreases n - k,
        {
            let ghost cur = self.terms@;
            proof {
                lemma_marked_shape(ts0, |u: int| u == t as int || reaches_args(ts0, t as int, u, k as int), 4u8, false);
                lemma_same_shape_wf(sig.symbols@, ts0, cur);
                assert(crate::term::term_wf(sig.symbols@, ts0[t as int], t as int));
                assert(term_args(ts0[t as int])[k as int] < t);
            }
            let a = self.arg(t, k);
            self.insert_abstraction_variables(sig, a, variable_info);
            proof {
                let goal = marked_where(ts0, |u: int| u == t as int || reaches_args(ts0, t as int, u, k as int + 1), 4u8, false);
                assert forall|u: int| 0 <= u < ts0.len() implies self.terms@[u] == goal[u] by {
                    lemma_reaches_shape(ts0, cur, a as int, u);
                    lemma_bit_twice(ts0[u], 4u8);
                }
                assert(self.terms@ =~= goal);
                assert(reaches(ts0, a as int, a as int));
                let x = tmembers(ts0[a as int]).attributes;
                assert((x | 4u8) & 4u8 != 0) by (bit_vector);
            }
            hgom = hgom && self.honors_ground_out_match(a);
            k = k + 1;
        }
        if !hgom {
            self.set_honors_ground_out_match(t, false);
        }
        proof {
            let goal = marked_below(ts0, t as int, 4u8, false);
            assert forall|u: int| 0 <= u < ts0.len() implies self.terms@[u] == goal[u] by {
            }
            assert(self.terms@ =~= goal);
        }
    }
}

/// The sort diagram of the top symbol of term `t`.
pub open spec fn diagram(sig: Seq<SymbolMembers>, ts: Seq<Term>, t: int) -> Seq<i32> {
    sig[term_symbol(ts[t])].sort_table.sort_diagram@
}

/// The sort of term `t` computed from the sort diagrams: a constant's is the diagram's first
/// entry; otherwise the diagram is walked with the sorts of the arguments.
pub open spec fn term_sort(sig: Seq<SymbolMembers>, ts: Seq<Term>, t: int) -> int
    decreases t, 1int, 0int,
{
    if !(0 <= t < ts.len()) {
        0
    } else if sig[term_symbol(ts[t])].arity == 0 {
        diagram(sig, ts, t)[0] as int
    } else {
        sort_walk(sig, ts, t, term_args(ts[t]).len() as int)
    }
}

/// The state of the diagram walk of term `t` after the sorts of its first `k` arguments.
pub open spec fn sort_walk(sig: Seq<SymbolMembers>, ts: Seq<Term>, t: int, k: int) -> int
    decreases t, 0int, k,
{
    if k <= 0 || !(0 <= t < ts.len()) || k > term_args(ts[t]).len() {
        0
    } else {
        let a = term_args(ts[t])[k - 1];
        let s = if a < t { term_sort(sig, ts, a as int) } else { 0 };
        diagram(sig, ts, t)[sort_walk(sig, ts, t, k - 1) + s] as int
    }
}

/// The sorts of term `t` and of the terms below it can be computed without leaving the sort
/// diagrams.
pub open spec fn sort_defined(sig: Seq<SymbolMembers>, ts: Seq<Term>, t: int) -> bool
    decreases t, 1int, 0int,
{
    &&& 0 <= t < ts.len()
    &&& 0 <= term_symbol(ts[t]) < sig.len()
    &&& if sig[term_symbol(ts[t])].arity == 0 {
        diagram(sig, ts, t).len() > 0
    } else {
        walk_defined(sig, ts, t, term_args(ts[t]).len() as int)
    }
}

/// The first `k` steps of the diagram walk of term `t` stay inside the diagram.
pub open spec fn walk_defined(sig: Seq<SymbolMembers>, ts: Seq<Term>, t: int, k: int) -> bool
    decreases t, 0int, k,
{
    if k <= 0 || !(0 <= t < ts.len()) || k > term_args(ts[t]).len() {
        true
    } else {
        let a = term_args(ts[t])[k - 1];
        &&& walk_defined(sig, ts, t, k - 1)
        &&& a < t
        &&& sort_defined(sig, ts, a as int)
        &&& sort_walk(sig, ts, t, k - 1) >= 0
        &&& term_sort(sig, ts, a as int) >= 0
        &&& sort_walk(sig, ts, t, k - 1) + term_sort(sig, ts, a as int) < diagram(sig, ts, t).len()
    }
}

/// Term `x` with connected component `c` and sort index `s`.
pub open spec fn with_sort_info(x: Term, c: usize, s: i32) -> Term {
    with_tmembers(x, TermMembers { connected_component: c, sort_index: s, ..tmembers(x) })
}

/// The store with the sort information filled in for the terms that `reached` picks out.
pub open spec fn filled_where(sig: Seq<SymbolMembers>, ts: Seq<Term>, reached: spec_fn(int) -> bool) -> Seq<Term> {
    Seq::new(ts.len(), |u: int| if reached(u) {
        with_sort_info(ts[u], sig[term_symbol(ts[u])].sort_table.range_component, term_sort(sig, ts, u) as i32)
    } else {
        ts[u]
    })
}

/// The store with the sort information filled in for term `t` and the terms below it.
pub open spec fn filled_below(sig: Seq<SymbolMembers>, ts: Seq<Term>, t: int) -> Seq<Term> {
    filled_where(sig, ts, |u: int| reaches(ts, t, u))
}

/// The computed sorts depend only on the symbols and the arguments.
proof fn lemma_sort_shape(sig: Seq<SymbolMembers>, ts1: Seq<Term>, ts2: Seq<Term>, t: int)
    requires
        same_shape(ts1, ts2),
    ensures
        term_sort(sig, ts1, t) == term_sort(sig, ts2, t),
        sort_defined(sig, ts1, t) == sort_defined(sig, ts2, t),
    decreases t, 1int, 0int,
{
    if 0 <= t < ts1.len() {
        assert(term_args(ts1[t]) == term_args(ts2[t]));
        lemma_walk_shape(sig, ts1, ts2, t, term_args(ts1[t]).len() as int);
    }
}

proof fn lemma_walk_shape(sig: Seq<SymbolMembers>, ts1: Seq<Term>, ts2: Seq<Term>, t: int, k: int)
    requires
        same_shape(ts1, ts2),
    ensures
        sort_walk(sig, ts1, t, k) == sort_walk(sig, ts2, t, k),
        walk_defined(sig, ts1, t, k) == walk_defined(sig, ts2, t, k),
    decreases t, 0int, k,
{
    if 0 <= t < ts1.len() {
        assert(term_args(ts1[t]) == term_args(ts2[t]));
        if 0 < k <= term_args(ts1[t]).len() {
            lemma_walk_shape(sig, ts1, ts2, t, k - 1);
            let a = term_args(ts1[t])[k - 1];
            if a < t {
                lemma_sort_shape(sig, ts1, ts2, a as int);
            }
        }
    }
}

/// A walk defined for `k` steps is defined for fewer.
proof fn lemma_walk_prefix(sig: Seq<SymbolMembers>, ts: Seq<Term>, t: int, j: int, k: int)
    requires
        0 <= j <= k,
        0 <= t < ts.len(),
        k <= term_args(ts[t]).len(),
        walk_defined(sig, ts, t, k),
    ensures
        walk_defined(sig, ts, t, j),
    decreases k - j,
{
    if j < k {
        lemma_walk_prefix(sig, ts, t, j, k - 1);
    }
}

impl TermStore {
    /// Fills in the connected component and the sort of term `t` and of every term below it,
    /// computed from the sort diagrams of their symbols.
    pub fn fill_in_sort_info(&mut self, sig: &Signature, t: usize)
        requires
            store_wf(sig.symbols@, old(self).terms@),
            t < old(self).terms@.len(),
            sort_defined(sig.symbols@, old(self).terms@, t as int),
        ensures
            final(self).terms@ == filled_below(sig.symbols@, old(self).terms@, t as int),
        decreases t,
    {
        let ghost ts0 = self.terms@;
        proof {
            assert(term_wf(sig.symbols@, ts0[t as int], t as int));
        }
        let symbol = self.terms[t].term_members().top_symbol;
        let component = sig.symbols[symbol].sort_table.range_component;
        if sig.symbols[symbol].arity == 0 {
            let s = sig.symbols[symbol].sort_table.traverse(0, 0);
            self.set_sort_info(t, component, s);
            proof {
                let goal = filled_below(sig.symbols@, ts0, t as int);
                assert forall|u: int| 0 <= u < ts0.len() implies self.terms@[u] == goal[u] by {
                    if u != t as int {
                        lemma_reaches_args_before(ts0, t as int, u, term_args(ts0[t as int]).len() as int);
                    }
                }
                assert(self.terms@ =~= goal);
            }
            return;
        }
        let n = self.arg_count(t);
        let mut step: i32 = 0;
        let mut k: usize = 0;
        assert(self.terms@ =~= filled_where(sig.symbols@, ts0, |u: int| reaches_args(ts0, t as int, u, 0)));
        while k < n
            invariant
                store_wf(sig.symbols@, ts0),
                t < ts0.len(),
                sort_defined(sig.symbols@, ts0, t as int),
                sig.symbols@[term_symbol(ts0[t as int])].arity != 0,
                symbol == term_symbol(ts0[t as int]),
                n == term_args(ts0[t as int]).len(),
                k <= n,
                step as int == sort_walk(sig.symbols@, ts0, t as int, k as int),
                self.terms@ == filled_where(sig.symbols@, ts0, |u: int| reaches_args(ts0, t as int, u, k as int)),
            decreases n - k,
        {
            let ghost cur = self.terms@;
            proof {
                assert(same_shape(ts0, cur));
                lemma_same_shape_wf(sig.symbols@, ts0, cur);
                lemma_walk_prefix(sig.symbols@, ts0, t as int, k as int + 1, n as int);
            }
            let a = self.arg(t, k);
            proof {
                lemma_sort_shape(sig.symbols@, ts0, cur, a as int);
            }
            self.fill_in_sort_info(sig, a);
            proof {
                let goal = filled_where(sig.symbols@, ts0, |u: int| reaches_args(ts0, t as int, u, k as int + 1));
                assert forall|u: int| 0 <= u < ts0.len() implies self.terms@[u] == goal[u] by {
                    lemma_reaches_shape(ts0, cur, a as int, u);
                    lemma_sort_shape(sig.symbols@, ts0, cur, u);
                }
                assert(self.terms@ =~= goal);
                assert(reaches(ts0, a as int, a as int));
            }
            let sort = self.terms[a].term_members().sort_index;
            step = sig.symbols[symbol].sort_table.traverse(step as usize, sort as usize);
            k = k + 1;
        }
        proof {
            assert(same_shape(ts0, self.terms@));
            lemma_reaches_args_before(ts0, t as int, t as int, n as int);
        }
        self.set_sort_info(t, component, step);
        proof {
            let goal = filled_below(sig.symbols@, ts0, t as int);
            assert forall|u: int| 0 <= u < ts0.len() implies self.terms@[u] == goal[u] by {
                if u != t as int {
                    lemma_reaches_args_before(ts0, t as int, u, n as int);
                }
            }
            assert(self.terms@ =~= goal);
        }
    }
}

/// Marking a second time changes nothing: `analyse_collapses` and
/// `insert_abstraction_variables` are idempotent.
pub proof fn lemma_marking_idempotent(ts: Seq<Term>, t: int, bit: u8, only_collapse_free: bool)
    ensures
        marked_below(marked_below(ts, t, bit, only_collapse_free), t, bit, only_collapse_free)
            == marked_below(ts, t, bit, only_collapse_free),
{
    let once = marked_below(ts, t, bit, only_collapse_free);
    let twice = marked_below(once, t, bit, only_collapse_free);
    lemma_marked_shape(ts, |u: int| reaches(ts, t, u), bit, only_collapse_free);
    assert forall|u: int| 0 <= u < ts.len() implies twice[u] == once[u] by {
        lemma_reaches_shape(ts, once, t, u);
        lemma_bit_twice(ts[u], bit);
    }
    assert(twice =~= once);
}

/// Filling in the sort information a second time changes nothing: `fill_in_sort_info` is
/// idempotent.
pub proof fn lemma_filling_idempotent(sig: Seq<SymbolMembers>, ts: Seq<Term>, t: int)
    ensures
        filled_below(sig, filled_below(sig, ts, t), t) == filled_below(sig, ts, t),
{
    let once = filled_below(sig, ts, t);
    let twice = filled_below(sig, once, t);
    assert(same_shape(ts, once));
    assert forall|u: int| 0 <= u < ts.len() implies twice[u] == once[u] by {
        lemma_reaches_shape(ts, once, t, u);
        lemma_sort_shape(sig, ts, once, u);
    }
    assert(twice =~= once);
}

} // verus!
