//! Terms: the expression trees that patterns are written in. Terms live in a `TermStore` and
//! refer to their arguments, and to the symbols of a `Signature`, by index; arguments always
//! come before the term that holds them.
use vstd::prelude::*;
use crate::nat_set::NatSet;
use crate::symbol::{IString, SymbolMembers, SORT_UNKNOWN, UNDEFINED};
use crate::dag_node::signature_wf;

verus! {

/// The attributes a term can have.
#[derive(Copy, Clone, PartialEq, Eq, Debug)]
pub enum TermAttribute {
    /// The top symbol cannot change under instantiation.
    Stable,
    /// The path to the root contains only eagerly evaluated positions.
    EagerContext,
    /// The matching algorithm never returns a subproblem when all variables are bound.
    HonorsGroundOutMatch,
}

/// How a subterm stands in a pattern.
#[derive(Copy, Clone, Eq, PartialEq, Debug)]
pub enum TermKind {
    Free,
    Bound,
    Ground,
    NonGround,
}

pub open spec fn attribute_bit(a: TermAttribute) -> u8 {
    match a {
        TermAttribute::Stable => 1,
        TermAttribute::EagerContext => 2,
        TermAttribute::HonorsGroundOutMatch => 4,
    }
}

impl TermAttribute {
    pub fn bit(self) -> (r: u8)
        ensures
            r == attribute_bit(self),
    {
        match self {
            TermAttribute::Stable => 1,
            TermAttribute::EagerContext => 2,
            TermAttribute::HonorsGroundOutMatch => 4,
        }
    }
}

/// The members that every term has.
pub struct TermMembers {
    pub top_symbol: usize,
    /// The indices of the variables that occur in the term.
    pub occurs_set: NatSet,
    /// The indices of the variables that occur in the context of the term.
    pub context_set: NatSet,
    /// The symbols the term may collapse to.
    pub collapse_set: Vec<usize>,
    pub attributes: u8,
    pub sort_index: i32,
    /// The connected component of the term's sort, by its index in the signature.
    pub connected_component: usize,
    /// The variable slot a match of the term is saved in, or `NONE`.
    pub save_index: i32,
    pub cached_size: i32,
}

impl TermMembers {
    /// The members of a new term with top symbol `symbol`: no variables, attributes or sort,
    /// save index 0 and no cached size.
    pub fn new(symbol: usize) -> (r: TermMembers)
        ensures
            r.top_symbol == symbol,
            r.occurs_set@ == Set::<int>::empty(),
            r.context_set@ == Set::<int>::empty(),
            r.collapse_set@ == Seq::<usize>::empty(),
            r.attributes == 0,
            r.sort_index == SORT_UNKNOWN,
            r.connected_component == 0,
            r.save_index == 0,
            r.cached_size == UNDEFINED,
    {
        TermMembers {
            top_symbol: symbol,
            occurs_set: NatSet::new(),
            context_set: NatSet::new(),
            collapse_set: Vec::new(),
            attributes: 0,
            sort_index: SORT_UNKNOWN,
            connected_component: 0,
            save_index: 0,
            cached_size: UNDEFINED,
        }
    }
}

/// A term whose top symbol belongs to the free theory.
pub struct FreeTerm {
    pub term_members: TermMembers,
    pub args: Vec<usize>,
    pub slot_index: i32,
    pub visited: bool,
}

/// A variable.
pub struct VariableTerm {
    pub term_members: TermMembers,
    pub name: IString,
    pub index: i32,
}

impl FreeTerm {
    /// A free term with no arguments.
    pub fn new(symbol: usize) -> (r: FreeTerm)
        ensures
            r.term_members.top_symbol == symbol,
            r.args@ == Seq::<usize>::empty(),
            r.slot_index == 0,
            !r.visited,
            r.term_members.save_index == 0,
            r.term_members.attributes == 0,
            r.term_members.cached_size == UNDEFINED,
            r.term_members.sort_index == SORT_UNKNOWN,
            r.term_members.occurs_set@ == Set::<int>::empty(),
    {
        FreeTerm { term_members: TermMembers::new(symbol), args: Vec::new(), slot_index: 0, visited: false }
    }

    /// A free term with the given arguments.
    pub fn with_args(symbol: usize, args: Vec<usize>) -> (r: FreeTerm)
        ensures
            r.term_members.top_symbol == symbol,
            r.args@ == args@,
            r.slot_index == 0,
            !r.visited,
            r.term_members.save_index == 0,
            r.term_members.attributes == 0,
            r.term_members.cached_size == UNDEFINED,
            r.term_members.sort_index == SORT_UNKNOWN,
            r.term_members.occurs_set@ == Set::<int>::empty(),
    {
        FreeTerm { term_members: TermMembers::new(symbol), args, slot_index: 0, visited: false }
    }
}

impl VariableTerm {
    /// A variable with the given name and symbol, not yet given an index.
    pub fn new(name: IString, symbol: usize) -> (r: VariableTerm)
        ensures
            r.term_members.top_symbol == symbol,
            r.name == name,
            r.index == -1,
            r.term_members.save_index == 0,
            r.term_members.attributes == 0,
            r.term_members.cached_size == UNDEFINED,
            r.term_members.sort_index == SORT_UNKNOWN,
            r.term_members.occurs_set@ == Set::<int>::empty(),
    {
        VariableTerm { term_members: TermMembers::new(symbol), name, index: -1 }
    }
}

/// A term of one of the theories.
pub enum Term {
    Free(FreeTerm),
    Variable(VariableTerm),
}

/// All terms; a term is named by its index.
pub struct TermStore {
    pub terms: Vec<Term>,
}

pub open spec fn tmembers(t: Term) -> TermMembers {
    match t {
        Term::Free(f) => f.term_members,
        Term::Variable(v) => v.term_members,
    }
}

pub open spec fn term_args(t: Term) -> Seq<usize> {
    match t {
        Term::Free(f) => f.args@,
        Term::Variable(_) => Seq::empty(),
    }
}

pub open spec fn term_symbol(t: Term) -> int {
    tmembers(t).top_symbol as int
}

/// A term is well formed at position `i`: its symbol exists, its kind agrees with the symbol, a
/// free term has as many arguments as its symbol's arity, and all arguments come before it.
pub open spec fn term_wf(sig: Seq<SymbolMembers>, t: Term, i: int) -> bool {
    &&& 0 <= term_symbol(t) < sig.len()
    &&& (t is Variable) == sig[term_symbol(t)].is_variable
    &&& (t is Free ==> term_args(t).len() == sig[term_symbol(t)].arity)
    &&& forall|k: int| 0 <= k < term_args(t).len() ==> #[trigger] term_args(t)[k] < i
}

pub open spec fn store_wf(sig: Seq<SymbolMembers>, ts: Seq<Term>) -> bool {
    &&& signature_wf(sig)
    &&& forall|i: int| 0 <= i < ts.len() ==> #[trigger] term_wf(sig, ts[i], i)
}

/// Two stores have the same terms, argument for argument.
pub open spec fn same_shape(ts1: Seq<Term>, ts2: Seq<Term>) -> bool {
    &&& ts1.len() == ts2.len()
    &&& forall|i: int| 0 <= i < ts1.len() ==> {
        &&& #[trigger] term_args(ts1[i]) == term_args(ts2[i])
        &&& term_symbol(ts1[i]) == term_symbol(ts2[i])
        &&& (ts1[i] is Free) == (ts2[i] is Free)
    }
}

/// `t` with its members replaced by `m`.
pub open spec fn with_tmembers(t: Term, m: TermMembers) -> Term {
    match t {
        Term::Free(f) => Term::Free(FreeTerm { term_members: m, ..f }),
        Term::Variable(v) => Term::Variable(VariableTerm { term_members: m, ..v }),
    }
}

pub open spec fn has_attribute(ts: Seq<Term>, t: int, a: TermAttribute) -> bool {
    tmembers(ts[t]).attributes & attribute_bit(a) != 0
}

impl Term {
    pub fn term_members(&self) -> (r: &TermMembers)
        ensures
            *r == tmembers(*self),
    {
        match self {
            Term::Free(f) => &f.term_members,
            Term::Variable(v) => &v.term_members,
        }
    }

    pub fn term_members_mut(&mut self) -> (r: &mut TermMembers)
        ensures
            *r == tmembers(*old(self)),
            *final(self) == with_tmembers(*old(self), *final(r)),
    {
        match self {
            Term::Free(f) => &mut f.term_members,
            Term::Variable(v) => &mut v.term_members,
        }
    }
}

pub proof fn lemma_same_shape_trans(ts1: Seq<Term>, ts2: Seq<Term>, ts3: Seq<Term>)
    requires
        same_shape(ts1, ts2),
        same_shape(ts2, ts3),
    ensures
        same_shape(ts1, ts3),
{
    assert forall|i: int| 0 <= i < ts1.len() implies {
        &&& #[trigger] term_args(ts1[i]) == term_args(ts3[i])
        &&& term_symbol(ts1[i]) == term_symbol(ts3[i])
        &&& (ts1[i] is Free) == (ts3[i] is Free)
    } by {
        assert(term_args(ts1[i]) == term_args(ts2[i]));
        assert(term_args(ts2[i]) == term_args(ts3[i]));
    }
}

/// Changing only the members of a term keeps the shape of the store.
pub proof fn lemma_update_members_shape(ts: Seq<Term>, t: int, m: TermMembers)
    requires
        0 <= t < ts.len(),
        m.top_symbol == tmembers(ts[t]).top_symbol,
    ensures
        same_shape(ts, ts.update(t, with_tmembers(ts[t], m))),
{
}

/// Stores of the same shape are well formed together.
pub proof fn lemma_same_shape_wf(sig: Seq<SymbolMembers>, ts1: Seq<Term>, ts2: Seq<Term>)
    requires
        store_wf(sig, ts1),
        same_shape(ts1, ts2),
    ensures
        store_wf(sig, ts2),
{
    assert forall|i: int| 0 <= i < ts2.len() implies #[trigger] term_wf(sig, ts2[i], i) by {
        assert(term_wf(sig, ts1[i], i));
        assert(term_args(ts1[i]) == term_args(ts2[i]));
    }
}

impl TermStore {
    /// An empty store.
    pub fn new() -> (r: TermStore)
        ensures
            r.terms@.len() == 0,
    {
        TermStore { terms: Vec::new() }
    }

    /// Adds a term and returns its index.
    pub fn add(&mut self, t: Term) -> (r: usize)
        ensures
            r == old(self).terms@.len(),
            final(self).terms@ == old(self).terms@.push(t),
    {
        self.terms.push(t);
        self.terms.len() - 1
    }

    /// The number of arguments of term `t`.
    pub fn arg_count(&self, t: usize) -> (r: usize)
        requires
            t < self.terms@.len(),
        ensures
            r == term_args(self.terms@[t as int]).len(),
    {
        match &self.terms[t] {
            Term::Free(f) => f.args.len(),
            Term::Variable(_) => 0,
        }
    }

    /// Argument `k` of term `t`.
    pub fn arg(&self, t: usize, k: usize) -> (r: usize)
        requires
            t < self.terms@.len(),
            k < term_args(self.terms@[t as int]).len(),
        ensures
            r == term_args(self.terms@[t as int])[k as int],
    {
        match &self.terms[t] {
            Term::Free(f) => f.args[k],
            Term::Variable(_) => 0,
        }
    }

    /// Whether the term has the attribute.
    fn has(&self, t: usize, a: TermAttribute) -> (r: bool)
        requires
            t < self.terms@.len(),
        ensures
            r == has_attribute(self.terms@, t as int, a),
    {
        self.terms[t].term_members().attributes & a.bit() != 0
    }

    /// Whether the top symbol of `t` cannot change under instantiation.
    pub fn is_stable(&self, t: usize) -> (r: bool)
        requires
            t < self.terms@.len(),
        ensures
            r == has_attribute(self.terms@, t as int, TermAttribute::Stable),
    {
        self.has(t, TermAttribute::Stable)
    }

    /// Whether matching `t` never returns a subproblem when all its variables are bound.
    pub fn honors_ground_out_match(&self, t: usize) -> (r: bool)
        requires
            t < self.terms@.len(),
        ensures
            r == has_attribute(self.terms@, t as int, TermAttribute::HonorsGroundOutMatch),
    {
        self.has(t, TermAttribute::HonorsGroundOutMatch)
    }

    /// Whether `t` is in an eager context.
    pub fn is_eager_context(&self, t: usize) -> (r: bool)
        requires
            t < self.terms@.len(),
        ensures
            r == has_attribute(self.terms@, t as int, TermAttribute::EagerContext),
    {
        self.has(t, TermAttribute::EagerContext)
    }

    /// Sets the attribute on `t`.
    pub fn set_attribute(&mut self, t: usize, a: TermAttribute)
        requires
            t < old(self).terms@.len(),
        ensures
            final(self).terms@ == old(self).terms@.update(t as int, with_tmembers(
                old(self).terms@[t as int],
                TermMembers { attributes: tmembers(old(self).terms@[t as int]).attributes | attribute_bit(a), ..tmembers(old(self).terms@[t as int]) },
            )),
    {
        let m = self.terms[t].term_members_mut();
        m.attributes = m.attributes | a.bit();
    }

    /// Clears the attribute of `t`.
    pub fn reset_attribute(&mut self, t: usize, a: TermAttribute)
        requires
            t < old(self).terms@.len(),
        ensures
            final(self).terms@ == old(self).terms@.update(t as int, with_tmembers(
                old(self).terms@[t as int],
                TermMembers { attributes: tmembers(old(self).terms@[t as int]).attributes & !attribute_bit(a), ..tmembers(old(self).terms@[t as int]) },
            )),
    {
        let m = self.terms[t].term_members_mut();
        m.attributes = m.attributes & !a.bit();
    }

    /// Sets or clears "honors ground out match" on `t`.
    pub fn set_honors_ground_out_match(&mut self, t: usize, value: bool)
        requires
            t < old(self).terms@.len(),
        ensures
            final(self).terms@ == old(self).terms@.update(t as int, with_tmembers(
                old(self).terms@[t as int],
                TermMembers { attributes: if value {
                    tmembers(old(self).terms@[t as int]).attributes | 4u8
                } else {
                    tmembers(old(self).terms@[t as int]).attributes & !4u8
                }, ..tmembers(old(self).terms@[t as int]) },
            )),
    {
        if value {
            self.set_attribute(t, TermAttribute::HonorsGroundOutMatch);
        } else {
            self.reset_attribute(t, TermAttribute::HonorsGroundOutMatch);
        }
    }

    /// Whether `t` is a variable.
    pub fn is_variable(&self, sig: &crate::dag_node::Signature, t: usize) -> (r: bool)
        requires
            store_wf(sig.symbols@, self.terms@),
            t < self.terms@.len(),
        ensures
            r == (self.terms@[t as int] is Variable),
    {
        assert(term_wf(sig.symbols@, self.terms@[t as int], t as int));
        sig.symbols[self.terms[t].term_members().top_symbol].is_variable
    }

    /// Whether no variable occurs in `t`.
    pub fn ground(&self, t: usize) -> (r: bool)
        requires
            t < self.terms@.len(),
        ensures
            r == (tmembers(self.terms@[t as int]).occurs_set@ == Set::<int>::empty()),
    {
        self.terms[t].term_members().occurs_set.is_empty()
    }

    /// Whether `t` honors ground out match and all its variables are in `bound_uniquely`.
    pub fn will_ground_out_match(&self, t: usize, bound_uniquely: &NatSet) -> (r: bool)
        requires
            t < self.terms@.len(),
        ensures
            r == (has_attribute(self.terms@, t as int, TermAttribute::HonorsGroundOutMatch)
                && tmembers(self.terms@[t as int]).occurs_set@.subset_of(bound_uniquely@)),
    {
        self.honors_ground_out_match(t) && bound_uniquely.is_superset(&self.terms[t].term_members().occurs_set)
    }

    /// Records the sort information of `t`: its connected component and its sort index.
    pub fn set_sort_info(&mut self, t: usize, connected_component: usize, sort_index: i32)
        requires
            t < old(self).terms@.len(),
        ensures
            final(self).terms@ == old(self).terms@.update(t as int, with_tmembers(
                old(self).terms@[t as int],
                TermMembers { connected_component, sort_index, ..tmembers(old(self).terms@[t as int]) },
            )),
    {
        let m = self.terms[t].term_members_mut();
        m.connected_component = connected_component;
        m.sort_index = sort_index;
    }
}


/// The number of symbol occurrences in term `t` (shared arguments counted each time).
pub open spec fn term_size(ts: Seq<Term>, t: int) -> nat
    decreases t, 1int, 0int,
{
    if !(0 <= t < ts.len()) {
        1
    } else {
        1 + args_size(ts, t, term_args(ts[t]).len() as int)
    }
}

/// The sizes of the first `k` arguments of `t`, summed.
pub open spec fn args_size(ts: Seq<Term>, t: int, k: int) -> nat
    decreases t, 0int, k,
{
    if k <= 0 || !(0 <= t < ts.len()) || k > term_args(ts[t]).len() {
        0
    } else {
        let a = term_args(ts[t])[k - 1] as int;
        args_size(ts, t, k - 1) + if 0 <= a < t {
            term_size(ts, a)
        } else {
            0
        }
    }
}

/// Every cached size is either unset or right.
pub open spec fn sizes_ok(ts: Seq<Term>) -> bool {
    forall|i: int| 0 <= i < ts.len() ==> {
        let c = #[trigger] tmembers(ts[i]).cached_size;
        c == UNDEFINED || c == term_size(ts, i)
    }
}

/// Sizes depend only on the shape of the store.
pub proof fn lemma_size_shape(ts1: Seq<Term>, ts2: Seq<Term>, t: int)
    requires
        same_shape(ts1, ts2),
    ensures
        term_size(ts1, t) == term_size(ts2, t),
    decreases t, 1int, 0int,
{
    if 0 <= t < ts1.len() {
        lemma_args_size_shape(ts1, ts2, t, term_args(ts1[t]).len() as int);
    }
}

proof fn lemma_args_size_shape(ts1: Seq<Term>, ts2: Seq<Term>, t: int, k: int)
    requires
        same_shape(ts1, ts2),
        0 <= t < ts1.len(),
    ensures
        args_size(ts1, t, k) == args_size(ts2, t, k),
    decreases t, 0int, k,
{
    assert(term_args(ts1[t]) == term_args(ts2[t]));
    if k > 0 && k <= term_args(ts1[t]).len() {
        lemma_args_size_shape(ts1, ts2, t, k - 1);
        let a = term_args(ts1[t])[k - 1] as int;
        if 0 <= a < t {
            lemma_size_shape(ts1, ts2, a);
        }
    }
}

proof fn lemma_args_size_mono(ts: Seq<Term>, t: int, j: int, k: int)
    requires
        0 <= j <= k,
        0 <= t < ts.len(),
        k <= term_args(ts[t]).len(),
    ensures
        args_size(ts, t, j) <= args_size(ts, t, k),
    decreases k - j,
{
    if j < k {
        lemma_args_size_mono(ts, t, j, k - 1);
    }
}

impl TermStore {
    /// The number of symbol occurrences in term `t`, cached in each term it visits.
    pub fn compute_size(&mut self, sig: &crate::dag_node::Signature, t: usize) -> (r: i32)
        requires
            store_wf(sig.symbols@, old(self).terms@),
            sizes_ok(old(self).terms@),
            t < old(self).terms@.len(),
            term_size(old(self).terms@, t as int) <= i32::MAX,
        ensures
            r as int == term_size(old(self).terms@, t as int),
            same_shape(old(self).terms@, final(self).terms@),
            store_wf(sig.symbols@, final(self).terms@),
            sizes_ok(final(self).terms@),
        decreases t,
    {
        let c = self.terms[t].term_members().cached_size;
        if c != UNDEFINED {
            return c;
        }
        assert(term_wf(sig.symbols@, self.terms@[t as int], t as int));
        let ghost ts0 = self.terms@;
        let n = self.arg_count(t);
        let mut size: i32 = 1;
        let mut k: usize = 0;
        while k < n
            invariant
                store_wf(sig.symbols@, self.terms@),
                sizes_ok(self.terms@),
                same_shape(ts0, self.terms@),
                t < self.terms@.len(),
                n == term_args(ts0[t as int]).len(),
                k <= n,
                size as int == 1 + args_size(ts0, t as int, k as int),
                term_size(ts0, t as int) <= i32::MAX,
            decreases n - k,
        {
            assert(term_args(ts0[t as int]) == term_args(self.terms@[t as int]));
            assert(term_wf(sig.symbols@, self.terms@[t as int], t as int));
            let a = self.arg(t, k);
            proof {
                lemma_args_size_mono(ts0, t as int, k as int + 1, n as int);
                lemma_size_shape(ts0, self.terms@, a as int);
            }
            let s = self.compute_size(sig, a);
            proof {
                lemma_size_shape(ts0, self.terms@, a as int);
            }
            size = size + s;
            k = k + 1;
        }
        let ghost ts1 = self.terms@;
        let m = self.terms[t].term_members_mut();
        m.cached_size = size;
        proof {
            lemma_update_members_shape(ts1, t as int, tmembers(self.terms@[t as int]));
            assert(same_shape(ts1, self.terms@));
            lemma_same_shape_trans(ts0, ts1, self.terms@);
            lemma_same_shape_wf(sig.symbols@, ts1, self.terms@);
            assert forall|i: int| 0 <= i < self.terms@.len() implies {
                let c = #[trigger] tmembers(self.terms@[i]).cached_size;
                c == UNDEFINED || c == term_size(self.terms@, i)
            } by {
                lemma_size_shape(ts1, self.terms@, i);
                lemma_size_shape(ts0, self.terms@, i);
                if i != t as int {
                    assert(tmembers(ts1[i]).cached_size == tmembers(self.terms@[i]).cached_size);
                }
            }
        }
        size
    }
}


pub open spec fn term_at(ts: Seq<Term>, t: usize) -> Term {
    ts[t as int]
}

/// `t` names a term of the store whose symbol is in the signature.
pub open spec fn in_store(sig: Seq<SymbolMembers>, ts: Seq<Term>, t: usize) -> bool {
    &&& t < ts.len()
    &&& 0 <= term_symbol(ts[t as int]) < sig.len()
}

pub open spec fn thash_at(sig: Seq<SymbolMembers>, ts: Seq<Term>, t: usize) -> u32 {
    sig[term_symbol(ts[t as int])].hash_value
}

pub open spec fn targs_len(ts: Seq<Term>, t: usize) -> int {
    term_args(ts[t as int]).len() as int
}

pub open spec fn targ_at(ts: Seq<Term>, t: usize, k: int) -> usize {
    term_args(ts[t as int])[k]
}

pub open spec fn tsymbol_at(ts: Seq<Term>, t: usize) -> int {
    term_symbol(ts[t as int])
}

pub open spec fn stable_at(ts: Seq<Term>, t: usize) -> bool {
    has_attribute(ts, t as int, TermAttribute::Stable)
}

impl TermStore {
    /// The hash of the top symbol of `t`.
    pub fn symbol_hash_of(&self, sig: &crate::dag_node::Signature, t: usize) -> (r: u32)
        requires
            in_store(sig.symbols@, self.terms@, t),
        ensures
            r == thash_at(sig.symbols@, self.terms@, t),
    {
        sig.symbols[self.terms[t].term_members().top_symbol].hash_value
    }

    /// The index of the top symbol of `t`.
    pub fn symbol_of(&self, t: usize) -> (r: usize)
        requires
            t < self.terms@.len(),
        ensures
            r == tsymbol_at(self.terms@, t),
    {
        self.terms[t].term_members().top_symbol
    }
}


/// Whether a non-negative variable index lies below `len`.
pub fn slot_below(index: i32, len: usize) -> (r: bool)
    requires
        index >= 0,
    ensures
        r == ((index as int) < len),
{
    (index as usize) < len
}

/// A non-negative variable index as a position in a substitution.
pub fn slot_of(index: i32) -> (r: usize)
    requires
        index >= 0,
    ensures
        r as int == index as int,
{
    index as usize
}


/// The binding of the variable with index `index`: none when the index is negative or too large.
pub open spec fn binding_of_index(s: Seq<crate::substitution::MaybeDagNode>, index: i32) -> crate::substitution::MaybeDagNode {
    if 0 <= index < s.len() {
        s[index as int]
    } else {
        None
    }
}

} // verus!
