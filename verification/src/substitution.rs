//! A `Substitution` binds small integers (variable indices) to DAG nodes.
use vstd::prelude::*;
use crate::dag_node::{DagHeap, Signature, heap_wf};
use crate::dag_compare::consistent_binding;

verus! {

/// A binding of a variable index to a node, or nothing.
pub type MaybeDagNode = Option<usize>;

/// Bindings of variable indices to DAG nodes.
pub struct Substitution {
    pub bindings: Vec<MaybeDagNode>,
    pub copy_size: u32,
}

/// A set of bindings to add to, and later remove from, a substitution.
pub struct LocalBindings {
    pub bindings: Vec<(u32, usize)>,
}

impl LocalBindings {
    /// No bindings.
    pub fn new() -> (r: LocalBindings)
        ensures
            r.bindings@ == Seq::<(u32, usize)>::empty(),
    {
        LocalBindings { bindings: Vec::new() }
    }

    /// Adds the binding of `index` to `value`.
    pub fn add_binding(&mut self, index: u32, value: usize)
        ensures
            final(self).bindings@ == old(self).bindings@.push((index, value)),
    {
        self.bindings.push((index, value));
    }

    /// The number of bindings.
    pub fn len(&self) -> (r: usize)
        ensures
            r == self.bindings@.len(),
    {
        self.bindings.len()
    }

    /// Makes each binding in `solution`.
    pub fn assert_bindings(&self, solution: &mut Substitution)
        requires
            forall|k: int| 0 <= k < self.bindings@.len() ==> (#[trigger] self.bindings@[k]).0 < old(solution).bindings@.len(),
        ensures
            final(solution).bindings@ == asserted(old(solution).bindings@, self.bindings@, self.bindings@.len() as int),
            final(solution).copy_size == old(solution).copy_size,
    {
        let mut i: usize = 0;
        while i < self.bindings.len()
            invariant
                i <= self.bindings@.len(),
                solution.bindings@.len() == old(solution).bindings@.len(),
                solution.copy_size == old(solution).copy_size,
                forall|k: int| 0 <= k < self.bindings@.len() ==> (#[trigger] self.bindings@[k]).0 < old(solution).bindings@.len(),
                solution.bindings@ == asserted(old(solution).bindings@, self.bindings@, i as int),
            decreases self.bindings@.len() - i,
        {
            let (index, value) = self.bindings[i];
            solution.bind(index, Some(value));
            i = i + 1;
        }
    }

    /// Removes each binding from `solution`.
    pub fn retract(&self, solution: &mut Substitution)
        requires
            forall|k: int| 0 <= k < self.bindings@.len() ==> (#[trigger] self.bindings@[k]).0 < old(solution).bindings@.len(),
        ensures
            final(solution).bindings@ == retracted(old(solution).bindings@, self.bindings@, self.bindings@.len() as int),
            final(solution).copy_size == old(solution).copy_size,
    {
        let mut i: usize = 0;
        while i < self.bindings.len()
            invariant
                i <= self.bindings@.len(),
                solution.bindings@.len() == old(solution).bindings@.len(),
                solution.copy_size == old(solution).copy_size,
                forall|k: int| 0 <= k < self.bindings@.len() ==> (#[trigger] self.bindings@[k]).0 < old(solution).bindings@.len(),
                solution.bindings@ == retracted(old(solution).bindings@, self.bindings@, i as int),
            decreases self.bindings@.len() - i,
        {
            let (index, _) = self.bindings[i];
            solution.bind(index, None);
            i = i + 1;
        }
    }
}

/// The bindings after making the first `k` of `local`.
pub open spec fn asserted(s: Seq<MaybeDagNode>, local: Seq<(u32, usize)>, k: int) -> Seq<MaybeDagNode>
    decreases k,
{
    if k <= 0 {
        s
    } else {
        asserted(s, local, k - 1).update(local[k - 1].0 as int, Some(local[k - 1].1))
    }
}

/// The bindings after removing the first `k` of `local`.
pub open spec fn retracted(s: Seq<MaybeDagNode>, local: Seq<(u32, usize)>, k: int) -> Seq<MaybeDagNode>
    decreases k,
{
    if k <= 0 {
        s
    } else {
        retracted(s, local, k - 1).update(local[k - 1].0 as int, None)
    }
}

/// Removing bindings keeps the number of variables.
pub proof fn lemma_retracted_len(s: Seq<MaybeDagNode>, local: Seq<(u32, usize)>, k: int)
    requires
        k <= local.len(),
        forall|j: int| 0 <= j < local.len() ==> (#[trigger] local[j]).0 < s.len(),
    ensures
        retracted(s, local, k).len() == s.len(),
    decreases k,
{
    if k > 0 {
        lemma_retracted_len(s, local, k - 1);
    }
}

/// Some of the first `k` bindings of `local` is for variable `j`.
pub open spec fn touched(local: Seq<(u32, usize)>, k: int, j: int) -> bool {
    exists|m: int| 0 <= m < k && (#[trigger] local[m]).0 == j
}

/// Making bindings leaves the number of variables alone, and every variable that none
/// of them is for keeps its binding.
pub proof fn lemma_asserted_untouched(s: Seq<MaybeDagNode>, local: Seq<(u32, usize)>, k: int, j: int)
    requires
        k <= local.len(),
        forall|m: int| 0 <= m < local.len() ==> (#[trigger] local[m]).0 < s.len(),
    ensures
        asserted(s, local, k).len() == s.len(),
        0 <= j < s.len() && !touched(local, k, j) ==> asserted(s, local, k)[j] == s[j],
    decreases k,
{
    if k > 0 {
        lemma_asserted_untouched(s, local, k - 1, j);
        if !touched(local, k, j) {
            assert(!touched(local, k - 1, j)) by {
                if touched(local, k - 1, j) {
                    let m = choose|m: int| 0 <= m < k - 1 && (#[trigger] local[m]).0 == j;
                    assert(0 <= m < k && local[m].0 == j);
                }
            }
            assert(local[k - 1].0 != j);
        }
    }
}

/// After removing bindings, every variable that one of them is for is unbound, and
/// every other variable keeps its binding.
pub proof fn lemma_retracted_shape(t: Seq<MaybeDagNode>, local: Seq<(u32, usize)>, k: int, j: int)
    requires
        0 <= k <= local.len(),
        0 <= j < t.len(),
        forall|m: int| 0 <= m < local.len() ==> (#[trigger] local[m]).0 < t.len(),
    ensures
        retracted(t, local, k).len() == t.len(),
        retracted(t, local, k)[j] == (if touched(local, k, j) { None } else { t[j] }),
    decreases k,
{
    lemma_retracted_len(t, local, k);
    if k > 0 {
        lemma_retracted_shape(t, local, k - 1, j);
        lemma_retracted_len(t, local, k - 1);
        if local[k - 1].0 == j {
            assert(touched(local, k, j));
        } else if touched(local, k, j) {
            let m = choose|m: int| 0 <= m < k && (#[trigger] local[m]).0 == j;
            assert(m < k - 1);
            assert(touched(local, k - 1, j));
        } else {
            assert(!touched(local, k - 1, j)) by {
                if touched(local, k - 1, j) {
                    let m = choose|m: int| 0 <= m < k - 1 && (#[trigger] local[m]).0 == j;
                    assert(0 <= m < k && local[m].0 == j);
                }
            }
        }
    }
}

/// Binding a variable and then reading it gives back what was bound; every other
/// variable reads as before.
pub proof fn lemma_bind_then_read(s: Seq<MaybeDagNode>, index: int, value: MaybeDagNode, other: int)
    requires
        0 <= index < s.len(),
    ensures
        binding(s.update(index, value), index) == value,
        other != index ==> binding(s.update(index, value), other) == binding(s, other),
{
}

/// Retracting a set of local bindings undoes asserting them, when every variable they
/// are for was unbound before.
pub proof fn lemma_retract_undoes_assert(s: Seq<MaybeDagNode>, local: Seq<(u32, usize)>)
    requires
        forall|m: int| 0 <= m < local.len() ==> (#[trigger] local[m]).0 < s.len(),
        forall|m: int| 0 <= m < local.len() ==> s[(#[trigger] local[m]).0 as int] is None,
    ensures
        retracted(asserted(s, local, local.len() as int), local, local.len() as int) == s,
{
    let n = local.len() as int;
    let a = asserted(s, local, n);
    lemma_asserted_untouched(s, local, n, 0);
    let r = retracted(a, local, n);
    assert forall|j: int| 0 <= j < s.len() implies #[trigger] r[j] == s[j] by {
        lemma_asserted_untouched(s, local, n, j);
        lemma_retracted_shape(a, local, n, j);
        if touched(local, n, j) {
            let m = choose|m: int| 0 <= m < n && (#[trigger] local[m]).0 == j;
            assert(s[local[m].0 as int] is None);
        }
    }
    lemma_retracted_len(a, local, n);
    assert(r =~= s);
}

/// Every bound node is in a heap of `len` nodes.
pub open spec fn bindings_in_heap(s: Seq<MaybeDagNode>, len: nat) -> bool {
    forall|i: int| 0 <= i < s.len() ==> match #[trigger] s[i] {
        Some(x) => x < len,
        None => true,
    }
}

/// The binding of `index`, or nothing when `index` is out of range.
pub open spec fn binding(s: Seq<MaybeDagNode>, index: int) -> MaybeDagNode {
    if 0 <= index < s.len() {
        s[index]
    } else {
        None
    }
}

impl Substitution {
    /// A substitution with no room for bindings.
    pub fn new() -> (r: Substitution)
        ensures
            r.bindings@ == Seq::<MaybeDagNode>::empty(),
            r.copy_size == 0,
    {
        Substitution { bindings: Vec::new(), copy_size: 0 }
    }

    /// A substitution with `n` unbound variables, all of which are copied by
    /// `copy_from_substitution`.
    pub fn with_capacity(n: u32) -> (r: Substitution)
        ensures
            r.bindings@ == Seq::new(n as nat, |i: int| None::<usize>),
            r.copy_size == n,
    {
        let mut bindings: Vec<MaybeDagNode> = Vec::with_capacity(n as usize);
        let mut i: u32 = 0;
        while i < n
            invariant
                i <= n,
                bindings@ == Seq::new(i as nat, |j: int| None::<usize>),
            decreases n - i,
        {
            bindings.push(None);
            i = i + 1;
            assert(bindings@ =~= Seq::new(i as nat, |j: int| None::<usize>));
        }
        Substitution { bindings, copy_size: n }
    }

    /// Grows or shrinks to `size` variables; new variables are unbound.
    pub fn resize(&mut self, size: usize)
        ensures
            final(self).bindings@.len() == size,
            forall|i: int| 0 <= i < size ==> #[trigger] final(self).bindings@[i] == binding(old(self).bindings@, i),
            final(self).copy_size == old(self).copy_size,
    {
        self.bindings.resize(size, None);
    }

    /// The binding of variable `index`.
    pub fn value(&self, index: u32) -> (r: MaybeDagNode)
        ensures
            r == binding(self.bindings@, index as int),
    {
        self.get(index as usize)
    }

    /// The binding of variable `index`, or `None` when `index` is out of range.
    pub fn get(&self, index: usize) -> (r: MaybeDagNode)
        ensures
            r == binding(self.bindings@, index as int),
    {
        if index < self.bindings.len() {
            self.bindings[index]
        } else {
            None
        }
    }

    /// The number of variables.
    pub fn len(&self) -> (r: usize)
        ensures
            r == self.bindings@.len(),
    {
        self.bindings.len()
    }

    /// The number of bindings that `copy_from_substitution` copies.
    pub fn fragile_binding_count(&self) -> (r: u32)
        ensures
            r == self.copy_size,
    {
        self.copy_size
    }

    /// Binds (or unbinds) variable `index`.
    pub fn bind(&mut self, index: u32, maybe_value: MaybeDagNode)
        requires
            (index as int) < old(self).bindings@.len(),
        ensures
            final(self).bindings@ == old(self).bindings@.update(index as int, maybe_value),
            final(self).copy_size == old(self).copy_size,
    {
        self.bindings.set(index as usize, maybe_value);
    }

    /// Copies the bindings of `original`, which has the same copy size, unless that size is 0.
    pub fn copy_from_substitution(&mut self, original: &Substitution)
        requires
            old(self).copy_size == original.copy_size,
        ensures
            final(self).copy_size == old(self).copy_size,
            final(self).bindings@ == (if original.copy_size > 0 { original.bindings@ } else { old(self).bindings@ }),
    {
        if self.copy_size > 0 {
            self.bindings = original.bindings.clone();
        }
    }

    /// Always `None`: the difference collects the variables that both substitutions bind to
    /// different nodes, and with `original` consistent with `self` (wherever both bind a
    /// variable the two nodes are equal) there are none.
    pub fn subtract(&self, original: &Substitution, sig: &Signature, heap: &DagHeap) -> (r: Option<LocalBindings>)
        requires
            heap_wf(sig.symbols@, heap.nodes@),
            bindings_in_heap(self.bindings@, heap.nodes@.len()),
            bindings_in_heap(original.bindings@, heap.nodes@.len()),
            forall|i: int| 0 <= i < self.bindings@.len() && 0 <= i < original.bindings@.len() ==> consistent_binding(
                sig.symbols@,
                heap.nodes@,
                #[trigger] self.bindings@[i],
                original.bindings@[i],
            ),
        ensures
            r is None,
    {
        let mut local_bindings = LocalBindings::new();
        let n = if self.bindings.len() < original.bindings.len() {
            self.bindings.len()
        } else {
            original.bindings.len()
        };
        let mut idx: usize = 0;
        while idx < n
            invariant
                n <= self.bindings@.len(),
                n <= original.bindings@.len(),
                idx <= n,
                heap_wf(sig.symbols@, heap.nodes@),
                bindings_in_heap(self.bindings@, heap.nodes@.len()),
                bindings_in_heap(original.bindings@, heap.nodes@.len()),
                forall|i: int| 0 <= i < self.bindings@.len() && 0 <= i < original.bindings@.len() ==> consistent_binding(
                    sig.symbols@,
                    heap.nodes@,
                    #[trigger] self.bindings@[i],
                    original.bindings@[i],
                ),
                local_bindings.bindings@.len() == 0,
            decreases n - idx,
        {
            match (self.bindings[idx], original.bindings[idx]) {
                (Some(a), Some(b)) => {
                    assert(consistent_binding(sig.symbols@, heap.nodes@, self.bindings@[idx as int], original.bindings@[idx as int]));
                    if !heap.equal(sig, a, b) {
                        local_bindings.add_binding(idx as u32, a);
                    }
                },
                _ => {},
            }
            idx = idx + 1;
        }
        if local_bindings.len() > 0 {
            Some(local_bindings)
        } else {
            None
        }
    }
}

} // verus!
