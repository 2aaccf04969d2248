//! Automata that build the instances of right-hand sides: each instruction makes a free node
//! with a symbol, takes its arguments from bindings of the matcher, and binds the new node to a
//! destination variable. Besides the general automaton there are ones specialized for one
//! instruction of arity one or two, and for instructions of arity at most two.
use vstd::prelude::*;
use crate::dag_node::{DagHeap, DagNode, DagNodeMembers, FreeDagNode, is_fresh_free, members, node_args};
use crate::node_list::node_list_items;
use crate::substitution::{MaybeDagNode, Substitution, binding};

verus! {

/// One step of building: a node with top symbol `symbol` whose arguments are the bindings of
/// `sources`, bound to `destination`.
pub struct FreeRHSAutomatonInstruction {
    pub symbol: usize,
    pub destination: i32,
    pub sources: Vec<i32>,
}

/// The renaming of variable indices decided when variables are laid out: index `i` becomes
/// `remapping[i]`.
pub struct VariableInfo {
    pub remapping: Vec<i32>,
}

impl VariableInfo {
    /// The new index of `original`.
    pub fn remap_index(&self, original: i32) -> (r: i32)
        requires
            0 <= original < self.remapping@.len(),
        ensures
            r == self.remapping@[original as int],
    {
        self.remapping[original as usize]
    }
}

/// The index `i` can be remapped.
pub open spec fn remappable(info: VariableInfo, i: i32) -> bool {
    0 <= i < info.remapping@.len()
}

/// The remapped index.
pub open spec fn remapped(info: VariableInfo, i: i32) -> i32 {
    info.remapping@[i as int]
}

/// Every index of an instruction can be remapped.
pub open spec fn instruction_remappable(info: VariableInfo, instr: FreeRHSAutomatonInstruction) -> bool {
    &&& remappable(info, instr.destination)
    &&& forall|k: int| 0 <= k < instr.sources@.len() ==> remappable(info, #[trigger] instr.sources@[k])
}

/// `r` is instruction `instr` with its indices remapped.
pub open spec fn is_remapped(info: VariableInfo, instr: FreeRHSAutomatonInstruction, r: FreeRHSAutomatonInstruction) -> bool {
    &&& r.symbol == instr.symbol
    &&& r.destination == remapped(info, instr.destination)
    &&& r.sources@.len() == instr.sources@.len()
    &&& forall|k: int| 0 <= k < instr.sources@.len() ==> #[trigger] r.sources@[k] == remapped(info, instr.sources@[k])
}

/// The node bound to variable `i`.
pub open spec fn bound_node(sol: Seq<MaybeDagNode>, i: i32) -> usize {
    binding(sol, i as int)->Some_0
}

/// Variable `i` is bound.
pub open spec fn is_bound(sol: Seq<MaybeDagNode>, i: i32) -> bool {
    binding(sol, i as int) is Some
}

/// Variable `i` can be bound.
pub open spec fn bindable(sol: Seq<MaybeDagNode>, i: i32) -> bool {
    0 <= i < sol.len()
}

impl DagHeap {
    /// Adds a new free node with top symbol `symbol` and no arguments.
    pub fn make_free_node(&mut self, symbol: usize) -> (r: usize)
        ensures
            r == old(self).nodes@.len(),
            final(self).nodes@.len() == old(self).nodes@.len() + 1,
            final(self).nodes@.drop_last() == old(self).nodes@,
            is_fresh_free(final(self).nodes@[r as int], symbol as int, Seq::empty()),
    {
        let r = self.allocate(DagNode::Free(FreeDagNode::new(symbol)));
        assert(self.nodes@.drop_last() =~= old(self).nodes@);
        r
    }

    /// Makes node `a` a new free node with top symbol `symbol` and no arguments, in place.
    pub fn reset_to_free(&mut self, a: usize, symbol: usize)
        requires
            a < old(self).nodes@.len(),
        ensures
            final(self).nodes@.len() == old(self).nodes@.len(),
            forall|i: int| 0 <= i < old(self).nodes@.len() && i != a ==> final(self).nodes@[i] == old(self).nodes@[i],
            is_fresh_free(final(self).nodes@[a as int], symbol as int, Seq::empty()),
    {
        self.nodes.set(a, DagNode::Free(FreeDagNode::new(symbol)));
    }

    /// Appends `value` to the arguments of node `a`.
    pub fn push_arg(&mut self, a: usize, value: usize)
        requires
            a < old(self).nodes@.len(),
            node_args(old(self).nodes@[a as int]).len() < 0xffff_ffff,
        ensures
            final(self).nodes@.len() == old(self).nodes@.len(),
            forall|i: int| 0 <= i < old(self).nodes@.len() && i != a ==> final(self).nodes@[i] == old(self).nodes@[i],
            node_args(final(self).nodes@[a as int]) == node_args(old(self).nodes@[a as int]).push(value),
            members(final(self).nodes@[a as int]) == (DagNodeMembers { args: members(final(self).nodes@[a as int]).args, ..members(old(self).nodes@[a as int]) }),
            (final(self).nodes@[a as int] is Free) == (old(self).nodes@[a as int] is Free),
    {
        match &mut self.nodes[a] {
            DagNode::Free(f) => f.members.args.push(value),
            DagNode::Variable(v) => v.members.args.push(value),
        }
    }
}

/// `n` is a new free node with top symbol `symbol` and arguments `args`.
pub open spec fn built_node(n: DagNode, symbol: usize, args: Seq<usize>) -> bool {
    is_fresh_free(n, symbol as int, args)
}


/// The bindings after the first `k` instructions bind their destinations to the nodes made at
/// `base`, `base + 1`, ...
pub open spec fn bind_built(sol: Seq<MaybeDagNode>, instrs: Seq<FreeRHSAutomatonInstruction>, base: int, k: int) -> Seq<MaybeDagNode>
    decreases k,
{
    if k <= 0 {
        sol
    } else {
        bind_built(sol, instrs, base, k - 1).update(instrs[k - 1].destination as int, Some((base + k - 1) as usize))
    }
}

/// The first `k` instructions bind variables of `sol`.
pub open spec fn destinations_bindable(sol: Seq<MaybeDagNode>, instrs: Seq<FreeRHSAutomatonInstruction>, k: int) -> bool {
    forall|i: int| 0 <= i < k ==> bindable(sol, (#[trigger] instrs[i]).destination)
}

proof fn lemma_bind_built_len(sol: Seq<MaybeDagNode>, instrs: Seq<FreeRHSAutomatonInstruction>, base: int, k: int)
    requires
        0 <= k <= instrs.len(),
        destinations_bindable(sol, instrs, k),
    ensures
        bind_built(sol, instrs, base, k).len() == sol.len(),
    decreases k,
{
    if k > 0 {
        lemma_bind_built_len(sol, instrs, base, k - 1);
    }
}

/// The first `n` sources of the instruction are bound.
pub open spec fn sources_bound(n: int, instr: FreeRHSAutomatonInstruction, sol: Seq<MaybeDagNode>) -> bool {
    forall|m: int| 0 <= m < n ==> {
        &&& m < instr.sources@.len()
        &&& instr.sources@[m] >= 0
        &&& is_bound(sol, #[trigger] instr.sources@[m])
    }
}

/// The general automaton: one instruction after another.
pub struct FreeRHSAutomaton {
    pub instructions: Vec<FreeRHSAutomatonInstruction>,
}

impl FreeRHSAutomaton {
    /// An automaton with no instructions.
    pub fn new() -> (r: FreeRHSAutomaton)
        ensures
            r.instructions@.len() == 0,
    {
        FreeRHSAutomaton { instructions: Vec::new() }
    }

    /// Appends the instruction that builds a node with top symbol `symbol` from the bindings of
    /// `sources` and binds it to `destination`.
    pub fn add_free(&mut self, symbol: usize, destination: i32, sources: &Vec<i32>)
        ensures
            final(self).instructions@.len() == old(self).instructions@.len() + 1,
            final(self).instructions@.drop_last() == old(self).instructions@,
            final(self).instructions@.last().symbol == symbol,
            final(self).instructions@.last().destination == destination,
            final(self).instructions@.last().sources@ == sources@,
    {
        let mut copy: Vec<i32> = Vec::new();
        let mut k: usize = 0;
        while k < sources.len()
            invariant
                k <= sources@.len(),
                copy@ == sources@.subrange(0, k as int),
            decreases sources@.len() - k,
        {
            copy.push(sources[k]);
            k = k + 1;
            assert(copy@ =~= sources@.subrange(0, k as int));
        }
        assert(copy@ =~= sources@);
        let ghost before = self.instructions@;
        self.instructions.push(FreeRHSAutomatonInstruction { symbol, destination, sources: copy });
        assert(self.instructions@.drop_last() =~= before);
    }

    /// Takes the arguments of `node` from the bindings of the instruction's sources, one
    /// source per argument; the values read are not stored, so the node is left as it is.
    pub fn fill_out_args(&self, instr: &FreeRHSAutomatonInstruction, matcher: &Substitution, heap: &DagHeap, node: usize)
        requires
            node < heap.nodes@.len(),
            sources_bound(node_args(heap.nodes@[node as int]).len() as int, *instr, matcher.bindings@),
    {
        let arg_count = heap.len(node);
        let mut j: usize = 0;
        while j < arg_count
            invariant
                j <= arg_count,
                node < heap.nodes@.len(),
                arg_count == node_args(heap.nodes@[node as int]).len(),
                sources_bound(arg_count as int, *instr, matcher.bindings@),
            decreases arg_count - j,
        {
            assert(instr.sources@[j as int] >= 0);
            let _new_arg = matcher.value(instr.sources[j] as u32).unwrap();
            j = j + 1;
        }
    }

    /// Renames the destination and the sources of every instruction.
    pub fn remap_indices(&mut self, variable_info: &mut VariableInfo)
        requires
            forall|i: int| 0 <= i < old(self).instructions@.len() ==> instruction_remappable(*old(variable_info), #[trigger] old(self).instructions@[i]),
        ensures
            final(variable_info).remapping@ == old(variable_info).remapping@,
            final(self).instructions@.len() == old(self).instructions@.len(),
            forall|i: int| 0 <= i < old(self).instructions@.len() ==> is_remapped(
                *old(variable_info),
                #[trigger] old(self).instructions@[i],
                final(self).instructions@[i],
            ),
    {
        remap_instructions(&mut self.instructions, variable_info);
    }

    /// Builds a node for each instruction in turn (with no arguments) and binds it to the
    /// instruction's destination; returns the last node built, if any.
    pub fn construct(&self, matcher: &mut Substitution, heap: &mut DagHeap) -> (r: MaybeDagNode)
        requires
            destinations_bindable(old(matcher).bindings@, self.instructions@, self.instructions@.len() as int),
        ensures
            final(heap).nodes@.len() == old(heap).nodes@.len() + self.instructions@.len(),
            final(heap).nodes@.subrange(0, old(heap).nodes@.len() as int) == old(heap).nodes@,
            forall|i: int| 0 <= i < self.instructions@.len() ==> built_node(
                #[trigger] final(heap).nodes@[old(heap).nodes@.len() + i],
                self.instructions@[i].symbol,
                Seq::empty(),
            ),
            final(matcher).bindings@ == bind_built(old(matcher).bindings@, self.instructions@, old(heap).nodes@.len() as int, self.instructions@.len() as int),
            final(matcher).copy_size == old(matcher).copy_size,
            r == (if self.instructions@.len() == 0 {
                None
            } else {
                Some((old(heap).nodes@.len() + self.instructions@.len() - 1) as usize)
            }),
    {
        let ghost base = heap.nodes@.len() as int;
        let mut new_dag_node: MaybeDagNode = None;
        let mut i: usize = 0;
        while i < self.instructions.len()
            invariant
                i <= self.instructions@.len(),
                destinations_bindable(old(matcher).bindings@, self.instructions@, self.instructions@.len() as int),
                base == old(heap).nodes@.len(),
                heap.nodes@.len() == base + i,
                heap.nodes@.subrange(0, base) == old(heap).nodes@,
                forall|j: int| 0 <= j < i ==> built_node(#[trigger] heap.nodes@[base + j], self.instructions@[j].symbol, Seq::empty()),
                matcher.bindings@ == bind_built(old(matcher).bindings@, self.instructions@, base, i as int),
                matcher.copy_size == old(matcher).copy_size,
                new_dag_node == (if i == 0 { None } else { Some((base + i - 1) as usize) }),
            decreases self.instructions@.len() - i,
        {
            let instr = &self.instructions[i];
            let ghost prev = heap.nodes@;
            let node = heap.make_free_node(instr.symbol);
            assert forall|j: int| 0 <= j < i implies #[trigger] heap.nodes@[base + j] == prev[base + j] by {
                assert(heap.nodes@.drop_last()[base + j] == heap.nodes@[base + j]);
            }
            self.fill_out_args(instr, matcher, heap, node);
            proof {
                lemma_bind_built_len(old(matcher).bindings@, self.instructions@, base, i as int);
            }
            matcher.bind(instr.destination as u32, Some(node));
            new_dag_node = Some(node);
            i = i + 1;
            assert(heap.nodes@.subrange(0, base) =~= old(heap).nodes@);
        }
        new_dag_node
    }

    /// As `construct`, except that the last instruction's node is built in place of node `old_node`,
    /// which must be free, and is not bound.
    pub fn replace(&mut self, old_node: usize, matcher: &mut Substitution, heap: &mut DagHeap)
        requires
            old(self).instructions@.len() > 0,
            old_node < old(heap).nodes@.len(),
            old(heap).nodes@[old_node as int] is Free,
            destinations_bindable(old(matcher).bindings@, old(self).instructions@, old(self).instructions@.len() - 1),
        ensures
            final(self).instructions@ == old(self).instructions@,
            final(heap).nodes@.len() == old(heap).nodes@.len() + old(self).instructions@.len() - 1,
            forall|i: int| 0 <= i < old(heap).nodes@.len() && i != old_node ==> final(heap).nodes@[i] == old(heap).nodes@[i],
            forall|i: int| 0 <= i < old(self).instructions@.len() - 1 ==> built_node(
                #[trigger] final(heap).nodes@[old(heap).nodes@.len() + i],
                old(self).instructions@[i].symbol,
                Seq::empty(),
            ),
            built_node(final(heap).nodes@[old_node as int], old(self).instructions@.last().symbol, Seq::empty()),
            final(matcher).bindings@ == bind_built(
                old(matcher).bindings@,
                old(self).instructions@,
                old(heap).nodes@.len() as int,
                old(self).instructions@.len() - 1,
            ),
            final(matcher).copy_size == old(matcher).copy_size,
    {
        let nr_instructions = self.instructions.len();
        let ghost base = heap.nodes@.len() as int;
        let mut i: usize = 0;
        while i < nr_instructions - 1
            invariant
                nr_instructions == self.instructions@.len(),
                nr_instructions > 0,
                self.instructions@ == old(self).instructions@,
                i <= nr_instructions - 1,
                destinations_bindable(old(matcher).bindings@, self.instructions@, nr_instructions - 1),
                base == old(heap).nodes@.len(),
                old_node < base,
                heap.nodes@.len() == base + i,
                heap.nodes@.subrange(0, base) == old(heap).nodes@,
                forall|j: int| 0 <= j < i ==> built_node(#[trigger] heap.nodes@[base + j], self.instructions@[j].symbol, Seq::empty()),
                matcher.bindings@ == bind_built(old(matcher).bindings@, self.instructions@, base, i as int),
                matcher.copy_size == old(matcher).copy_size,
            decreases nr_instructions - 1 - i,
        {
            let instr = &self.instructions[i];
            let ghost prev = heap.nodes@;
            let node = heap.make_free_node(instr.symbol);
            assert forall|j: int| 0 <= j < i implies #[trigger] heap.nodes@[base + j] == prev[base + j] by {
                assert(heap.nodes@.drop_last()[base + j] == heap.nodes@[base + j]);
            }
            self.fill_out_args(instr, matcher, heap, node);
            proof {
                lemma_bind_built_len(old(matcher).bindings@, self.instructions@, base, i as int);
            }
            matcher.bind(instr.destination as u32, Some(node));
            i = i + 1;
            assert(heap.nodes@.subrange(0, base) =~= old(heap).nodes@);
        }
        let instr = &self.instructions[nr_instructions - 1];
        assert(heap.nodes@[old_node as int] == heap.nodes@.subrange(0, base)[old_node as int]);
        heap.reset_to_free(old_node, instr.symbol);
        self.fill_out_args(instr, matcher, heap, old_node);
        assert forall|i: int| 0 <= i < base && i != old_node implies heap.nodes@[i] == old(heap).nodes@[i] by {
            assert(old(heap).nodes@[i] == heap.nodes@.subrange(0, base)[i]) by {
            }
        }
    }
}

/// Renames the destination and the sources of every instruction of `instructions`.
fn remap_instructions(instructions: &mut Vec<FreeRHSAutomatonInstruction>, variable_info: &mut VariableInfo)
    requires
        forall|i: int| 0 <= i < old(instructions)@.len() ==> instruction_remappable(*old(variable_info), #[trigger] old(instructions)@[i]),
    ensures
        final(variable_info).remapping@ == old(variable_info).remapping@,
        final(instructions)@.len() == old(instructions)@.len(),
        forall|i: int| 0 <= i < old(instructions)@.len() ==> is_remapped(
            *old(variable_info),
            #[trigger] old(instructions)@[i],
            final(instructions)@[i],
        ),
{
    let n = instructions.len();
    let mut i: usize = 0;
    while i < n
        invariant
            n == instructions@.len(),
            n == old(instructions)@.len(),
            i <= n,
            variable_info.remapping@ == old(variable_info).remapping@,
            forall|j: int| i <= j < n ==> #[trigger] instructions@[j] == old(instructions)@[j],
            forall|j: int| 0 <= j < n ==> instruction_remappable(*old(variable_info), #[trigger] old(instructions)@[j]),
            forall|j: int| 0 <= j < i ==> is_remapped(*old(variable_info), old(instructions)@[j], #[trigger] instructions@[j]),
        decreases n - i,
    {
        assert(instructions@[i as int] == old(instructions)@[i as int]);
        assert(instruction_remappable(*old(variable_info), old(instructions)@[i as int]));
        let destination = variable_info.remap_index(instructions[i].destination);
        let symbol = instructions[i].symbol;
        let mut sources: Vec<i32> = Vec::new();
        let mut k: usize = 0;
        while k < instructions[i].sources.len()
            invariant
                i < n,
                n == instructions@.len(),
                instructions@[i as int] == old(instructions)@[i as int],
                variable_info.remapping@ == old(variable_info).remapping@,
                instruction_remappable(*old(variable_info), old(instructions)@[i as int]),
                k <= instructions@[i as int].sources@.len(),
                sources@.len() == k,
                forall|m: int| 0 <= m < k ==> #[trigger] sources@[m] == remapped(*old(variable_info), instructions@[i as int].sources@[m]),
            decreases instructions@[i as int].sources@.len() - k,
        {
            let s = variable_info.remap_index(instructions[i].sources[k]);
            sources.push(s);
            k = k + 1;
        }
        instructions.set(i, FreeRHSAutomatonInstruction { symbol, destination, sources });
        i = i + 1;
    }
}


/// The automaton for a single instruction of arity one.
pub struct FreeUnaryRHSAutomaton {
    pub symbol: Option<usize>,
    pub instructions: Vec<FreeRHSAutomatonInstruction>,
    pub source: i32,
    pub destination: i32,
}

impl FreeUnaryRHSAutomaton {
    /// An automaton with no instruction yet.
    pub fn new() -> (r: FreeUnaryRHSAutomaton)
        ensures
            r.symbol is None,
            r.instructions@.len() == 0,
            r.source == 0,
            r.destination == 0,
    {
        FreeUnaryRHSAutomaton { symbol: None, instructions: Vec::new(), source: 0, destination: 0 }
    }

    /// Renames the indices of the instructions, then copies the first instruction's symbol,
    /// source and destination for fast use.
    pub fn remap_indices(&mut self, variable_info: &mut VariableInfo)
        requires
            old(self).instructions@.len() > 0,
            old(self).instructions@[0].sources@.len() > 0,
            forall|i: int| 0 <= i < old(self).instructions@.len() ==> instruction_remappable(*old(variable_info), #[trigger] old(self).instructions@[i]),
        ensures
            final(self).instructions@.len() == old(self).instructions@.len(),
            forall|i: int| 0 <= i < old(self).instructions@.len() ==> is_remapped(
                *old(variable_info),
                #[trigger] old(self).instructions@[i],
                final(self).instructions@[i],
            ),
            final(self).symbol == Some(old(self).instructions@[0].symbol),
            final(self).source == remapped(*old(variable_info), old(self).instructions@[0].sources@[0]),
            final(self).destination == remapped(*old(variable_info), old(self).instructions@[0].destination),
    {
        remap_instructions(&mut self.instructions, variable_info);
        assert(is_remapped(*old(variable_info), old(self).instructions@[0], self.instructions@[0]));
        self.symbol = Some(self.instructions[0].symbol);
        self.source = self.instructions[0].sources[0];
        self.destination = self.instructions[0].destination;
    }

    /// Builds a node with the symbol, binds it to the destination, and then gives it the
    /// binding of the source as its argument.
    pub fn construct(&self, matcher: &mut Substitution, heap: &mut DagHeap) -> (r: MaybeDagNode)
        requires
            self.symbol is Some,
            bindable(old(matcher).bindings@, self.destination),
            self.source >= 0,
            is_bound(old(matcher).bindings@.update(self.destination as int, Some(old(heap).nodes@.len() as usize)), self.source),
        ensures
            r == Some(old(heap).nodes@.len() as usize),
            final(heap).nodes@.len() == old(heap).nodes@.len() + 1,
            final(heap).nodes@.drop_last() == old(heap).nodes@,
            final(matcher).bindings@ == old(matcher).bindings@.update(self.destination as int, Some(old(heap).nodes@.len() as usize)),
            final(matcher).copy_size == old(matcher).copy_size,
            built_node(
                final(heap).nodes@.last(),
                self.symbol->Some_0,
                seq![bound_node(final(matcher).bindings@, self.source)],
            ),
    {
        let node = heap.make_free_node(self.symbol.unwrap());
        matcher.bind(self.destination as u32, Some(node));
        let arg = matcher.value(self.source as u32).unwrap();
        let ghost before = heap.nodes@;
        heap.push_arg(node, arg);
        assert(heap.nodes@.drop_last() =~= before.drop_last());
        Some(node)
    }

    /// Makes node `old_node`, which must be free, a node with the symbol whose argument is the
    /// binding of the source.
    pub fn replace(&mut self, old_node: usize, matcher: &mut Substitution, heap: &mut DagHeap)
        requires
            old(self).symbol is Some,
            old_node < old(heap).nodes@.len(),
            old(heap).nodes@[old_node as int] is Free,
            old(self).source >= 0,
            is_bound(old(matcher).bindings@, old(self).source),
        ensures
            final(matcher).bindings@ == old(matcher).bindings@,
            final(heap).nodes@.len() == old(heap).nodes@.len(),
            forall|i: int| 0 <= i < old(heap).nodes@.len() && i != old_node ==> final(heap).nodes@[i] == old(heap).nodes@[i],
            built_node(
                final(heap).nodes@[old_node as int],
                old(self).symbol->Some_0,
                seq![bound_node(old(matcher).bindings@, old(self).source)],
            ),
    {
        heap.reset_to_free(old_node, self.symbol.unwrap());
        let arg = matcher.value(self.source as u32).unwrap();
        heap.push_arg(old_node, arg);
    }
}

/// The automaton for a single instruction of arity two.
pub struct FreeBinaryRHSAutomaton {
    pub symbol: Option<usize>,
    pub instructions: Vec<FreeRHSAutomatonInstruction>,
    pub sources: [i32; 2],
    pub destination: i32,
}

impl FreeBinaryRHSAutomaton {
    /// An automaton with no instruction yet.
    pub fn new() -> (r: FreeBinaryRHSAutomaton)
        ensures
            r.symbol is None,
            r.instructions@.len() == 0,
            r.sources[0] == 0,
            r.sources[1] == 0,
            r.destination == 0,
    {
        FreeBinaryRHSAutomaton { symbol: None, instructions: Vec::new(), sources: [0, 0], destination: 0 }
    }

    /// Gives `node` the bindings of variables 0 and 1 as its arguments.
    pub fn fill_out_args(&self, matcher: &Substitution, heap: &mut DagHeap, node: usize)
        requires
            node < old(heap).nodes@.len(),
            node_args(old(heap).nodes@[node as int]).len() + 2 <= 0xffff_ffff,
            is_bound(matcher.bindings@, 0),
            is_bound(matcher.bindings@, 1),
        ensures
            final(heap).nodes@.len() == old(heap).nodes@.len(),
            forall|i: int| 0 <= i < old(heap).nodes@.len() && i != node ==> final(heap).nodes@[i] == old(heap).nodes@[i],
            node_args(final(heap).nodes@[node as int]) == node_args(old(heap).nodes@[node as int]).push(bound_node(matcher.bindings@, 0)).push(
                bound_node(matcher.bindings@, 1),
            ),
            members(final(heap).nodes@[node as int]) == (DagNodeMembers { args: members(final(heap).nodes@[node as int]).args, ..members(old(heap).nodes@[node as int]) }),
            (final(heap).nodes@[node as int] is Free) == (old(heap).nodes@[node as int] is Free),
    {
        let a = matcher.value(0).unwrap();
        heap.push_arg(node, a);
        let b = matcher.value(1).unwrap();
        heap.push_arg(node, b);
    }

    /// Renames the indices of the instructions, then copies the first instruction's symbol,
    /// sources and destination for fast use.
    pub fn remap_indices(&mut self, variable_info: &mut VariableInfo)
        requires
            old(self).instructions@.len() > 0,
            old(self).instructions@[0].sources@.len() >= 2,
            forall|i: int| 0 <= i < old(self).instructions@.len() ==> instruction_remappable(*old(variable_info), #[trigger] old(self).instructions@[i]),
        ensures
            final(self).instructions@.len() == old(self).instructions@.len(),
            forall|i: int| 0 <= i < old(self).instructions@.len() ==> is_remapped(
                *old(variable_info),
                #[trigger] old(self).instructions@[i],
                final(self).instructions@[i],
            ),
            final(self).symbol == Some(old(self).instructions@[0].symbol),
            final(self).sources[0] == remapped(*old(variable_info), old(self).instructions@[0].sources@[0]),
            final(self).sources[1] == remapped(*old(variable_info), old(self).instructions@[0].sources@[1]),
            final(self).destination == remapped(*old(variable_info), old(self).instructions@[0].destination),
    {
        remap_instructions(&mut self.instructions, variable_info);
        assert(is_remapped(*old(variable_info), old(self).instructions@[0], self.instructions@[0]));
        self.symbol = Some(self.instructions[0].symbol);
        self.sources = [self.instructions[0].sources[0], self.instructions[0].sources[1]];
        self.destination = self.instructions[0].destination;
    }

    /// Builds a node with the symbol and the bindings of variables 0 and 1 as arguments, and
    /// binds it to the destination.
    pub fn construct(&self, matcher: &mut Substitution, heap: &mut DagHeap) -> (r: MaybeDagNode)
        requires
            self.symbol is Some,
            bindable(old(matcher).bindings@, self.destination),
            is_bound(old(matcher).bindings@, 0),
            is_bound(old(matcher).bindings@, 1),
        ensures
            r == Some(old(heap).nodes@.len() as usize),
            final(heap).nodes@.len() == old(heap).nodes@.len() + 1,
            final(heap).nodes@.drop_last() == old(heap).nodes@,
            final(matcher).bindings@ == old(matcher).bindings@.update(self.destination as int, Some(old(heap).nodes@.len() as usize)),
            final(matcher).copy_size == old(matcher).copy_size,
            built_node(
                final(heap).nodes@.last(),
                self.symbol->Some_0,
                seq![bound_node(old(matcher).bindings@, 0), bound_node(old(matcher).bindings@, 1)],
            ),
    {
        let node = heap.make_free_node(self.symbol.unwrap());
        let ghost before = heap.nodes@;
        self.fill_out_args(matcher, heap, node);
        assert(heap.nodes@.drop_last() =~= before.drop_last());
        assert(seq![bound_node(matcher.bindings@, 0), bound_node(matcher.bindings@, 1)] =~= Seq::<usize>::empty().push(
            bound_node(matcher.bindings@, 0),
        ).push(bound_node(matcher.bindings@, 1)));
        matcher.bind(self.destination as u32, Some(node));
        Some(node)
    }

    /// Makes node `old_node`, which must be free, a node with the symbol and the bindings of
    /// variables 0 and 1 as arguments.
    pub fn replace(&mut self, old_node: usize, matcher: &mut Substitution, heap: &mut DagHeap)
        requires
            old(self).symbol is Some,
            old_node < old(heap).nodes@.len(),
            old(heap).nodes@[old_node as int] is Free,
            is_bound(old(matcher).bindings@, 0),
            is_bound(old(matcher).bindings@, 1),
        ensures
            final(matcher).bindings@ == old(matcher).bindings@,
            final(heap).nodes@.len() == old(heap).nodes@.len(),
            forall|i: int| 0 <= i < old(heap).nodes@.len() && i != old_node ==> final(heap).nodes@[i] == old(heap).nodes@[i],
            built_node(
                final(heap).nodes@[old_node as int],
                old(self).symbol->Some_0,
                seq![bound_node(old(matcher).bindings@, 0), bound_node(old(matcher).bindings@, 1)],
            ),
    {
        heap.reset_to_free(old_node, self.symbol.unwrap());
        self.fill_out_args(matcher, heap, old_node);
        assert(seq![bound_node(matcher.bindings@, 0), bound_node(matcher.bindings@, 1)] =~= Seq::<usize>::empty().push(
            bound_node(matcher.bindings@, 0),
        ).push(bound_node(matcher.bindings@, 1)));
    }
}


/// An instruction of arity at most two, with its sources inline.
pub struct FreeFast2RHSInstruction {
    pub symbol: usize,
    pub destination: i32,
    pub sources: [i32; 2],
}

/// `f` is `instr` with its (at most two) sources inline, missing ones 0.
pub open spec fn is_fast_copy(instr: FreeRHSAutomatonInstruction, f: FreeFast2RHSInstruction) -> bool {
    &&& f.symbol == instr.symbol
    &&& f.destination == instr.destination
    &&& f.sources[0] == (if instr.sources@.len() > 0 { instr.sources@[0] } else { 0i32 })
    &&& f.sources[1] == (if instr.sources@.len() > 1 { instr.sources@[1] } else { 0i32 })
}

/// The bindings after the first `k` fast instructions bind their nodes, made at `base`, ...
pub open spec fn fast2_sol(sol: Seq<MaybeDagNode>, fis: Seq<FreeFast2RHSInstruction>, base: int, k: int) -> Seq<MaybeDagNode>
    decreases k,
{
    if k <= 0 {
        sol
    } else {
        fast2_sol(sol, fis, base, k - 1).update(fis[k - 1].destination as int, Some((base + k - 1) as usize))
    }
}

/// The arguments of the node of fast instruction `i`: the bindings of its two sources then.
pub open spec fn fast2_args(sol: Seq<MaybeDagNode>, fis: Seq<FreeFast2RHSInstruction>, base: int, i: int) -> Seq<usize> {
    seq![
        bound_node(fast2_sol(sol, fis, base, i), fis[i].sources[0]),
        bound_node(fast2_sol(sol, fis, base, i), fis[i].sources[1]),
    ]
}

/// The first `k` fast instructions can run: their sources are bound when they run and their
/// destinations can be bound.
pub open spec fn fast2_ready(sol: Seq<MaybeDagNode>, fis: Seq<FreeFast2RHSInstruction>, base: int, k: int) -> bool {
    forall|i: int| 0 <= i < k ==> {
        &&& bindable(sol, (#[trigger] fis[i]).destination)
        &&& fis[i].sources[0] >= 0
        &&& fis[i].sources[1] >= 0
        &&& is_bound(fast2_sol(sol, fis, base, i), fis[i].sources[0])
        &&& is_bound(fast2_sol(sol, fis, base, i), fis[i].sources[1])
    }
}

proof fn lemma_fast2_sol_len(sol: Seq<MaybeDagNode>, fis: Seq<FreeFast2RHSInstruction>, base: int, k: int)
    requires
        0 <= k <= fis.len(),
        forall|i: int| 0 <= i < k ==> bindable(sol, (#[trigger] fis[i]).destination),
    ensures
        fast2_sol(sol, fis, base, k).len() == sol.len(),
    decreases k,
{
    if k > 0 {
        lemma_fast2_sol_len(sol, fis, base, k - 1);
    }
}

/// The automaton for instructions of arity at most two, kept inline.
pub struct FreeFast2RHSAutomaton {
    pub symbol: Option<usize>,
    pub instructions: Vec<FreeRHSAutomatonInstruction>,
    pub fast_instructions: Vec<FreeFast2RHSInstruction>,
    pub sources: [i32; 2],
    pub destination: i32,
}

impl FreeFast2RHSAutomaton {
    /// An automaton with no instructions yet.
    pub fn new() -> (r: FreeFast2RHSAutomaton)
        ensures
            r.symbol is None,
            r.instructions@.len() == 0,
            r.fast_instructions@.len() == 0,
            r.sources[0] == 0,
            r.sources[1] == 0,
            r.destination == 0,
    {
        FreeFast2RHSAutomaton { symbol: None, instructions: Vec::new(), fast_instructions: Vec::new(), sources: [0, 0], destination: 0 }
    }

    /// Gives `node` the bindings of the instruction's two sources as arguments.
    pub fn fill_out_args(&self, instruction: &FreeFast2RHSInstruction, matcher: &Substitution, heap: &mut DagHeap, node: usize)
        requires
            node < old(heap).nodes@.len(),
            node_args(old(heap).nodes@[node as int]).len() + 2 <= 0xffff_ffff,
            instruction.sources[0] >= 0,
            instruction.sources[1] >= 0,
            is_bound(matcher.bindings@, instruction.sources[0]),
            is_bound(matcher.bindings@, instruction.sources[1]),
        ensures
            final(heap).nodes@.len() == old(heap).nodes@.len(),
            forall|i: int| 0 <= i < old(heap).nodes@.len() && i != node ==> final(heap).nodes@[i] == old(heap).nodes@[i],
            node_args(final(heap).nodes@[node as int]) == node_args(old(heap).nodes@[node as int]).push(
                bound_node(matcher.bindings@, instruction.sources[0]),
            ).push(bound_node(matcher.bindings@, instruction.sources[1])),
            members(final(heap).nodes@[node as int]) == (DagNodeMembers { args: members(final(heap).nodes@[node as int]).args, ..members(old(heap).nodes@[node as int]) }),
            (final(heap).nodes@[node as int] is Free) == (old(heap).nodes@[node as int] is Free),
    {
        let a = matcher.value(instruction.sources[0] as u32).unwrap();
        heap.push_arg(node, a);
        let b = matcher.value(instruction.sources[1] as u32).unwrap();
        heap.push_arg(node, b);
    }

    /// Renames the indices of the instructions, then appends an inline copy of each to the
    /// fast instructions.
    pub fn remap_indices(&mut self, variable_info: &mut VariableInfo)
        requires
            forall|i: int| 0 <= i < old(self).instructions@.len() ==> {
                &&& instruction_remappable(*old(variable_info), #[trigger] old(self).instructions@[i])
                &&& old(self).instructions@[i].sources@.len() <= 2
            },
        ensures
            final(self).instructions@.len() == old(self).instructions@.len(),
            forall|i: int| 0 <= i < old(self).instructions@.len() ==> is_remapped(
                *old(variable_info),
                #[trigger] old(self).instructions@[i],
                final(self).instructions@[i],
            ),
            final(self).fast_instructions@.len() == old(self).fast_instructions@.len() + old(self).instructions@.len(),
            final(self).fast_instructions@.subrange(0, old(self).fast_instructions@.len() as int) == old(self).fast_instructions@,
            forall|i: int| 0 <= i < old(self).instructions@.len() ==> is_fast_copy(
                final(self).instructions@[i],
                #[trigger] final(self).fast_instructions@[old(self).fast_instructions@.len() + i],
            ),
    {
        remap_instructions(&mut self.instructions, variable_info);
        let ghost base = self.fast_instructions@.len() as int;
        let instruction_count = self.instructions.len();
        let mut i: usize = 0;
        while i < instruction_count
            invariant
                instruction_count == self.instructions@.len(),
                instruction_count == old(self).instructions@.len(),
                forall|j: int| 0 <= j < old(self).instructions@.len() ==> is_remapped(
                    *old(variable_info),
                    #[trigger] old(self).instructions@[j],
                    self.instructions@[j],
                ),
                forall|j: int| 0 <= j < old(self).instructions@.len() ==> (#[trigger] old(self).instructions@[j]).sources@.len() <= 2,
                i <= instruction_count,
                base == old(self).fast_instructions@.len(),
                self.fast_instructions@.len() == base + i,
                self.fast_instructions@.subrange(0, base) == old(self).fast_instructions@,
                forall|j: int| 0 <= j < i ==> is_fast_copy(self.instructions@[j], #[trigger] self.fast_instructions@[base + j]),
            decreases instruction_count - i,
        {
            assert(old(self).instructions@[i as int].sources@.len() <= 2);
            let instr = &self.instructions[i];
            let n = instr.sources.len();
            let s0 = if n > 0 { instr.sources[0] } else { 0 };
            let s1 = if n > 1 { instr.sources[1] } else { 0 };
            let f = FreeFast2RHSInstruction { symbol: instr.symbol, destination: instr.destination, sources: [s0, s1] };
            self.fast_instructions.push(f);
            i = i + 1;
            assert(self.fast_instructions@.subrange(0, base) =~= old(self).fast_instructions@);
        }
    }

    /// Builds a node for each fast instruction in turn, with the bindings of its sources as
    /// arguments, and binds it to the instruction's destination; returns the last node built,
    /// if any.
    #[verifier::rlimit(40)]
    pub fn construct(&self, matcher: &mut Substitution, heap: &mut DagHeap) -> (r: MaybeDagNode)
        requires
            fast2_ready(old(matcher).bindings@, self.fast_instructions@, old(heap).nodes@.len() as int, self.fast_instructions@.len() as int),
        ensures
            final(heap).nodes@.len() == old(heap).nodes@.len() + self.fast_instructions@.len(),
            final(heap).nodes@.subrange(0, old(heap).nodes@.len() as int) == old(heap).nodes@,
            forall|i: int| 0 <= i < self.fast_instructions@.len() ==> built_node(
                #[trigger] final(heap).nodes@[old(heap).nodes@.len() + i],
                self.fast_instructions@[i].symbol,
                fast2_args(old(matcher).bindings@, self.fast_instructions@, old(heap).nodes@.len() as int, i),
            ),
            final(matcher).bindings@ == fast2_sol(
                old(matcher).bindings@,
                self.fast_instructions@,
                old(heap).nodes@.len() as int,
                self.fast_instructions@.len() as int,
            ),
            final(matcher).copy_size == old(matcher).copy_size,
            r == (if self.fast_instructions@.len() == 0 {
                None
            } else {
                Some((old(heap).nodes@.len() + self.fast_instructions@.len() - 1) as usize)
            }),
    {
        let ghost base = heap.nodes@.len() as int;
        let ghost sol0 = matcher.bindings@;
        let ghost fis = self.fast_instructions@;
        let mut result: MaybeDagNode = None;
        let mut i: usize = 0;
        while i < self.fast_instructions.len()
            invariant
                fis == self.fast_instructions@,
                i <= fis.len(),
                fast2_ready(sol0, fis, base, fis.len() as int),
                base == old(heap).nodes@.len(),
                sol0 == old(matcher).bindings@,
                heap.nodes@.len() == base + i,
                heap.nodes@.subrange(0, base) == old(heap).nodes@,
                forall|j: int| 0 <= j < i ==> built_node(#[trigger] heap.nodes@[base + j], fis[j].symbol, fast2_args(sol0, fis, base, j)),
                matcher.bindings@ == fast2_sol(sol0, fis, base, i as int),
                matcher.copy_size == old(matcher).copy_size,
                result == (if i == 0 { None } else { Some((base + i - 1) as usize) }),
            decreases fis.len() - i,
        {
            let instruction = &self.fast_instructions[i];
            assert(fis[i as int] == *instruction);
            let ghost prev = heap.nodes@;
            let node = heap.make_free_node(instruction.symbol);
            assert forall|j: int| 0 <= j < i implies #[trigger] heap.nodes@[base + j] == prev[base + j] by {
                assert(heap.nodes@.drop_last()[base + j] == heap.nodes@[base + j]);
            }
            let ghost made = heap.nodes@;
            self.fill_out_args(instruction, matcher, heap, node);
            assert(fast2_args(sol0, fis, base, i as int) =~= Seq::<usize>::empty().push(
                bound_node(matcher.bindings@, instruction.sources[0]),
            ).push(bound_node(matcher.bindings@, instruction.sources[1])));
            assert forall|j: int| 0 <= j < i implies #[trigger] heap.nodes@[base + j] == made[base + j] by {
            }
            proof {
                lemma_fast2_sol_len(sol0, fis, base, i as int);
            }
            matcher.bind(instruction.destination as u32, Some(node));
            result = Some(node);
            i = i + 1;
            assert(heap.nodes@.subrange(0, base) =~= old(heap).nodes@);
        }
        result
    }

    /// As `construct`, except that the node of the last fast instruction is built in place of
    /// node `old_node`, which must be free, and is not bound.
    #[verifier::rlimit(60)]
    pub fn replace(&mut self, old_node: usize, matcher: &mut Substitution, heap: &mut DagHeap)
        requires
            old_node < old(heap).nodes@.len(),
            old(heap).nodes@[old_node as int] is Free,
            fast2_ready(old(matcher).bindings@, old(self).fast_instructions@, old(heap).nodes@.len() as int, old(self).fast_instructions@.len() as int),
        ensures
            final(self).fast_instructions@ == old(self).fast_instructions@,
            old(self).fast_instructions@.len() == 0 ==> final(heap).nodes@ == old(heap).nodes@ && final(matcher).bindings@ == old(matcher).bindings@,
            old(self).fast_instructions@.len() > 0 ==> {
                let fis = old(self).fast_instructions@;
                let base = old(heap).nodes@.len() as int;
                &&& final(heap).nodes@.len() == base + fis.len() - 1
                &&& forall|i: int| 0 <= i < base && i != old_node ==> final(heap).nodes@[i] == old(heap).nodes@[i]
                &&& forall|i: int| 0 <= i < fis.len() - 1 ==> built_node(
                    #[trigger] final(heap).nodes@[base + i],
                    fis[i].symbol,
                    fast2_args(old(matcher).bindings@, fis, base, i),
                )
                &&& built_node(final(heap).nodes@[old_node as int], fis.last().symbol, fast2_args(old(matcher).bindings@, fis, base, fis.len() - 1))
                &&& final(matcher).bindings@ == fast2_sol(old(matcher).bindings@, fis, base, fis.len() - 1)
            },
    {
        let ghost base = heap.nodes@.len() as int;
        let ghost sol0 = matcher.bindings@;
        let ghost fis = self.fast_instructions@;
        let count = self.fast_instructions.len();
        let mut i: usize = 0;
        while i < count
            invariant
                fis == self.fast_instructions@,
                count == fis.len(),
                i <= fis.len(),
                count > 0 ==> i < count,
                fast2_ready(sol0, fis, base, fis.len() as int),
                base == old(heap).nodes@.len(),
                sol0 == old(matcher).bindings@,
                old_node < base,
                old(heap).nodes@[old_node as int] is Free,
                heap.nodes@.len() == base + i,
                heap.nodes@.subrange(0, base) == old(heap).nodes@,
                forall|j: int| 0 <= j < i ==> built_node(#[trigger] heap.nodes@[base + j], fis[j].symbol, fast2_args(sol0, fis, base, j)),
                matcher.bindings@ == fast2_sol(sol0, fis, base, i as int),
            decreases fis.len() - i,
        {
            let instruction = &self.fast_instructions[i];
            assert(fis[i as int] == *instruction);
            if i + 1 == count {
                assert(heap.nodes@[old_node as int] == heap.nodes@.subrange(0, base)[old_node as int]);
                let ghost before = heap.nodes@;
                heap.reset_to_free(old_node, instruction.symbol);
                self.fill_out_args(instruction, matcher, heap, old_node);
                assert(fast2_args(sol0, fis, base, i as int) =~= Seq::<usize>::empty().push(
                    bound_node(matcher.bindings@, instruction.sources[0]),
                ).push(bound_node(matcher.bindings@, instruction.sources[1])));
                assert forall|k: int| 0 <= k < base && k != old_node implies heap.nodes@[k] == old(heap).nodes@[k] by {
                    assert(old(heap).nodes@[k] == before.subrange(0, base)[k]);
                }
                assert forall|j: int| 0 <= j < i implies #[trigger] heap.nodes@[base + j] == before[base + j] by {
                }
                return;
            }
            let ghost prev = heap.nodes@;
            let node = heap.make_free_node(instruction.symbol);
            assert forall|j: int| 0 <= j < i implies #[trigger] heap.nodes@[base + j] == prev[base + j] by {
                assert(heap.nodes@.drop_last()[base + j] == heap.nodes@[base + j]);
            }
            let ghost made = heap.nodes@;
            self.fill_out_args(instruction, matcher, heap, node);
            assert(fast2_args(sol0, fis, base, i as int) =~= Seq::<usize>::empty().push(
                bound_node(matcher.bindings@, instruction.sources[0]),
            ).push(bound_node(matcher.bindings@, instruction.sources[1])));
            assert forall|j: int| 0 <= j < i implies #[trigger] heap.nodes@[base + j] == made[base + j] by {
            }
            proof {
                lemma_fast2_sol_len(sol0, fis, base, i as int);
            }
            matcher.bind(instruction.destination as u32, Some(node));
            i = i + 1;
            assert(heap.nodes@.subrange(0, base) =~= old(heap).nodes@);
        }
    }
}

/// The kinds of right-hand side automata of the free theory.
#[derive(Copy, Clone, PartialEq, Eq, Structural, Debug)]
pub enum FreeRHSAutomatonKind {
    General,
    Fast3,
    Fast2,
    Ternary,
    Binary,
    Unary,
    Nullary,
}

/// Which automaton builds right-hand sides whose free symbols have arity at most `max_arity`
/// and that have `free_variable_count` free nodes: the general one above arity 3; for several
/// nodes the fast ones for arities up to 3 and up to 2; for one node the one for its arity.
pub fn with_arity_and_free_variable_count(max_arity: u32, free_variable_count: u32) -> (r: FreeRHSAutomatonKind)
    ensures
        r == (if max_arity > 3 {
            FreeRHSAutomatonKind::General
        } else if free_variable_count > 1 {
            if max_arity == 3 { FreeRHSAutomatonKind::Fast3 } else { FreeRHSAutomatonKind::Fast2 }
        } else if max_arity > 1 {
            if max_arity == 3 { FreeRHSAutomatonKind::Ternary } else { FreeRHSAutomatonKind::Binary }
        } else if max_arity == 1 {
            FreeRHSAutomatonKind::Unary
        } else {
            FreeRHSAutomatonKind::Nullary
        }),
{
    if max_arity > 3 {
        FreeRHSAutomatonKind::General
    } else {
        if free_variable_count > 1 {
            if max_arity == 3 {
                FreeRHSAutomatonKind::Fast3
            } else {
                FreeRHSAutomatonKind::Fast2
            }
        } else {
            if max_arity > 1 {
                if max_arity == 3 {
                    FreeRHSAutomatonKind::Ternary
                } else {
                    FreeRHSAutomatonKind::Binary
                }
            } else {
                if max_arity == 1 {
                    FreeRHSAutomatonKind::Unary
                } else {
                    FreeRHSAutomatonKind::Nullary
                }
            }
        }
    }
}

} // verus!
