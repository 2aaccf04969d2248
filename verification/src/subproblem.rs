//! Subproblems: what is left of a matching problem after the matching phase, solved later
//! by backtracking search.
use vstd::prelude::*;
use crate::dag_node::{DagHeap, Signature};
use crate::substitution::Substitution;
use crate::term::TermStore;

verus! {

/// The state that solving works on: the signature, the terms and DAG nodes, and the current
/// solution.
pub struct RewritingContext {
    pub signature: Signature,
    pub terms: TermStore,
    pub heap: DagHeap,
    pub solution: Substitution,
}

/// A request to a subproblem: whether it asks for a first solution, and the context it is made in.
pub type SolveRequest = (bool, RewritingContext);

/// A subproblem of a matching problem. `solve(true, ..)` looks for a first solution,
/// `solve(false, ..)` for the next one; each returns whether it found one. A subproblem
/// answers as a function of the requests made to it: `answer(calls)` is what it returns to the
/// last of the requests `calls`, made in order from its present state, and
/// `context_after(calls)` the context it leaves after that request.
pub trait Subproblem {
    spec fn answer(&self, calls: Seq<SolveRequest>) -> bool;

    spec fn context_after(&self, calls: Seq<SolveRequest>) -> RewritingContext;

    fn solve(&mut self, find_first: bool, context: &mut RewritingContext) -> (r: bool)
        ensures
            r == old(self).answer(seq![(find_first, *old(context))]),
            *final(context) == old(self).context_after(seq![(find_first, *old(context))]),
            final(context).solution.bindings@.len() == old(context).solution.bindings@.len(),
            forall|h: Seq<SolveRequest>| h.len() > 0 ==> #[trigger] final(self).answer(h)
                == old(self).answer(seq![(find_first, *old(context))] + h),
            forall|h: Seq<SolveRequest>| h.len() > 0 ==> #[trigger] final(self).context_after(h)
                == old(self).context_after(seq![(find_first, *old(context))] + h),
    ;
}

/// What a match with extension leaves of its subject: whether the extension is valid, whether
/// the whole subject matched, and the part that did not.
pub trait ExtensionInfo {
    /// Sets whether the extension is valid after the match.
    fn set_valid_after_match(&mut self, value: bool);

    /// Sets whether the whole subject matched.
    fn set_matched_whole(&mut self, value: bool);

    /// Records `value`, a node of `heap` over `sig`, as unmatched.
    fn set_unmatched(&mut self, sig: &Signature, heap: &DagHeap, value: usize)
        requires
            crate::dag_node::in_heap(sig.symbols@, heap.nodes@, value),
    ;
}

/// An optional subproblem.
pub type MaybeSubproblem = Option<Box<dyn Subproblem>>;

/// A sequence of subproblems, all of which must be solved.
pub struct SubproblemSequence {
    pub sequence: Vec<Box<dyn Subproblem>>,
}

impl SubproblemSequence {
    /// An empty sequence.
    pub fn new() -> (r: SubproblemSequence)
        ensures
            r.sequence@.len() == 0,
    {
        SubproblemSequence { sequence: Vec::new() }
    }

    /// Appends a subproblem.
    pub fn add(&mut self, subproblem: Box<dyn Subproblem>)
        ensures
            final(self).sequence@.len() == old(self).sequence@.len() + 1,
            final(self).sequence@ == old(self).sequence@.push(subproblem),
    {
        let ghost before = self.sequence@;
        self.sequence.push(subproblem);
        proof {
            vstd::seq::axiom_seq_push_len(before, subproblem);
        }
    }

    /// Appends a subproblem.
    pub fn push(&mut self, subproblem: Box<dyn Subproblem>)
        ensures
            final(self).sequence@.len() == old(self).sequence@.len() + 1,
            final(self).sequence@ == old(self).sequence@.push(subproblem),
    {
        let ghost before = self.sequence@;
        self.sequence.push(subproblem);
        proof {
            vstd::seq::axiom_seq_push_len(before, subproblem);
        }
    }

    /// The sole subproblem of a sequence of one; otherwise the sequence itself.
    pub fn extract_subproblem(self) -> Box<dyn Subproblem> {
        let mut s = self;
        if s.sequence.len() == 1 {
            s.sequence.pop().unwrap()
        } else {
            let whole: Box<dyn Subproblem> = Box::new(s);
            whole
        }
    }
}

/// How many element solve steps a sequence takes at most before giving up.
pub const SEQUENCE_STEP_LIMIT: u64 = 0xffff_ffff_ffff_ffff;

/// Where backtracking over a sequence stands: element `i` is to be asked for a solution (its
/// first when the flag is true, its next otherwise), or the search has finished with a result.
#[derive(Copy, Clone, PartialEq, Eq, Structural, Debug)]
pub enum SequenceStep {
    Solve(usize, bool),
    Finished(bool),
}

/// Where the search over a sequence of `len` elements starts: an empty sequence has its one
/// solution as a first solution and none after it; otherwise a first solution starts at the
/// first element, a next one at the last.
pub open spec fn sequence_start(len: nat, find_first: bool) -> SequenceStep {
    if len == 0 {
        SequenceStep::Finished(find_first)
    } else if find_first {
        SequenceStep::Solve(0, true)
    } else {
        SequenceStep::Solve((len - 1) as usize, false)
    }
}

/// Where the search goes after element `i` of `len` answered `found`: after a solution, to a
/// first solution of the next element, or success after the last one; after a failure, to the
/// next solution of the element before, or failure before the first one.
pub open spec fn sequence_next(i: usize, len: nat, found: bool) -> SequenceStep {
    if found {
        if i + 1 == len {
            SequenceStep::Finished(true)
        } else {
            SequenceStep::Solve((i + 1) as usize, true)
        }
    } else {
        if i == 0 {
            SequenceStep::Finished(false)
        } else {
            SequenceStep::Solve((i - 1) as usize, false)
        }
    }
}

/// The step of backtracking after element `i` of a sequence of `len` answered `found`.
pub fn sequence_step(i: usize, len: usize, found: bool) -> (r: SequenceStep)
    requires
        i < len,
    ensures
        r == sequence_next(i, len as nat, found),
{
    if found {
        if i + 1 == len {
            SequenceStep::Finished(true)
        } else {
            SequenceStep::Solve(i + 1, true)
        }
    } else {
        if i == 0 {
            SequenceStep::Finished(false)
        } else {
            SequenceStep::Solve(i - 1, false)
        }
    }
}

/// The requests made to each element so far, none for each of `n` elements.
pub open spec fn no_requests(n: nat) -> Seq<Seq<SolveRequest>> {
    Seq::new(n, |k: int| Seq::<SolveRequest>::empty())
}

/// Backtracking over `elems` from `step` in context `ctx`, with `hists` the requests made to
/// each element before and at most `fuel` more requests: the result, the requests made to each
/// element by then, and the context left.
pub open spec fn backtrack(
    elems: Seq<Box<dyn Subproblem>>,
    hists: Seq<Seq<SolveRequest>>,
    step: SequenceStep,
    ctx: RewritingContext,
    fuel: nat,
) -> (bool, Seq<Seq<SolveRequest>>, RewritingContext)
    decreases fuel,
{
    match step {
        SequenceStep::Finished(b) => (b, hists, ctx),
        SequenceStep::Solve(i, f) => if fuel == 0 || i >= elems.len() || i >= hists.len() {
            (false, hists, ctx)
        } else {
            let h = hists[i as int].push((f, ctx));
            backtrack(
                elems,
                hists.update(i as int, h),
                sequence_next(i, elems.len(), elems[i as int].answer(h)),
                elems[i as int].context_after(h),
                (fuel - 1) as nat,
            )
        },
    }
}

/// The requests `calls` made in order to a sequence of `elems` whose elements have had the
/// requests `hists`: what the last one gives, the requests each element has had by then, and
/// the context it leaves.
pub open spec fn sequence_calls(
    elems: Seq<Box<dyn Subproblem>>,
    hists: Seq<Seq<SolveRequest>>,
    calls: Seq<SolveRequest>,
) -> (bool, Seq<Seq<SolveRequest>>, RewritingContext)
    decreases calls.len(),
{
    if calls.len() == 0 {
        (false, hists, arbitrary())
    } else {
        let first = backtrack(elems, hists, sequence_start(elems.len(), calls[0].0), calls[0].1, SEQUENCE_STEP_LIMIT as nat);
        if calls.len() == 1 {
            first
        } else {
            sequence_calls(elems, first.1, calls.drop_first())
        }
    }
}

/// Element `k` of `cur` answers as element `k` of `orig` does after the requests `hists[k]`.
pub open spec fn behaves_at(cur: Seq<Box<dyn Subproblem>>, orig: Seq<Box<dyn Subproblem>>, hists: Seq<Seq<SolveRequest>>, k: int) -> bool {
    &&& forall|x: Seq<SolveRequest>| x.len() > 0 ==> #[trigger] cur[k].answer(x) == orig[k].answer(hists[k] + x)
    &&& forall|x: Seq<SolveRequest>| x.len() > 0 ==> #[trigger] cur[k].context_after(x) == orig[k].context_after(hists[k] + x)
}

/// The requests of `hs` after those of `hs0`, element by element.
pub open spec fn joined(hs0: Seq<Seq<SolveRequest>>, hs: Seq<Seq<SolveRequest>>) -> Seq<Seq<SolveRequest>> {
    Seq::new(hs.len(), |k: int| hs0[k] + hs[k])
}

/// Elements that answer as others do after some requests backtrack as those others do after
/// the same requests.
proof fn lemma_backtrack_shift(
    cur: Seq<Box<dyn Subproblem>>,
    orig: Seq<Box<dyn Subproblem>>,
    hs0: Seq<Seq<SolveRequest>>,
    hs: Seq<Seq<SolveRequest>>,
    step: SequenceStep,
    ctx: RewritingContext,
    fuel: nat,
)
    requires
        cur.len() == orig.len(),
        hs0.len() == cur.len(),
        hs.len() == cur.len(),
        forall|k: int| 0 <= k < cur.len() ==> #[trigger] behaves_at(cur, orig, hs0, k),
    ensures
        ({
            let a = backtrack(cur, hs, step, ctx, fuel);
            let b = backtrack(orig, joined(hs0, hs), step, ctx, fuel);
            &&& a.0 == b.0
            &&& a.2 == b.2
            &&& a.1.len() == hs.len()
            &&& joined(hs0, a.1) == b.1
        }),
    decreases fuel,
{
    match step {
        SequenceStep::Finished(_) => {},
        SequenceStep::Solve(i, f) => {
            if fuel > 0 && i < cur.len() {
                let h = hs[i as int].push((f, ctx));
                let jh = joined(hs0, hs);
                assert(jh[i as int].push((f, ctx)) =~= hs0[i as int] + h);
                assert(behaves_at(cur, orig, hs0, i as int));
                assert(cur[i as int].answer(h) == orig[i as int].answer(hs0[i as int] + h));
                assert(cur[i as int].context_after(h) == orig[i as int].context_after(hs0[i as int] + h));
                assert(joined(hs0, hs.update(i as int, h)) =~= jh.update(i as int, jh[i as int].push((f, ctx))));
                lemma_backtrack_shift(
                    cur,
                    orig,
                    hs0,
                    hs.update(i as int, h),
                    sequence_next(i, cur.len(), cur[i as int].answer(h)),
                    cur[i as int].context_after(h),
                    (fuel - 1) as nat,
                );
            }
        },
    }
}

/// The same for whole series of requests.
proof fn lemma_calls_shift(
    cur: Seq<Box<dyn Subproblem>>,
    orig: Seq<Box<dyn Subproblem>>,
    hs0: Seq<Seq<SolveRequest>>,
    hs: Seq<Seq<SolveRequest>>,
    calls: Seq<SolveRequest>,
)
    requires
        cur.len() == orig.len(),
        hs0.len() == cur.len(),
        hs.len() == cur.len(),
        forall|k: int| 0 <= k < cur.len() ==> #[trigger] behaves_at(cur, orig, hs0, k),
        calls.len() > 0,
    ensures
        sequence_calls(cur, hs, calls).0 == sequence_calls(orig, joined(hs0, hs), calls).0,
        sequence_calls(cur, hs, calls).2 == sequence_calls(orig, joined(hs0, hs), calls).2,
    decreases calls.len(),
{
    let step = sequence_start(cur.len(), calls[0].0);
    lemma_backtrack_shift(cur, orig, hs0, hs, step, calls[0].1, SEQUENCE_STEP_LIMIT as nat);
    if calls.len() > 1 {
        let a = backtrack(cur, hs, step, calls[0].1, SEQUENCE_STEP_LIMIT as nat);
        lemma_calls_shift(cur, orig, hs0, a.1, calls.drop_first());
    }
}

/// A sequence of one subproblem answers a first request as that subproblem does, and leaves
/// the context it leaves.
pub proof fn lemma_sequence_of_one(elems: Seq<Box<dyn Subproblem>>, find_first: bool, ctx: RewritingContext)
    requires
        elems.len() == 1,
    ensures
        sequence_calls(elems, no_requests(1), seq![(find_first, ctx)]).0 == elems[0].answer(seq![(find_first, ctx)]),
        sequence_calls(elems, no_requests(1), seq![(find_first, ctx)]).2 == elems[0].context_after(seq![(find_first, ctx)]),
{
    let e = no_requests(1);
    assert(e[0].push((find_first, ctx)) =~= seq![(find_first, ctx)]);
    assert(seq![(find_first, ctx)][0] == (find_first, ctx));
    let h = e[0].push((find_first, ctx));
    let after = backtrack(
        elems,
        e.update(0, h),
        sequence_next(0, 1, elems[0].answer(h)),
        elems[0].context_after(h),
        (SEQUENCE_STEP_LIMIT - 1) as nat,
    );
    assert(sequence_start(1, find_first) == SequenceStep::Solve(0, find_first));
    assert(backtrack(elems, e, SequenceStep::Solve(0, find_first), ctx, SEQUENCE_STEP_LIMIT as nat) == after);
}

impl Subproblem for SubproblemSequence {
    open spec fn answer(&self, calls: Seq<SolveRequest>) -> bool {
        sequence_calls(self.sequence@, no_requests(self.sequence@.len()), calls).0
    }

    open spec fn context_after(&self, calls: Seq<SolveRequest>) -> RewritingContext {
        sequence_calls(self.sequence@, no_requests(self.sequence@.len()), calls).2
    }

    /// Backtracking over the sequence, by `sequence_step`: after a solution of element `i` go
    /// on to a first solution of element `i + 1`; after a failure go back to the next solution
    /// of element `i - 1`. Succeeds when the last element is solved, fails when the first one
    /// has no more solutions. An empty sequence has exactly one (empty) solution. After
    /// `SEQUENCE_STEP_LIMIT` requests to elements without an end the search gives up and fails.
    fn solve(&mut self, find_first: bool, context: &mut RewritingContext) -> (r: bool)
        ensures
            final(self).sequence@.len() == old(self).sequence@.len(),
            old(self).sequence@.len() == 0 ==> r == find_first,
    {
        let len = self.sequence.len();
        let ghost orig = self.sequence@;
        let ghost ctx0 = *context;
        let ghost start = sequence_start(len as nat, find_first);
        let ghost e = no_requests(len as nat);
        let ghost whole = backtrack(orig, e, start, ctx0, SEQUENCE_STEP_LIMIT as nat);
        proof {
            assert(seq![(find_first, ctx0)][0] == (find_first, ctx0));
        }
        if len == 0 {
            proof {
                assert forall|h: Seq<SolveRequest>| h.len() > 0 implies #[trigger] self.answer(h)
                    == old(self).answer(seq![(find_first, ctx0)] + h) by {
                    let hh = seq![(find_first, ctx0)] + h;
                    assert(hh.drop_first() =~= h);
                    assert(hh[0] == (find_first, ctx0));
                }
                assert forall|h: Seq<SolveRequest>| h.len() > 0 implies #[trigger] self.context_after(h)
                    == old(self).context_after(seq![(find_first, ctx0)] + h) by {
                    let hh = seq![(find_first, ctx0)] + h;
                    assert(hh.drop_first() =~= h);
                    assert(hh[0] == (find_first, ctx0));
                }
            }
            return find_first;
        }
        let mut find = find_first;
        let mut i: usize = if find {
            0
        } else {
            len - 1
        };
        let mut steps_left: u64 = SEQUENCE_STEP_LIMIT;
        let ghost mut hists: Seq<Seq<SolveRequest>> = e;
        proof {
            assert forall|k: int| 0 <= k < len implies #[trigger] behaves_at(self.sequence@, orig, hists, k) by {
                assert forall|x: Seq<SolveRequest>| x.len() > 0 implies #[trigger] self.sequence@[k].answer(x)
                    == orig[k].answer(hists[k] + x) by {
                    assert(hists[k] + x =~= x);
                }
                assert forall|x: Seq<SolveRequest>| x.len() > 0 implies #[trigger] self.sequence@[k].context_after(x)
                    == orig[k].context_after(hists[k] + x) by {
                    assert(hists[k] + x =~= x);
                }
            }
        }
        loop
            invariant
                0 < len,
                i < len,
                self.sequence@.len() == len,
                orig == old(self).sequence@,
                orig.len() == len,
                ctx0 == *old(context),
                hists.len() == len,
                e == no_requests(len as nat),
                whole == backtrack(orig, e, sequence_start(len as nat, find_first), ctx0, SEQUENCE_STEP_LIMIT as nat),
                backtrack(orig, hists, SequenceStep::Solve(i, find), *context, steps_left as nat) == whole,
                forall|k: int| 0 <= k < len ==> #[trigger] behaves_at(self.sequence@, orig, hists, k),
                context.solution.bindings@.len() == old(context).solution.bindings@.len(),
            decreases steps_left,
        {
            if steps_left == 0 {
                proof {
                    assert(whole == (false, hists, *context));
                    self.lemma_after_call(orig, e, hists, find_first, ctx0);
                }
                return false;
            }
            steps_left = steps_left - 1;
            let ghost before_elems = self.sequence@;
            let ghost c = *context;
            let ghost h = hists[i as int].push((find, c));
            let found = self.sequence[i].solve(find, context);
            proof {
                assert(seq![(find, c)].len() > 0);
                assert(hists[i as int] + seq![(find, c)] =~= h);
                assert(behaves_at(before_elems, orig, hists, i as int));
                assert(found == before_elems[i as int].answer(seq![(find, c)]));
                assert(before_elems[i as int].answer(seq![(find, c)]) == orig[i as int].answer(hists[i as int] + seq![(find, c)]));
                assert(before_elems[i as int].context_after(seq![(find, c)]) == orig[i as int].context_after(hists[i as int] + seq![(find, c)]));
                assert(found == orig[i as int].answer(h));
                assert(*context == orig[i as int].context_after(h));
                assert forall|k: int| 0 <= k < len implies #[trigger] behaves_at(self.sequence@, orig, hists.update(i as int, h), k) by {
                    if k == i {
                        assert forall|x: Seq<SolveRequest>| x.len() > 0 implies #[trigger] self.sequence@[k].answer(x)
                            == orig[k].answer(h + x) by {
                            let y = seq![(find, c)] + x;
                            assert(y.len() > 0);
                            assert(self.sequence@[k].answer(x) == before_elems[k].answer(y));
                            assert(before_elems[k].answer(y) == orig[k].answer(hists[k] + y));
                            assert(hists[k] + y =~= h + x);
                        }
                        assert forall|x: Seq<SolveRequest>| x.len() > 0 implies #[trigger] self.sequence@[k].context_after(x)
                            == orig[k].context_after(h + x) by {
                            let y = seq![(find, c)] + x;
                            assert(y.len() > 0);
                            assert(self.sequence@[k].context_after(x) == before_elems[k].context_after(y));
                            assert(before_elems[k].context_after(y) == orig[k].context_after(hists[k] + y));
                            assert(hists[k] + y =~= h + x);
                        }
                        assert(hists.update(i as int, h)[k] == h);
                    } else {
                        assert(self.sequence@[k] == before_elems[k]);
                        assert(behaves_at(before_elems, orig, hists, k));
                        assert(hists.update(i as int, h)[k] == hists[k]);
                        assert forall|x: Seq<SolveRequest>| x.len() > 0 implies #[trigger] self.sequence@[k].answer(x)
                            == orig[k].answer(hists[k] + x) by {
                            assert(before_elems[k].answer(x) == orig[k].answer(hists[k] + x));
                        }
                        assert forall|x: Seq<SolveRequest>| x.len() > 0 implies #[trigger] self.sequence@[k].context_after(x)
                            == orig[k].context_after(hists[k] + x) by {
                            assert(before_elems[k].context_after(x) == orig[k].context_after(hists[k] + x));
                        }
                    }
                }
                assert(whole == backtrack(orig, hists.update(i as int, h), sequence_next(i, len as nat, found), *context, steps_left as nat));
                hists = hists.update(i as int, h);
            }
            match sequence_step(i, len, found) {
                SequenceStep::Finished(result) => {
                    proof {
                        assert(whole == (result, hists, *context));
                        self.lemma_after_call(orig, e, hists, find_first, ctx0);
                    }
                    return result;
                },
                SequenceStep::Solve(next_i, next_find) => {
                    i = next_i;
                    find = next_find;
                },
            }
        }
    }
}

impl SubproblemSequence {
    /// After a request that backtracking over `orig` served with the requests `hists` to its
    /// elements, a sequence whose elements answer as those of `orig` do after `hists` answers
    /// later requests as `orig` does after that request.
    proof fn lemma_after_call(
        &self,
        orig: Seq<Box<dyn Subproblem>>,
        e: Seq<Seq<SolveRequest>>,
        hists: Seq<Seq<SolveRequest>>,
        find_first: bool,
        ctx0: RewritingContext,
    )
        requires
            orig.len() == self.sequence@.len(),
            e == no_requests(orig.len()),
            hists.len() == orig.len(),
            backtrack(orig, e, sequence_start(orig.len(), find_first), ctx0, SEQUENCE_STEP_LIMIT as nat).1 == hists,
            forall|k: int| 0 <= k < orig.len() ==> #[trigger] behaves_at(self.sequence@, orig, hists, k),
        ensures
            forall|h: Seq<SolveRequest>| h.len() > 0 ==> #[trigger] self.answer(h)
                == sequence_calls(orig, e, seq![(find_first, ctx0)] + h).0,
            forall|h: Seq<SolveRequest>| h.len() > 0 ==> #[trigger] self.context_after(h)
                == sequence_calls(orig, e, seq![(find_first, ctx0)] + h).2,
    {
        let n = orig.len();
        assert forall|h: Seq<SolveRequest>| h.len() > 0 implies #[trigger] self.answer(h)
            == sequence_calls(orig, e, seq![(find_first, ctx0)] + h).0 by {
            let hh = seq![(find_first, ctx0)] + h;
            assert(hh.drop_first() =~= h);
            assert(hh[0] == (find_first, ctx0));
            lemma_calls_shift(self.sequence@, orig, hists, no_requests(n), h);
            assert(joined(hists, no_requests(n)) =~= hists);
        }
        assert forall|h: Seq<SolveRequest>| h.len() > 0 implies #[trigger] self.context_after(h)
            == sequence_calls(orig, e, seq![(find_first, ctx0)] + h).2 by {
            let hh = seq![(find_first, ctx0)] + h;
            assert(hh.drop_first() =~= h);
            assert(hh[0] == (find_first, ctx0));
            lemma_calls_shift(self.sequence@, orig, hists, no_requests(n), h);
            assert(joined(hists, no_requests(n)) =~= hists);
        }
    }
}


} // verus!
