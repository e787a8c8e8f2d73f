//! The generic weighted-automaton model and its best-first and beam-limited
//! recognition engine.
//!
//! An automaton owns a list of weighted transitions over some storage type
//! `S` and instruction type `I`; recognition seeds an agenda with the initial
//! configuration and repeatedly expands the item of least cost (greatest
//! weight). The produced sequence of recognised items is lazy and
//! consumer-driven: each call of [`Recogniser::next`] yields at most one
//! recognised item, and an unconsumed tail performs no work.

use vstd::prelude::*;
use crate::weights::{cost_mul, cost_mul_spec, lemma_cost_mul_monotone, COST_ONE};
use crate::util::{dup_indices, dup_word, is_prefix_of, skip_symbols};
use core::marker::PhantomData;

verus! {

/// A weighted rule: the terminal word it consumes, its weight (a cost), and
/// the instruction it applies to the storage.
pub struct Transition<I> {
    pub word: Vec<u64>,
    pub weight: u64,
    pub instruction: I,
}

/// The run-time state during search: current storage, remaining input, and
/// the weight accumulated so far.
#[derive(Debug)]
pub struct Configuration<S> {
    pub storage: S,
    pub word: Vec<u64>,
    pub weight: u64,
}

/// The mathematical shadow of a configuration.
pub ghost struct SearchState<S> {
    pub storage: S,
    pub rem: Seq<u64>,
    pub cost: u64,
}

/// A candidate derivation: a configuration together with the transitions
/// (as indices into the automaton's transition list) applied to reach it,
/// and the ghost trace of the configurations the run went through.
pub struct Item<S> {
    pub conf: Configuration<S>,
    pub run: Vec<usize>,
    pub trace: Ghost<Seq<SearchState<S>>>,
}

/// The contract every automaton satisfies: a transition list, an initial
/// storage, a (possibly nondeterministic) instruction semantics, a terminal
/// predicate, and an index of candidate transitions per configuration.
pub trait Automaton<S, I>: Sized {
    /// The automaton itself is well formed.
    spec fn inv(&self) -> bool;

    /// The full transition set, as a sequence.
    spec fn trans(&self) -> Seq<Transition<I>>;

    /// A storage value is well formed for this automaton.
    spec fn st_wf(&self, s: S) -> bool;

    /// `s` is the initial storage value.
    spec fn is_initial(&self, s: S) -> bool;

    /// Applying the instruction of transition `k` to storage `s` may produce
    /// storage `t`.
    spec fn can_yield(&self, k: int, s: S, t: S) -> bool;

    /// `s` is an accepting storage value.
    spec fn terminal_spec(&self, s: S) -> bool;

    /// How many transitions the automaton has.
    fn n_transitions(&self) -> (n: usize)
        requires
            self.inv(),
        ensures
            n == self.trans().len(),
    ;

    /// The terminal word of transition `k`.
    fn word_of(&self, k: usize) -> (w: &Vec<u64>)
        requires
            self.inv(),
            k < self.trans().len(),
        ensures
            w@ == self.trans()[k as int].word@,
    ;

    /// The weight of transition `k`.
    fn weight_of(&self, k: usize) -> (w: u64)
        requires
            self.inv(),
            k < self.trans().len(),
        ensures
            w == self.trans()[k as int].weight,
    ;

    /// The initial storage value.
    fn initial(&self) -> (s: S)
        requires
            self.inv(),
        ensures
            self.is_initial(s),
            self.st_wf(s),
    ;

    /// Applies the instruction of transition `k` to a storage value, purely
    /// functionally: every returned value is a fresh possible successor.
    fn apply(&self, k: usize, s: &S) -> (r: Vec<S>)
        requires
            self.inv(),
            self.st_wf(*s),
            k < self.trans().len(),
        ensures
            forall|j: int|
                0 <= j < r@.len() ==> self.can_yield(k as int, *s, #[trigger] r@[j]) && self.st_wf(
                    r@[j],
                ),
    ;

    /// Whether a configuration with this storage is accepting.
    fn is_terminal(&self, s: &S) -> (b: bool)
        requires
            self.inv(),
            self.st_wf(*s),
        ensures
            b == self.terminal_spec(*s),
    ;

    /// The candidate transitions for a configuration, indexed by a key
    /// extracted from it (a unit key returns the whole transition list). The
    /// index may be permissive — inapplicable candidates are filtered at
    /// apply time — but returns only indices of real transitions.
    fn candidates(&self, c: &Configuration<S>) -> (r: Vec<usize>)
        requires
            self.inv(),
            self.st_wf(c.storage),
        ensures
            forall|j: int| 0 <= j < r@.len() ==> (#[trigger] r@[j]) < self.trans().len(),
    ;
}

/// Transition `k` of `a` takes the configuration `(s0, rem0, c0)` to the
/// configuration `(s, rem, cost)`: its word is consumed from the remaining
/// input, its instruction rewrites the storage, its weight multiplies the
/// accumulated weight.
pub open spec fn step_ok<S, I, A: Automaton<S, I>>(
    a: &A,
    k: int,
    s0: S,
    rem0: Seq<u64>,
    c0: u64,
    s: S,
    rem: Seq<u64>,
    cost: u64,
) -> bool {
    &&& a.trans()[k].word@.is_prefix_of(rem0)
    &&& rem == rem0.skip(a.trans()[k].word@.len() as int)
    &&& a.can_yield(k, s0, s)
    &&& cost == cost_mul_spec(c0, a.trans()[k].weight)
}

/// The run `run` (indices into `a`'s transition list) takes the automaton
/// from its initial configuration on input `input` through the configurations
/// of `trace`: the run's witness that it is a real derivation.
pub open spec fn valid_run<S, I, A: Automaton<S, I>>(
    a: &A,
    input: Seq<u64>,
    run: Seq<usize>,
    trace: Seq<SearchState<S>>,
) -> bool {
    &&& trace.len() == run.len() + 1
    &&& a.is_initial(trace[0].storage)
    &&& trace[0].rem == input
    &&& trace[0].cost == COST_ONE
    &&& forall|i: int|
        0 <= i < run.len() ==> (#[trigger] run[i]) < a.trans().len() && step_ok(
            a,
            run[i] as int,
            trace[i].storage,
            trace[i].rem,
            trace[i].cost,
            trace[i + 1].storage,
            trace[i + 1].rem,
            trace[i + 1].cost,
        )
}

/// The item's run, trace and configuration agree: the trace derives the
/// configuration from the initial one by the item's run.
pub open spec fn item_ok<S, I, A: Automaton<S, I>>(a: &A, input: Seq<u64>, it: Item<S>) -> bool {
    &&& valid_run(a, input, it.run@, it.trace@)
    &&& it.trace@.last().storage == it.conf.storage
    &&& it.trace@.last().rem == it.conf.word@
    &&& it.trace@.last().cost == it.conf.weight
}

/// Extending a valid run by one applicable transition keeps it valid.
pub proof fn lemma_valid_run_push<S, I, A: Automaton<S, I>>(
    a: &A,
    input: Seq<u64>,
    run: Seq<usize>,
    trace: Seq<SearchState<S>>,
    k: usize,
    nxt: SearchState<S>,
)
    requires
        valid_run(a, input, run, trace),
        k < a.trans().len(),
        step_ok(
            a,
            k as int,
            trace.last().storage,
            trace.last().rem,
            trace.last().cost,
            nxt.storage,
            nxt.rem,
            nxt.cost,
        ),
    ensures
        valid_run(a, input, run.push(k), trace.push(nxt)),
{
    let run2 = run.push(k);
    let tr2 = trace.push(nxt);
    assert forall|i: int| 0 <= i < run2.len() implies (#[trigger] run2[i]) < a.trans().len()
        && step_ok(
        a,
        run2[i] as int,
        tr2[i].storage,
        tr2[i].rem,
        tr2[i].cost,
        tr2[i + 1].storage,
        tr2[i + 1].rem,
        tr2[i + 1].cost,
    ) by {
        if i < run.len() {
            assert(run2[i] == run[i]);
            assert(tr2[i] == trace[i]);
            assert(tr2[i + 1] == trace[i + 1]);
        } else {
            assert(i == run.len());
            assert(run2[i] == k);
            assert(tr2[i] == trace[i]);
            assert(trace[i] == trace.last());
            assert(tr2[i + 1] == nxt);
        }
    }
}

/// A suspended, demand-driven recognition: the agenda holds the frontier of
/// the search, best (least-cost) first. It is not restartable — re-enumerating
/// requires a fresh search.
pub struct Recogniser<'a, S, I, A: Automaton<S, I>> {
    pub automaton: &'a A,
    pub agenda: Vec<Item<S>>,
    pub beam: usize,
    pub floor: u64,
    pub input: Ghost<Seq<u64>>,
    pub spent: Ghost<nat>,
    pub instruction_marker: PhantomData<I>,
}

impl<'a, S, I, A: Automaton<S, I>> Recogniser<'a, S, I, A> {
    /// Every agenda item is a well-formed candidate derivation of the input,
    /// and none undercuts the cost of the last recognised item (the floor).
    pub open spec fn wf(&self) -> bool {
        &&& self.automaton.inv()
        &&& forall|k: int|
            0 <= k < self.agenda@.len() ==> {
                let it = #[trigger] self.agenda@[k];
                &&& self.automaton.st_wf(it.conf.storage)
                &&& it.conf.weight >= self.floor
                &&& item_ok(self.automaton, self.input@, it)
            }
    }

    /// Removes and returns an item of least cost from the agenda.
    fn pop_min(&mut self) -> (r: Item<S>)
        requires
            old(self).agenda@.len() > 0,
        ensures
            old(self).agenda@.contains(r),
            final(self).agenda@.len() == old(self).agenda@.len() - 1,
            forall|k: int|
                0 <= k < final(self).agenda@.len() ==> old(self).agenda@.contains(
                    #[trigger] final(self).agenda@[k],
                ) && final(self).agenda@[k].conf.weight >= r.conf.weight,
            final(self).automaton == old(self).automaton,
            final(self).beam == old(self).beam,
            final(self).floor == old(self).floor,
            final(self).input == old(self).input,
            final(self).spent == old(self).spent,
    {
        let mut best: usize = 0;
        let mut i: usize = 1;
        while i < self.agenda.len()
            invariant
                best < self.agenda@.len(),
                i <= self.agenda@.len(),
                forall|k: int|
                    0 <= k < i ==> (#[trigger] self.agenda@[k]).conf.weight
                        >= self.agenda@[best as int].conf.weight,
            decreases self.agenda@.len() - i,
        {
            if self.agenda[i].conf.weight < self.agenda[best].conf.weight {
                best = i;
            }
            i += 1;
        }
        let ghost before = self.agenda@;
        let r = self.agenda.remove(best);
        proof {
            assert(before.contains(r)) by {
                assert(before[best as int] == r);
            }
            assert forall|k: int| 0 <= k < self.agenda@.len() implies before.contains(
                #[trigger] self.agenda@[k],
            ) && self.agenda@[k].conf.weight >= r.conf.weight by {
                if k < best {
                    assert(self.agenda@[k] == before[k]);
                } else {
                    assert(self.agenda@[k] == before[k + 1]);
                }
            }
        }
        r
    }

    /// Pushes every successor of `m` under every candidate transition whose
    /// word is a prefix of `m`'s remaining input.
    fn expand(&mut self, m: &Item<S>)
        requires
            old(self).wf(),
            old(self).automaton.st_wf(m.conf.storage),
            m.conf.weight >= old(self).floor,
            item_ok(old(self).automaton, old(self).input@, *m),
        ensures
            final(self).wf(),
            final(self).automaton == old(self).automaton,
            final(self).beam == old(self).beam,
            final(self).floor == old(self).floor,
            final(self).input == old(self).input,
            final(self).spent == old(self).spent,
    {
        let a = self.automaton;
        let cands = a.candidates(&m.conf);
        let mut i: usize = 0;
        while i < cands.len()
            invariant
                self.wf(),
                self.automaton == a,
                a.inv(),
                a.st_wf(m.conf.storage),
                m.conf.weight >= self.floor,
                item_ok(a, self.input@, *m),
                i <= cands@.len(),
                forall|j: int| 0 <= j < cands@.len() ==> (#[trigger] cands@[j]) < a.trans().len(),
                self.beam == old(self).beam,
                self.floor == old(self).floor,
                self.input == old(self).input,
                self.spent == old(self).spent,
            decreases cands@.len() - i,
        {
            let k = cands[i];
            if is_prefix_of(a.word_of(k), &m.conf.word) {
                let wlen = a.word_of(k).len();
                let rem = skip_symbols(&m.conf.word, wlen);
                let wcost = cost_mul(m.conf.weight, a.weight_of(k));
                proof {
                    lemma_cost_mul_monotone(m.conf.weight, a.trans()[k as int].weight);
                }
                let mut succs = a.apply(k, &m.conf.storage);
                while succs.len() > 0
                    invariant
                        self.wf(),
                        self.automaton == a,
                        a.inv(),
                        k < a.trans().len(),
                        a.st_wf(m.conf.storage),
                        m.conf.weight >= self.floor,
                        wcost >= self.floor,
                        item_ok(a, self.input@, *m),
                        a.trans()[k as int].word@.is_prefix_of(m.conf.word@),
                        rem@ == m.conf.word@.skip(a.trans()[k as int].word@.len() as int),
                        wcost == cost_mul_spec(m.conf.weight, a.trans()[k as int].weight),
                        forall|j: int|
                            0 <= j < succs@.len() ==> a.can_yield(
                                k as int,
                                m.conf.storage,
                                #[trigger] succs@[j],
                            ) && a.st_wf(succs@[j]),
                        self.beam == old(self).beam,
                        self.floor == old(self).floor,
                        self.input == old(self).input,
                        self.spent == old(self).spent,
                    decreases succs@.len(),
                {
                    let s = succs.pop().unwrap();
                    let run2 = dup_indices(&m.run, k);
                    let word2 = dup_word(&rem);
                    let ghost nxt = SearchState { storage: s, rem: word2@, cost: wcost };
                    proof {
                        lemma_valid_run_push(a, self.input@, m.run@, m.trace@, k, nxt);
                    }
                    let item = Item {
                        conf: Configuration { storage: s, word: word2, weight: wcost },
                        run: run2,
                        trace: Ghost(m.trace@.push(nxt)),
                    };
                    self.agenda.push(item);
                }
            }
            i += 1;
        }
    }

    /// Truncates the agenda to its `beam` least-cost items.
    fn shrink_to_beam(&mut self)
        requires
            old(self).wf(),
        ensures
            final(self).wf(),
            final(self).agenda@.len() <= old(self).beam,
            final(self).automaton == old(self).automaton,
            final(self).beam == old(self).beam,
            final(self).floor == old(self).floor,
            final(self).input == old(self).input,
            final(self).spent == old(self).spent,
    {
        let mut kept: Vec<Item<S>> = Vec::new();
        while kept.len() < self.beam && self.agenda.len() > 0
            invariant
                self.wf(),
                kept@.len() <= self.beam,
                self.automaton == old(self).automaton,
                self.beam == old(self).beam,
                self.floor == old(self).floor,
                self.input == old(self).input,
                self.spent == old(self).spent,
                forall|k: int|
                    0 <= k < kept@.len() ==> {
                        let it = #[trigger] kept@[k];
                        &&& self.automaton.st_wf(it.conf.storage)
                        &&& it.conf.weight >= self.floor
                        &&& item_ok(self.automaton, self.input@, it)
                    },
            decreases self.beam - kept@.len(),
        {
            let ghost pre = *self;
            let m = self.pop_min();
            proof {
                let idx = choose|k: int| 0 <= k < pre.agenda@.len() && pre.agenda@[k] == m;
                assert(pre.agenda@[idx] == m);
            }
            kept.push(m);
        }
        self.agenda = kept;
    }

    /// The agenda holds exactly one item, already accepting: the next demand
    /// is owed a result.
    pub open spec fn sole_accepting_item(&self) -> bool {
        &&& self.agenda@.len() == 1
        &&& self.agenda@[0].conf.word@.len() == 0
        &&& self.automaton.terminal_spec(self.agenda@[0].conf.storage)
    }

    /// Yields the next recognised item, best-first: an item whose storage is
    /// terminal and whose input is fully consumed, produced by a run of the
    /// automaton's transitions, and never of greater cost than any item
    /// yielded later (its cost becomes the new floor). For an automaton whose
    /// transition weights lie in (0, 1] — every cost semiring weight does —
    /// this makes the first recognised item at least as good as every later
    /// one. `None` is never an arbitrary refusal: it means the agenda was
    /// exhausted or the demand's whole step budget was spent (the ghost
    /// `spent` counter records the expansions), and when the agenda holds
    /// exactly one already-accepting item and the budget admits a step, the
    /// demand yields it. On a cyclic automaton the search space is infinite,
    /// so the caller bounds each demand by `max_steps` agenda expansions.
    pub fn next(&mut self, max_steps: usize) -> (r: Option<Item<S>>)
        requires
            old(self).wf(),
        ensures
            final(self).wf(),
            final(self).automaton == old(self).automaton,
            final(self).beam == old(self).beam,
            final(self).input == old(self).input,
            final(self).floor >= old(self).floor,
            final(self).spent@ <= old(self).spent@ + max_steps,
            match r {
                Some(it) => {
                    &&& it.conf.weight >= old(self).floor
                    &&& final(self).floor == it.conf.weight
                    &&& item_ok(old(self).automaton, old(self).input@, it)
                    &&& old(self).automaton.terminal_spec(it.conf.storage)
                    &&& it.conf.word@.len() == 0
                },
                None => {
                    &&& final(self).floor == old(self).floor
                    &&& (final(self).agenda@.len() == 0 || final(self).spent@ == old(self).spent@
                        + max_steps)
                },
            },
            old(self).sole_accepting_item() && max_steps > 0 ==> r is Some,
    {
        let mut steps: usize = max_steps;
        loop
            invariant
                self.wf(),
                self.automaton == old(self).automaton,
                self.beam == old(self).beam,
                self.floor == old(self).floor,
                self.input == old(self).input,
                steps <= max_steps,
                self.spent@ == old(self).spent@ + max_steps - steps,
                old(self).sole_accepting_item() && max_steps > 0 ==> steps == max_steps
                    && self.agenda@ == old(self).agenda@,
            decreases steps,
        {
            if self.agenda.len() == 0 || steps == 0 {
                return None;
            }
            steps -= 1;
            self.spent = Ghost((self.spent@ + 1) as nat);
            let ghost pre = *self;
            let m = self.pop_min();
            proof {
                let idx = choose|k: int| 0 <= k < pre.agenda@.len() && pre.agenda@[k] == m;
                assert(pre.agenda@[idx] == m);
                if old(self).sole_accepting_item() && max_steps > 0 {
                    assert(pre.agenda@ == old(self).agenda@);
                    assert(idx == 0);
                    assert(m == old(self).agenda@[0]);
                }
            }
            if m.conf.word.len() == 0 && self.automaton.is_terminal(&m.conf.storage) {
                self.floor = m.conf.weight;
                return Some(m);
            }
            self.expand(&m);
            if self.agenda.len() > self.beam {
                self.shrink_to_beam();
            }
        }
    }
}

/// Starts an unbounded best-first recognition of `word` by `a`: beam-limited
/// recognition with a beam too wide ever to truncate.
pub fn recognise<'a, S, I, A: Automaton<S, I>>(a: &'a A, word: Vec<u64>) -> (r: Recogniser<
    'a,
    S,
    I,
    A,
>)
    requires
        a.inv(),
    ensures
        r.wf(),
        r.automaton == a,
        r.input@ == word@,
        r.floor == 0,
        r.beam == usize::MAX,
        r.agenda@.len() == 1,
        r.agenda@[0].run@.len() == 0,
        r.agenda@[0].conf.word@ == word@,
        r.agenda@[0].conf.weight == COST_ONE,
        a.is_initial(r.agenda@[0].conf.storage),
{
    recognise_beam_search(a, usize::MAX, word)
}

/// Starts a beam-limited best-first recognition: after each expansion round
/// the agenda is truncated to the `beam` least-cost items, bounding memory at
/// the cost of completeness.
pub fn recognise_beam_search<'a, S, I, A: Automaton<S, I>>(
    a: &'a A,
    beam: usize,
    word: Vec<u64>,
) -> (r: Recogniser<'a, S, I, A>)
    requires
        a.inv(),
    ensures
        r.wf(),
        r.automaton == a,
        r.input@ == word@,
        r.floor == 0,
        r.beam == beam,
        r.agenda@.len() == 1,
        r.agenda@[0].run@.len() == 0,
        r.agenda@[0].conf.word@ == word@,
        r.agenda@[0].conf.weight == COST_ONE,
        a.is_initial(r.agenda@[0].conf.storage),
{
    let ghost w = word@;
    let s = a.initial();
    let ghost start = SearchState { storage: s, rem: w, cost: COST_ONE };
    let item = Item {
        conf: Configuration { storage: s, word, weight: COST_ONE },
        run: Vec::new(),
        trace: Ghost(Seq::empty().push(start)),
    };
    proof {
        assert(item.run@.len() == 0);
        assert(item.trace@.last() == start);
        assert(valid_run(a, w, item.run@, item.trace@));
    }
    let mut agenda: Vec<Item<S>> = Vec::new();
    agenda.push(item);
    Recogniser {
        automaton: a,
        agenda,
        beam,
        floor: 0,
        input: Ghost(w),
        spent: Ghost(0nat),
        instruction_marker: PhantomData,
    }
}

} // verus!
