//! Push-down automata: automata whose storage is a linear stack of labels,
//! manipulated by a single "replace the top labels" instruction.

use vstd::prelude::*;
use crate::recognisable::{Automaton, Configuration, Transition};

verus! {

/// A push-down storage: a stack of labels (the last element is the top) and
/// the label an accepting stack must have shrunk back to.
pub struct PushDown {
    pub elements: Vec<u64>,
    pub empty: u64,
}

/// The push-down instruction: pop the labels of `current_val` (written
/// top-first) off the stack, then push the labels of `new_val` in order, the
/// last ending on top.
pub enum PushDownInstruction {
    Replace { current_val: Vec<u64>, new_val: Vec<u64> },
}

/// The stack `e` ends in the labels of `cv`, `cv[0]` topmost.
pub open spec fn pd_matches_top(e: Seq<u64>, cv: Seq<u64>) -> bool {
    &&& cv.len() <= e.len()
    &&& forall|i: int| 0 <= i < cv.len() ==> e[e.len() - 1 - i] == #[trigger] cv[i]
}

/// `b` is the result of applying `i` to `a`.
pub open spec fn pd_step_rel(i: PushDownInstruction, a: PushDown, b: PushDown) -> bool {
    match i {
        PushDownInstruction::Replace { current_val, new_val } => {
            &&& pd_matches_top(a.elements@, current_val@)
            &&& b.elements@ == a.elements@.take(a.elements@.len() - current_val@.len()) + new_val@
            &&& b.empty == a.empty
        },
    }
}

/// An automaton over push-down storage: its weighted transitions and the
/// label its initial one-element stack carries. A configuration is accepting
/// when the stack has shrunk back to exactly that label.
pub struct PushDownAutomaton {
    pub transitions: Vec<Transition<PushDownInstruction>>,
    pub initial_label: u64,
}

impl PushDownAutomaton {
    /// An automaton from its transition list and initial stack label.
    pub fn new(transitions: Vec<Transition<PushDownInstruction>>, initial_label: u64) -> (r:
        PushDownAutomaton)
        ensures
            r.transitions == transitions,
            r.initial_label == initial_label,
    {
        PushDownAutomaton { transitions, initial_label }
    }
}

impl Automaton<PushDown, PushDownInstruction> for PushDownAutomaton {
    open spec fn inv(&self) -> bool {
        true
    }

    open spec fn trans(&self) -> Seq<Transition<PushDownInstruction>> {
        self.transitions@
    }

    open spec fn st_wf(&self, s: PushDown) -> bool {
        true
    }

    open spec fn is_initial(&self, s: PushDown) -> bool {
        &&& s.elements@ == Seq::<u64>::empty().push(self.initial_label)
        &&& s.empty == self.initial_label
    }

    open spec fn can_yield(&self, k: int, s: PushDown, t: PushDown) -> bool {
        pd_step_rel(self.transitions@[k].instruction, s, t)
    }

    open spec fn terminal_spec(&self, s: PushDown) -> bool {
        s.elements@ == Seq::<u64>::empty().push(s.empty)
    }

    fn n_transitions(&self) -> (n: usize) {
        self.transitions.len()
    }

    fn word_of(&self, k: usize) -> (w: &Vec<u64>) {
        &self.transitions[k].word
    }

    fn weight_of(&self, k: usize) -> (w: u64) {
        self.transitions[k].weight
    }

    fn initial(&self) -> (s: PushDown) {
        let mut elements: Vec<u64> = Vec::new();
        elements.push(self.initial_label);
        proof {
            assert(elements@ =~= Seq::<u64>::empty().push(self.initial_label));
        }
        PushDown { elements, empty: self.initial_label }
    }

    /// Exactly one successor when the pop demand is met, none otherwise.
    fn apply(&self, k: usize, s: &PushDown) -> (r: Vec<PushDown>)
        ensures
            can_apply(self.transitions@[k as int].instruction, s.elements@) ==> r@.len() == 1,
            !can_apply(self.transitions@[k as int].instruction, s.elements@) ==> r@.len() == 0,
    {
        let mut r: Vec<PushDown> = Vec::new();
        match &self.transitions[k].instruction {
            PushDownInstruction::Replace { current_val, new_val } => {
                if current_val.len() > s.elements.len() {
                    proof {
                        assert(!pd_matches_top(s.elements@, current_val@));
                        assert(!can_apply(self.transitions@[k as int].instruction, s.elements@));
                    }
                    return r;
                }
                let base = s.elements.len() - current_val.len();
                let mut i: usize = 0;
                while i < current_val.len()
                    invariant
                        r@.len() == 0,
                        k < self.transitions@.len(),
                        self.transitions@[k as int].instruction matches PushDownInstruction::Replace {
                            current_val: cv2,
                            new_val: _,
                        } && cv2@ == current_val@,
                        current_val@.len() <= s.elements@.len(),
                        i <= current_val@.len(),
                        base == s.elements@.len() - current_val@.len(),
                        forall|j: int|
                            0 <= j < i ==> s.elements@[s.elements@.len() - 1 - j]
                                == #[trigger] current_val@[j],
                    decreases current_val@.len() - i,
                {
                    if s.elements[s.elements.len() - 1 - i] != current_val[i] {
                        proof {
                            assert(!pd_matches_top(s.elements@, current_val@));
                            assert(!can_apply(
                                self.transitions@[k as int].instruction,
                                s.elements@,
                            ));
                        }
                        return r;
                    }
                    i += 1;
                }
                assert(pd_matches_top(s.elements@, current_val@));
                assert(can_apply(self.transitions@[k as int].instruction, s.elements@));
                let mut elements: Vec<u64> = Vec::new();
                let mut j: usize = 0;
                while j < base
                    invariant
                        base <= s.elements@.len(),
                        j <= base,
                        elements@ =~= s.elements@.subrange(0, j as int),
                    decreases base - j,
                {
                    elements.push(s.elements[j]);
                    j += 1;
                }
                let mut m: usize = 0;
                while m < new_val.len()
                    invariant
                        base <= s.elements@.len(),
                        m <= new_val@.len(),
                        elements@ =~= s.elements@.subrange(0, base as int) + new_val@.subrange(
                            0,
                            m as int,
                        ),
                    decreases new_val@.len() - m,
                {
                    elements.push(new_val[m]);
                    m += 1;
                }
                proof {
                    assert(new_val@.subrange(0, new_val@.len() as int) =~= new_val@);
                    assert(s.elements@.subrange(0, base as int) =~= s.elements@.take(
                        s.elements@.len() - current_val@.len(),
                    ));
                }
                r.push(PushDown { elements, empty: s.empty });
            },
        }
        r
    }

    fn is_terminal(&self, s: &PushDown) -> (b: bool) {
        let r = s.elements.len() == 1 && s.elements[0] == s.empty;
        proof {
            if r {
                assert(s.elements@ =~= Seq::<u64>::empty().push(s.empty));
            }
        }
        r
    }

    /// Candidate transitions are indexed by the key of the configuration:
    /// the topmost stack label. A transition is a candidate when it pops
    /// nothing or its topmost popped label matches the key; this is
    /// permissive but never omits an applicable transition.
    fn candidates(&self, c: &Configuration<PushDown>) -> (r: Vec<usize>)
        ensures
            forall|k: int|
                0 <= k < self.transitions@.len() && can_apply(
                    self.transitions@[k].instruction,
                    c.storage.elements@,
                ) ==> r@.contains(k as usize),
    {
        let mut r: Vec<usize> = Vec::new();
        let mut k: usize = 0;
        while k < self.transitions.len()
            invariant
                k <= self.transitions@.len(),
                forall|j: int| 0 <= j < r@.len() ==> (#[trigger] r@[j]) < self.transitions@.len(),
                forall|j: int|
                    0 <= j < k && can_apply(
                        self.transitions@[j].instruction,
                        c.storage.elements@,
                    ) ==> r@.contains(j as usize),
            decreases self.transitions@.len() - k,
        {
            let ghost before = r@;
            let is_candidate = match &self.transitions[k].instruction {
                PushDownInstruction::Replace { current_val, new_val } => {
                    current_val.len() == 0 || (c.storage.elements.len() > 0
                        && current_val[0] == c.storage.elements[c.storage.elements.len() - 1])
                },
            };
            if is_candidate {
                r.push(k);
                proof {
                    assert(r@[r@.len() - 1] == k as usize);
                    assert(r@.contains(k as usize));
                }
            }
            proof {
                assert forall|j: int|
                    0 <= j < k + 1 && can_apply(
                        self.transitions@[j].instruction,
                        c.storage.elements@,
                    ) implies r@.contains(j as usize) by {
                    if j < k {
                        assert(before.contains(j as usize));
                        let w = choose|m: int| 0 <= m < before.len() && before[m] == j as usize;
                        assert(r@[w] == j as usize);
                    } else {
                        assert(j == k);
                        match self.transitions@[j].instruction {
                            PushDownInstruction::Replace { current_val, new_val } => {
                                if current_val@.len() > 0 {
                                    assert(c.storage.elements@[c.storage.elements@.len() - 1 - 0]
                                        == current_val@[0]);
                                }
                            },
                        }
                        assert(r@.contains(k as usize));
                    }
                }
            }
            k += 1;
        }
        r
    }
}

/// The instruction's pop demand is met by the stack `e`.
pub open spec fn can_apply(i: PushDownInstruction, e: Seq<u64>) -> bool {
    match i {
        PushDownInstruction::Replace { current_val, new_val } => pd_matches_top(e, current_val@),
    }
}

} // verus!
