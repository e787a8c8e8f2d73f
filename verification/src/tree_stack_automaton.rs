//! Tree-stack automata: automata whose storage is a [`TreeStack`] over plain
//! symbol labels, navigated by `Up`, `Push` and `Down` instructions.

use vstd::prelude::*;
use vstd::pervasive::VecAdditionalExecFns;
use crate::recognisable::{Automaton, Configuration, Transition};
use crate::tree_stack::{ts_wf, TreeStack, TsNode};

verus! {

/// An instruction on a tree stack: descend into an existing child labelled
/// `new_val` (`Up`), attach and descend into a fresh child labelled `new_val`
/// (`Push`), or ascend to the parent, rewriting its label from `old_val` to
/// `new_val` (`Down`). Each requires the current node to carry `current_val`.
#[derive(Clone, Copy, PartialEq, Eq, Structural, Debug)]
pub enum TreeStackInstruction {
    Up { current_val: u64, new_val: u64 },
    Push { current_val: u64, new_val: u64 },
    Down { current_val: u64, old_val: u64, new_val: u64 },
}

/// `b` is a possible result of applying `i` to `a`.
pub open spec fn ts_step_rel(i: TreeStackInstruction, a: TreeStack<u64>, b: TreeStack<u64>) -> bool {
    match i {
        TreeStackInstruction::Up { current_val, new_val } => {
            &&& a.nodes@[a.pointer as int].label == current_val
            &&& b.nodes@ == a.nodes@
            &&& 1 <= (b.pointer as int) < a.nodes@.len()
            &&& a.nodes@[b.pointer as int].parent == a.pointer
            &&& a.nodes@[b.pointer as int].label == new_val
        },
        TreeStackInstruction::Push { current_val, new_val } => {
            &&& a.nodes@[a.pointer as int].label == current_val
            &&& b.nodes@ == a.nodes@.push(TsNode { parent: a.pointer, label: new_val })
            &&& b.pointer as int == a.nodes@.len()
        },
        TreeStackInstruction::Down { current_val, old_val, new_val } => {
            let p = a.nodes@[a.pointer as int].parent;
            &&& a.pointer != 0
            &&& a.nodes@[a.pointer as int].label == current_val
            &&& a.nodes@[p as int].label == old_val
            &&& b.pointer == p
            &&& b.nodes@ == a.nodes@.update(
                p as int,
                TsNode { parent: a.nodes@[p as int].parent, label: new_val },
            )
        },
    }
}

/// Some returned successor equals `t` (same arena, same current node).
pub open spec fn has_successor(r: Seq<TreeStack<u64>>, t: TreeStack<u64>) -> bool {
    exists|j: int|
        0 <= j < r.len() && (#[trigger] r[j]).nodes@ == t.nodes@ && r[j].pointer == t.pointer
}

/// A copy of a tree stack over plain labels.
pub fn dup_tree_stack(t: &TreeStack<u64>) -> (r: TreeStack<u64>)
    ensures
        r.nodes@ == t.nodes@,
        r.pointer == t.pointer,
{
    let mut nodes: Vec<TsNode<u64>> = Vec::new();
    let mut i: usize = 0;
    while i < t.nodes.len()
        invariant
            i <= t.nodes@.len(),
            nodes@ =~= t.nodes@.subrange(0, i as int),
        decreases t.nodes@.len() - i,
    {
        nodes.push(TsNode { parent: t.nodes[i].parent, label: t.nodes[i].label });
        i += 1;
    }
    assert(t.nodes@.subrange(0, t.nodes@.len() as int) =~= t.nodes@);
    TreeStack { nodes, pointer: t.pointer }
}

/// An automaton over tree-stack storage: its weighted transitions and the
/// label of the root its searches start from. A configuration is accepting
/// when the tree stack is back at its root.
pub struct TreeStackAutomaton {
    pub transitions: Vec<Transition<TreeStackInstruction>>,
    pub initial_label: u64,
}

impl TreeStackAutomaton {
    /// An automaton from its transition list and initial root label.
    pub fn new(transitions: Vec<Transition<TreeStackInstruction>>, initial_label: u64) -> (r:
        TreeStackAutomaton)
        ensures
            r.transitions == transitions,
            r.initial_label == initial_label,
    {
        TreeStackAutomaton { transitions, initial_label }
    }
}

impl Automaton<TreeStack<u64>, TreeStackInstruction> for TreeStackAutomaton {
    open spec fn inv(&self) -> bool {
        true
    }

    open spec fn trans(&self) -> Seq<Transition<TreeStackInstruction>> {
        self.transitions@
    }

    open spec fn st_wf(&self, s: TreeStack<u64>) -> bool {
        ts_wf(s)
    }

    open spec fn is_initial(&self, s: TreeStack<u64>) -> bool {
        &&& s.nodes@.len() == 1
        &&& s.nodes@[0] == TsNode { parent: 0usize, label: self.initial_label }
        &&& s.pointer == 0
    }

    open spec fn can_yield(&self, k: int, s: TreeStack<u64>, t: TreeStack<u64>) -> bool {
        ts_step_rel(self.transitions@[k].instruction, s, t)
    }

    open spec fn terminal_spec(&self, s: TreeStack<u64>) -> bool {
        s.pointer == 0
    }

    fn n_transitions(&self) -> (n: usize) {
        self.transitions.len()
    }

    fn word_of(&self, k: usize) -> (w: &Vec<u64>) {
        &self.transitions[k].word
    }

    fn weight_of(&self, k: usize) -> (w: u64) {
        self.transitions[k].weight
    }

    fn initial(&self) -> (s: TreeStack<u64>) {
        TreeStack::new(self.initial_label)
    }

    /// Complete as well as sound: every storage the instruction can yield
    /// from `s` is among the returned successors.
    fn apply(&self, k: usize, s: &TreeStack<u64>) -> (r: Vec<TreeStack<u64>>)
        ensures
            forall|t: TreeStack<u64>|
                #[trigger] self.can_yield(k as int, *s, t) ==> has_successor(r@, t),
    {
        let mut r: Vec<TreeStack<u64>> = Vec::new();
        match self.transitions[k].instruction {
            TreeStackInstruction::Up { current_val, new_val } => {
                if s.nodes[s.pointer].label == current_val {
                    let mut j: usize = 1;
                    while j < s.nodes.len()
                        invariant
                            ts_wf(*s),
                            1 <= j,
                            self.transitions@[k as int].instruction
                                == (TreeStackInstruction::Up { current_val, new_val }),
                            s.nodes@[s.pointer as int].label == current_val,
                            k < self.transitions@.len(),
                            forall|m: int|
                                0 <= m < r@.len() ==> self.can_yield(
                                    k as int,
                                    *s,
                                    #[trigger] r@[m],
                                ) && self.st_wf(r@[m]),
                            forall|t: TreeStack<u64>|
                                #[trigger] self.can_yield(k as int, *s, t) && (t.pointer as int)
                                    < j ==> has_successor(r@, t),
                        decreases s.nodes@.len() - j,
                    {
                        let ghost pre = r@;
                        if s.nodes[j].parent == s.pointer && s.nodes[j].label == new_val {
                            let succ = TreeStack { nodes: dup_tree_stack(s).nodes, pointer: j };
                            r.push(succ);
                        }
                        proof {
                            assert forall|t: TreeStack<u64>|
                                #[trigger] self.can_yield(k as int, *s, t) && (t.pointer as int) < j
                                    + 1 implies has_successor(r@, t) by {
                                if (t.pointer as int) < j {
                                    assert(has_successor(pre, t));
                                    let m = choose|m: int|
                                        0 <= m < pre.len() && (#[trigger] pre[m]).nodes@
                                            == t.nodes@ && pre[m].pointer == t.pointer;
                                    assert(r@[m] == pre[m]);
                                    assert(has_successor(r@, t));
                                } else {
                                    assert(t.pointer as int == j);
                                    assert(s.nodes@[j as int].parent == s.pointer
                                        && s.nodes@[j as int].label == new_val);
                                    assert(r@.len() == pre.len() + 1);
                                    assert(r@[r@.len() - 1].nodes@ == t.nodes@);
                                    assert(r@[r@.len() - 1].pointer == t.pointer);
                                    assert(has_successor(r@, t));
                                }
                            }
                        }
                        j += 1;
                    }
                } else {
                    proof {
                        assert forall|t: TreeStack<u64>| !self.can_yield(k as int, *s, t) by {}
                    }
                }
            },
            TreeStackInstruction::Push { current_val, new_val } => {
                if s.nodes[s.pointer].label == current_val {
                    let mut d = dup_tree_stack(s);
                    let newptr = d.nodes.len();
                    d.nodes.push(TsNode { parent: s.pointer, label: new_val });
                    d.pointer = newptr;
                    r.push(d);
                    proof {
                        assert forall|t: TreeStack<u64>|
                            #[trigger] self.can_yield(k as int, *s, t) implies has_successor(
                            r@,
                            t,
                        ) by {
                            assert(r@[0].nodes@ == t.nodes@);
                            assert(r@[0].pointer == t.pointer);
                        }
                    }
                }
            },
            TreeStackInstruction::Down { current_val, old_val, new_val } => {
                if s.pointer != 0 && s.nodes[s.pointer].label == current_val {
                    let p = s.nodes[s.pointer].parent;
                    if s.nodes[p].label == old_val {
                        let mut d = dup_tree_stack(s);
                        let gp = d.nodes[p].parent;
                        d.nodes.set(p, TsNode { parent: gp, label: new_val });
                        d.pointer = p;
                        r.push(d);
                        proof {
                            assert forall|t: TreeStack<u64>|
                                #[trigger] self.can_yield(k as int, *s, t) implies has_successor(
                                r@,
                                t,
                            ) by {
                                assert(r@[0].nodes@ == t.nodes@);
                                assert(r@[0].pointer == t.pointer);
                            }
                        }
                    }
                }
            },
        }
        r
    }

    fn is_terminal(&self, s: &TreeStack<u64>) -> (b: bool) {
        s.is_at_bottom()
    }

    /// A unit key: every transition is a candidate for every configuration,
    /// so no applicable transition is ever omitted.
    fn candidates(&self, c: &Configuration<TreeStack<u64>>) -> (r: Vec<usize>)
        ensures
            forall|k: int| 0 <= k < self.transitions@.len() ==> #[trigger] r@.contains(k as usize),
    {
        let mut r: Vec<usize> = Vec::new();
        let mut k: usize = 0;
        while k < self.transitions.len()
            invariant
                k <= self.transitions@.len(),
                r@.len() == k,
                forall|j: int| 0 <= j < k ==> r@[j] == j,
            decreases self.transitions@.len() - k,
        {
            r.push(k);
            k += 1;
        }
        proof {
            assert forall|j: int| 0 <= j < self.transitions@.len() implies #[trigger] r@.contains(
                j as usize,
            ) by {
                assert(r@[j] == j as usize);
            }
        }
        r
    }
}

} // verus!
