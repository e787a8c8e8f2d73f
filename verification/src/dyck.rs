//! The multiple Dyck language automaton: a tree-stack automaton instance that
//! validates bracket balance across a partitioned alphabet. Brackets of
//! different cells may freely interleave — each cell occupies its own branch
//! of the tree — while brackets within one cell must nest and, within one
//! subtree, exhaust their cell.

use vstd::prelude::*;
use vstd::pervasive::VecAdditionalExecFns;
use crate::recognisable::{recognise, Automaton, Configuration, Transition, valid_run};
use crate::tree_stack::{ts_wf, TreeStack, TsNode};
use crate::util::{dup_word, symbol_ok, partition_wf, Partition};

verus! {

/// An opening or closing bracket over a symbol.
#[derive(Clone, Copy, PartialEq, Eq, Structural, Debug)]
pub enum Bracket<T> {
    Open(T),
    Close(T),
}

/// The terminal code of a bracket: open brackets are even, close brackets
/// odd, so distinct brackets have distinct codes.
pub open spec fn bracket_code_spec(b: Bracket<u64>) -> u64 {
    match b {
        Bracket::Open(s) => (2 * s) as u64,
        Bracket::Close(s) => (2 * s + 1) as u64,
    }
}

/// The symbol of a bracket.
pub open spec fn bracket_symbol(b: Bracket<u64>) -> u64 {
    match b {
        Bracket::Open(s) => s,
        Bracket::Close(s) => s,
    }
}

/// The terminal code of a bracket.
pub fn bracket_code(b: &Bracket<u64>) -> (r: u64)
    requires
        symbol_ok(bracket_symbol(*b)),
    ensures
        r == bracket_code_spec(*b),
{
    match b {
        Bracket::Open(s) => 2 * *s,
        Bracket::Close(s) => 2 * *s + 1,
    }
}

/// A node label of the Dyck automaton's tree stack: the root, or a subtree
/// working through one cell — the symbol currently open in it, if any, and
/// the cell symbols it still owes.
#[derive(Debug)]
pub enum MDTreeElem {
    Root,
    Node { active: Option<u64>, remaining: Vec<u64> },
}

/// The mathematical shadow of a node label.
pub ghost struct MdElemV {
    pub is_root: bool,
    pub active: Option<u64>,
    pub remaining: Seq<u64>,
}

/// The view of a node label.
pub open spec fn md_elem(e: MDTreeElem) -> MdElemV {
    match e {
        MDTreeElem::Root => MdElemV { is_root: true, active: None, remaining: Seq::empty() },
        MDTreeElem::Node { active, remaining } => MdElemV {
            is_root: false,
            active,
            remaining: remaining@,
        },
    }
}

/// A node label satisfies the emptiness predicate: nothing open, nothing owed.
pub open spec fn md_elem_empty(e: MdElemV) -> bool {
    e.is_root || (e.active is None && e.remaining.len() == 0)
}

/// The mathematical shadow of one tree node.
pub ghost struct MdNodeV {
    pub parent: usize,
    pub elem: MdElemV,
}

/// The view of the Dyck automaton's tree stack.
pub open spec fn md_nodes(t: TreeStack<MDTreeElem>) -> Seq<MdNodeV> {
    t.nodes@.map_values(|n: TsNode<MDTreeElem>| MdNodeV { parent: n.parent, elem: md_elem(n.label) })
}

/// An instruction of the Dyck automaton: descend for an open bracket —
/// attaching a fresh subtree for the symbol's cell, or re-entering a child
/// that still owes the symbol — or ascend for a close bracket, retiring the
/// symbol currently open in the current node.
pub enum MultipleDyckInstruction {
    Up(u64, Vec<u64>),
    Down(u64),
}

/// The sequence `s` with every occurrence of `x` removed.
pub open spec fn seq_without(s: Seq<u64>, x: u64) -> Seq<u64>
    decreases s.len(),
{
    if s.len() == 0 {
        Seq::empty()
    } else {
        if s.last() == x {
            seq_without(s.drop_last(), x)
        } else {
            seq_without(s.drop_last(), x).push(s.last())
        }
    }
}

/// The cell with one symbol spent.
fn cell_without(cell: &Vec<u64>, x: u64) -> (r: Vec<u64>)
    ensures
        r@ == seq_without(cell@, x),
{
    let mut r: Vec<u64> = Vec::new();
    let mut i: usize = 0;
    while i < cell.len()
        invariant
            i <= cell@.len(),
            r@ == seq_without(cell@.take(i as int), x),
        decreases cell@.len() - i,
    {
        proof {
            assert(cell@.take(i + 1).drop_last() =~= cell@.take(i as int));
            assert(cell@.take(i + 1).last() == cell@[i as int]);
        }
        if cell[i] != x {
            r.push(cell[i]);
        }
        i += 1;
    }
    proof {
        assert(cell@.take(cell@.len() as int) =~= cell@);
    }
    r
}

/// Whether a word holds a symbol.
fn word_contains(v: &Vec<u64>, x: u64) -> (r: bool)
    ensures
        r == v@.contains(x),
{
    let mut i: usize = 0;
    while i < v.len()
        invariant
            i <= v@.len(),
            forall|k: int| 0 <= k < i ==> v@[k] != x,
        decreases v@.len() - i,
    {
        if v[i] == x {
            return true;
        }
        i += 1;
    }
    false
}

/// A copy of a Dyck tree stack.
fn dup_md_tree(t: &TreeStack<MDTreeElem>) -> (r: TreeStack<MDTreeElem>)
    ensures
        md_nodes(r) == md_nodes(*t),
        r.nodes@.len() == t.nodes@.len(),
        forall|i: int| 0 <= i < t.nodes@.len() ==> r.nodes@[i].parent == t.nodes@[i].parent,
        r.pointer == t.pointer,
{
    let mut nodes: Vec<TsNode<MDTreeElem>> = Vec::new();
    let mut i: usize = 0;
    while i < t.nodes.len()
        invariant
            i <= t.nodes@.len(),
            nodes@.len() == i,
            forall|k: int|
                0 <= k < i ==> (#[trigger] nodes@[k]).parent == t.nodes@[k].parent && md_elem(
                    nodes@[k].label,
                ) == md_elem(t.nodes@[k].label),
        decreases t.nodes@.len() - i,
    {
        let label = match &t.nodes[i].label {
            MDTreeElem::Root => MDTreeElem::Root,
            MDTreeElem::Node { active, remaining } => MDTreeElem::Node {
                active: *active,
                remaining: dup_word(remaining),
            },
        };
        nodes.push(TsNode { parent: t.nodes[i].parent, label });
        i += 1;
    }
    let r = TreeStack { nodes, pointer: t.pointer };
    proof {
        assert forall|k: int| 0 <= k < t.nodes@.len() implies md_nodes(r)[k] == md_nodes(*t)[k] by {
            assert(md_nodes(r)[k] == (MdNodeV {
                parent: r.nodes@[k].parent,
                elem: md_elem(r.nodes@[k].label),
            }));
        }
        assert(md_nodes(r) =~= md_nodes(*t));
    }
    r
}

/// Some returned successor equals `t` (same tree view, same current node).
pub open spec fn has_md_successor(r: Seq<TreeStack<MDTreeElem>>, t: TreeStack<MDTreeElem>) -> bool {
    exists|j: int|
        0 <= j < r.len() && md_nodes(#[trigger] r[j]) == md_nodes(t) && r[j].pointer == t.pointer
}

/// `b` is a possible result of applying `i` to `a`.
pub open spec fn md_step_rel(
    i: MultipleDyckInstruction,
    a: TreeStack<MDTreeElem>,
    b: TreeStack<MDTreeElem>,
) -> bool {
    match i {
        MultipleDyckInstruction::Up(s, cell) => {
            // attach a fresh subtree for the cell, opening `s`
            ||| (md_nodes(b) == md_nodes(a).push(
                MdNodeV {
                    parent: a.pointer,
                    elem: MdElemV {
                        is_root: false,
                        active: Some(s),
                        remaining: seq_without(cell@, s),
                    },
                },
            ) && b.pointer as int == a.nodes@.len())
            // or re-enter a child that still owes `s`
            ||| {
                let j = b.pointer as int;
                &&& 1 <= j < a.nodes@.len()
                &&& md_nodes(a)[j].parent == a.pointer
                &&& !md_nodes(a)[j].elem.is_root
                &&& md_nodes(a)[j].elem.active is None
                &&& md_nodes(a)[j].elem.remaining.contains(s)
                &&& md_nodes(b) == md_nodes(a).update(
                    j,
                    MdNodeV {
                        parent: md_nodes(a)[j].parent,
                        elem: MdElemV {
                            is_root: false,
                            active: Some(s),
                            remaining: seq_without(md_nodes(a)[j].elem.remaining, s),
                        },
                    },
                )
            }
        },
        MultipleDyckInstruction::Down(s) => {
            let p = a.pointer as int;
            &&& a.pointer != 0
            &&& !md_nodes(a)[p].elem.is_root
            &&& md_nodes(a)[p].elem.active == Some(s)
            &&& b.pointer == md_nodes(a)[p].parent
            &&& md_nodes(b) == md_nodes(a).update(
                p,
                MdNodeV {
                    parent: md_nodes(a)[p].parent,
                    elem: MdElemV {
                        is_root: false,
                        active: None,
                        remaining: md_nodes(a)[p].elem.remaining,
                    },
                },
            )
        },
    }
}

/// How many symbols the first `i` cells hold together.
pub open spec fn cells_size_upto(cells: Seq<Seq<u64>>, i: int) -> int
    decreases i,
{
    if i <= 0 {
        0
    } else {
        cells_size_upto(cells, i - 1) + cells[i - 1].len()
    }
}

/// Cell sizes accumulate monotonically.
pub proof fn lemma_cells_size_mono(cells: Seq<Seq<u64>>, a: int, b: int)
    requires
        0 <= a <= b,
    ensures
        cells_size_upto(cells, a) <= cells_size_upto(cells, b),
    decreases b - a,
{
    if a < b {
        lemma_cells_size_mono(cells, a, b - 1);
    }
}

/// `t` is the open transition of symbol `s` in cell `cell`: it reads the
/// open bracket of `s` and descends into `s`'s subtree of the cell.
pub open spec fn is_open_transition(
    t: Transition<MultipleDyckInstruction>,
    s: u64,
    cell: Seq<u64>,
) -> bool {
    &&& t.word@ == Seq::empty().push((2 * s) as u64)
    &&& t.weight == 0
    &&& t.instruction matches MultipleDyckInstruction::Up(s2, c2) && s2 == s && c2@ == cell
}

/// `t` is the close transition of symbol `s`: it reads the close bracket of
/// `s` and ascends, retiring `s`.
pub open spec fn is_close_transition(t: Transition<MultipleDyckInstruction>, s: u64) -> bool {
    &&& t.word@ == Seq::empty().push((2 * s + 1) as u64)
    &&& t.weight == 0
    &&& t.instruction matches MultipleDyckInstruction::Down(s2) && s2 == s
}

/// A tree-stack automaton recognising the multiple Dyck language of a
/// partition: for every symbol of every cell, an open transition descends
/// into the symbol's subtree and a close transition ascends out of it. All
/// weights are the multiplicative identity — recognition is a pure
/// feasibility check.
pub struct MultipleDyckAutomaton {
    pub transitions: Vec<Transition<MultipleDyckInstruction>>,
}

impl MultipleDyckAutomaton {
    /// Builds the automaton from a partition Π = {π₁, …, πₙ} of an implicit
    /// alphabet Σ = π₁ ∪ … ∪ πₙ: exactly one open and one close transition,
    /// in that order, for each symbol of each cell.
    pub fn new(partition: &Partition) -> (r: MultipleDyckAutomaton)
        requires
            partition_wf(partition.view_spec()),
        ensures
            ({
                let cells = partition.view_spec();
                &&& r.transitions@.len() == 2 * cells_size_upto(cells, cells.len() as int)
                &&& forall|i: int, j: int|
                    0 <= i < cells.len() && 0 <= j < cells[i].len() ==> {
                        let base = 2 * (cells_size_upto(cells, i) + j);
                        is_open_transition(
                            r.transitions@[base],
                            #[trigger] cells[i][j],
                            cells[i],
                        ) && is_close_transition(r.transitions@[base + 1], cells[i][j])
                    }
            }),
    {
        let ghost cells = partition.view_spec();
        let mut transitions: Vec<Transition<MultipleDyckInstruction>> = Vec::new();
        let mut i: usize = 0;
        while i < partition.cells.len()
            invariant
                partition_wf(partition.view_spec()),
                cells == partition.view_spec(),
                i <= partition.cells@.len(),
                transitions@.len() == 2 * cells_size_upto(cells, i as int),
                forall|i0: int, j0: int|
                    0 <= i0 < i && 0 <= j0 < cells[i0].len() ==> {
                        let base = 2 * (cells_size_upto(cells, i0) + j0);
                        is_open_transition(
                            transitions@[base],
                            #[trigger] cells[i0][j0],
                            cells[i0],
                        ) && is_close_transition(transitions@[base + 1], cells[i0][j0])
                    },
            decreases partition.cells@.len() - i,
        {
            let cell = &partition.cells[i];
            let mut j: usize = 0;
            while j < cell.len()
                invariant
                    partition_wf(partition.view_spec()),
                    cells == partition.view_spec(),
                    i < partition.cells@.len(),
                    cell == &partition.cells[i as int],
                    cells[i as int] == cell@,
                    j <= cell@.len(),
                    transitions@.len() == 2 * (cells_size_upto(cells, i as int) + j),
                    forall|i0: int, j0: int|
                        (0 <= i0 < i && 0 <= j0 < cells[i0].len()) || (i0 == i && 0 <= j0 < j)
                            ==> {
                            let base = 2 * (cells_size_upto(cells, i0) + j0);
                            is_open_transition(
                                transitions@[base],
                                #[trigger] cells[i0][j0],
                                cells[i0],
                            ) && is_close_transition(transitions@[base + 1], cells[i0][j0])
                        },
                decreases cell@.len() - j,
            {
                let s = cell[j];
                proof {
                    assert(symbol_ok(cells[i as int][j as int]));
                }
                let ghost pre = transitions@;
                let mut open_word: Vec<u64> = Vec::new();
                open_word.push(2 * s);
                transitions.push(
                    Transition {
                        word: open_word,
                        weight: 0,
                        instruction: MultipleDyckInstruction::Up(s, dup_word(cell)),
                    },
                );
                let ghost mid = transitions@;
                let mut close_word: Vec<u64> = Vec::new();
                close_word.push(2 * s + 1);
                transitions.push(
                    Transition {
                        word: close_word,
                        weight: 0,
                        instruction: MultipleDyckInstruction::Down(s),
                    },
                );
                proof {
                    assert(transitions@.len() == pre.len() + 2);
                    assert forall|q: int| 0 <= q < pre.len() implies transitions@[q] == pre[q] by {
                        assert(transitions@[q] == mid[q]);
                        assert(mid[q] == pre[q]);
                    }
                    assert(transitions@[pre.len() as int].word@ =~= Seq::empty().push(
                        (2 * s) as u64,
                    ));
                    assert(transitions@[pre.len() as int + 1].word@ =~= Seq::empty().push(
                        (2 * s + 1) as u64,
                    ));
                    assert(is_open_transition(
                        transitions@[pre.len() as int],
                        cells[i as int][j as int],
                        cells[i as int],
                    ));
                    assert(is_close_transition(
                        transitions@[pre.len() as int + 1],
                        cells[i as int][j as int],
                    ));
                    assert forall|i0: int, j0: int|
                        (0 <= i0 < i && 0 <= j0 < cells[i0].len()) || (i0 == i && 0 <= j0 < j
                            + 1) implies {
                        let base = 2 * (cells_size_upto(cells, i0) + j0);
                        is_open_transition(
                            transitions@[base],
                            #[trigger] cells[i0][j0],
                            cells[i0],
                        ) && is_close_transition(transitions@[base + 1], cells[i0][j0])
                    } by {
                        let base = 2 * (cells_size_upto(cells, i0) + j0);
                        if i0 == i as int && j0 == j as int {
                            assert(base == pre.len());
                        } else {
                            lemma_cells_size_mono(cells, 0, i0);
                            if i0 < i as int {
                                assert(cells_size_upto(cells, i0 + 1) == cells_size_upto(cells, i0)
                                    + cells[i0].len());
                                lemma_cells_size_mono(cells, i0 + 1, i as int);
                            }
                            assert(base + 1 < pre.len());
                            assert(transitions@[base] == pre[base]);
                            assert(transitions@[base + 1] == pre[base + 1]);
                        }
                    }
                }
                j += 1;
            }
            i += 1;
        }
        MultipleDyckAutomaton { transitions }
    }
}

impl Automaton<TreeStack<MDTreeElem>, MultipleDyckInstruction> for MultipleDyckAutomaton {
    open spec fn inv(&self) -> bool {
        true
    }

    open spec fn trans(&self) -> Seq<Transition<MultipleDyckInstruction>> {
        self.transitions@
    }

    open spec fn st_wf(&self, s: TreeStack<MDTreeElem>) -> bool {
        ts_wf(s) && md_nodes(s)[0].elem.is_root
    }

    open spec fn is_initial(&self, s: TreeStack<MDTreeElem>) -> bool {
        &&& s.nodes@.len() == 1
        &&& md_nodes(s)[0] == (MdNodeV {
            parent: 0usize,
            elem: MdElemV { is_root: true, active: None, remaining: Seq::empty() },
        })
        &&& s.pointer == 0
    }

    open spec fn can_yield(
        &self,
        k: int,
        s: TreeStack<MDTreeElem>,
        t: TreeStack<MDTreeElem>,
    ) -> bool {
        md_step_rel(self.transitions@[k].instruction, s, t)
    }

    /// Accepting: back at the root, and every node satisfies the emptiness
    /// predicate — no unmatched opens and no owed symbols anywhere.
    open spec fn terminal_spec(&self, s: TreeStack<MDTreeElem>) -> bool {
        &&& s.pointer == 0
        &&& forall|i: int| 0 <= i < md_nodes(s).len() ==> md_elem_empty(
            (#[trigger] md_nodes(s)[i]).elem,
        )
    }

    fn n_transitions(&self) -> (n: usize) {
        self.transitions.len()
    }

    fn word_of(&self, k: usize) -> (w: &Vec<u64>) {
        &self.transitions[k].word
    }

    fn weight_of(&self, k: usize) -> (w: u64) {
        self.transitions[k].weight
    }

    fn initial(&self) -> (s: TreeStack<MDTreeElem>) {
        let t = TreeStack::new(MDTreeElem::Root);
        proof {
            assert(md_nodes(t)[0] == (MdNodeV {
                parent: 0usize,
                elem: md_elem(MDTreeElem::Root),
            }));
        }
        t
    }

    /// Complete as well as sound: every storage the instruction can yield
    /// from `s` is among the returned successors.
    fn apply(&self, k: usize, s: &TreeStack<MDTreeElem>) -> (r: Vec<TreeStack<MDTreeElem>>)
        ensures
            forall|t: TreeStack<MDTreeElem>|
                #[trigger] self.can_yield(k as int, *s, t) ==> has_md_successor(r@, t),
    {
        let mut r: Vec<TreeStack<MDTreeElem>> = Vec::new();
        match &self.transitions[k].instruction {
            MultipleDyckInstruction::Up(sym, cell) => {
                let sym = *sym;
                // a fresh subtree for the cell
                let mut d = dup_md_tree(s);
                let newptr = d.nodes.len();
                let ghost pre = md_nodes(d);
                d.nodes.push(
                    TsNode {
                        parent: s.pointer,
                        label: MDTreeElem::Node {
                            active: Some(sym),
                            remaining: cell_without(cell, sym),
                        },
                    },
                );
                d.pointer = newptr;
                proof {
                    assert(md_nodes(d) =~= md_nodes(*s).push(
                        MdNodeV {
                            parent: s.pointer,
                            elem: MdElemV {
                                is_root: false,
                                active: Some(sym),
                                remaining: seq_without(cell@, sym),
                            },
                        },
                    ));
                }
                r.push(d);
                proof {
                    assert forall|t: TreeStack<MDTreeElem>|
                        #[trigger] self.can_yield(k as int, *s, t) && ((t.pointer as int)
                            >= s.nodes@.len() || (t.pointer as int) < 1) implies has_md_successor(
                        r@,
                        t,
                    ) by {
                        assert(md_nodes(r@[0]) == md_nodes(t));
                        assert(r@[0].pointer == t.pointer);
                    }
                }
                // re-enter children that still owe the symbol
                let mut j: usize = 1;
                while j < s.nodes.len()
                    invariant
                        self.st_wf(*s),
                        k < self.transitions@.len(),
                        self.transitions@[k as int].instruction matches MultipleDyckInstruction::Up(
                            s2,
                            c2,
                        ) && s2 == sym && c2@ == cell@,
                        1 <= j,
                        forall|m: int|
                            0 <= m < r@.len() ==> self.can_yield(k as int, *s, #[trigger] r@[m])
                                && self.st_wf(r@[m]),
                        forall|t: TreeStack<MDTreeElem>|
                            #[trigger] self.can_yield(k as int, *s, t) && ((t.pointer as int)
                                >= s.nodes@.len() || (t.pointer as int) < j)
                                ==> has_md_successor(r@, t),
                    decreases s.nodes@.len() - j,
                {
                    let ghost pre = r@;
                    proof {
                        assert(md_nodes(*s)[j as int].elem == md_elem(s.nodes@[j as int].label));
                        assert(md_nodes(*s)[j as int].parent == s.nodes@[j as int].parent);
                    }
                    if s.nodes[j].parent == s.pointer {
                        let reenter = match &s.nodes[j].label {
                            MDTreeElem::Node { active: None, remaining } => word_contains(
                                remaining,
                                sym,
                            ),
                            _ => false,
                        };
                        if reenter {
                            let mut d = dup_md_tree(s);
                            let newlabel = match &s.nodes[j].label {
                                MDTreeElem::Node { active: _, remaining } => MDTreeElem::Node {
                                    active: Some(sym),
                                    remaining: cell_without(remaining, sym),
                                },
                                MDTreeElem::Root => MDTreeElem::Root,
                            };
                            let par = d.nodes[j].parent;
                            d.nodes.set(j, TsNode { parent: par, label: newlabel });
                            d.pointer = j;
                            proof {
                                assert(md_nodes(d) =~= md_nodes(*s).update(
                                    j as int,
                                    MdNodeV {
                                        parent: md_nodes(*s)[j as int].parent,
                                        elem: MdElemV {
                                            is_root: false,
                                            active: Some(sym),
                                            remaining: seq_without(
                                                md_nodes(*s)[j as int].elem.remaining,
                                                sym,
                                            ),
                                        },
                                    },
                                ));
                                assert(ts_wf(d));
                            }
                            r.push(d);
                        }
                    }
                    proof {
                        assert forall|t: TreeStack<MDTreeElem>|
                            #[trigger] self.can_yield(k as int, *s, t) && ((t.pointer as int)
                                >= s.nodes@.len() || (t.pointer as int) < j + 1) implies
                            has_md_successor(r@, t) by {
                            if (t.pointer as int) >= s.nodes@.len() || (t.pointer as int) < j {
                                assert(has_md_successor(pre, t));
                                let m = choose|m: int|
                                    0 <= m < pre.len() && md_nodes(#[trigger] pre[m]) == md_nodes(
                                        t,
                                    ) && pre[m].pointer == t.pointer;
                                assert(r@[m] == pre[m]);
                                assert(has_md_successor(r@, t));
                            } else {
                                assert(t.pointer as int == j);
                                assert(md_nodes(r@[r@.len() - 1]) == md_nodes(t));
                                assert(r@[r@.len() - 1].pointer == t.pointer);
                                assert(has_md_successor(r@, t));
                            }
                        }
                    }
                    j += 1;
                }
            },
            MultipleDyckInstruction::Down(sym) => {
                let sym = *sym;
                if s.pointer != 0 {
                    let matches_active = match &s.nodes[s.pointer].label {
                        MDTreeElem::Node { active: Some(a), remaining: _ } => *a == sym,
                        _ => false,
                    };
                    if matches_active {
                        let mut d = dup_md_tree(s);
                        let newlabel = match &s.nodes[s.pointer].label {
                            MDTreeElem::Node { active: _, remaining } => MDTreeElem::Node {
                                active: None,
                                remaining: dup_word(remaining),
                            },
                            MDTreeElem::Root => MDTreeElem::Root,
                        };
                        let par = d.nodes[s.pointer].parent;
                        d.nodes.set(s.pointer, TsNode { parent: par, label: newlabel });
                        d.pointer = par;
                        proof {
                            assert(md_nodes(d) =~= md_nodes(*s).update(
                                s.pointer as int,
                                MdNodeV {
                                    parent: md_nodes(*s)[s.pointer as int].parent,
                                    elem: MdElemV {
                                        is_root: false,
                                        active: None,
                                        remaining: md_nodes(*s)[s.pointer as int].elem.remaining,
                                    },
                                },
                            ));
                            assert(ts_wf(d));
                        }
                        r.push(d);
                        proof {
                            assert forall|t: TreeStack<MDTreeElem>|
                                #[trigger] self.can_yield(k as int, *s, t) implies
                                has_md_successor(r@, t) by {
                                assert(md_nodes(r@[0]) == md_nodes(t));
                                assert(r@[0].pointer == t.pointer);
                                assert(has_md_successor(r@, t));
                            }
                        }
                    } else {
                        proof {
                            assert(md_nodes(*s)[s.pointer as int].elem == md_elem(
                                s.nodes@[s.pointer as int].label,
                            ));
                            assert forall|t: TreeStack<MDTreeElem>| !self.can_yield(
                                k as int,
                                *s,
                                t,
                            ) by {}
                        }
                    }
                } else {
                    proof {
                        assert forall|t: TreeStack<MDTreeElem>| !self.can_yield(
                            k as int,
                            *s,
                            t,
                        ) by {}
                    }
                }
            },
        }
        r
    }

    fn is_terminal(&self, s: &TreeStack<MDTreeElem>) -> (b: bool) {
        if s.pointer != 0 {
            return false;
        }
        let mut i: usize = 0;
        while i < s.nodes.len()
            invariant
                ts_wf(*s),
                i <= s.nodes@.len(),
                forall|m: int| 0 <= m < i ==> md_elem_empty((#[trigger] md_nodes(*s)[m]).elem),
            decreases s.nodes@.len() - i,
        {
            let node_empty = match &s.nodes[i].label {
                MDTreeElem::Root => true,
                MDTreeElem::Node { active, remaining } => active.is_none() && remaining.len() == 0,
            };
            proof {
                assert(md_nodes(*s)[i as int].elem == md_elem(s.nodes@[i as int].label));
            }
            if !node_empty {
                assert(!md_elem_empty(md_nodes(*s)[i as int].elem));
                return false;
            }
            i += 1;
        }
        true
    }

    /// A unit key: every transition is a candidate for every configuration,
    /// so no applicable transition is ever omitted.
    fn candidates(&self, c: &Configuration<TreeStack<MDTreeElem>>) -> (r: Vec<usize>)
        ensures
            forall|k: int| 0 <= k < self.transitions@.len() ==> #[trigger] r@.contains(k as usize),
    {
        let mut r: Vec<usize> = Vec::new();
        let mut k: usize = 0;
        while k < self.transitions.len()
            invariant
                k <= self.transitions@.len(),
                r@.len() == k,
                forall|j: int| 0 <= j < k ==> r@[j] == j,
            decreases self.transitions@.len() - k,
        {
            r.push(k);
            k += 1;
        }
        proof {
            assert forall|j: int| 0 <= j < self.transitions@.len() implies #[trigger] r@.contains(
                j as usize,
            ) by {
                assert(r@[j] == j as usize);
            }
        }
        r
    }
}

/// The multiple Dyck language of an alphabet Σ with respect to a partition
/// of Σ.
pub struct MultipleDyckLanguage {
    pub automaton: MultipleDyckAutomaton,
}

/// How many agenda expansions one recognition demand may spend: the Dyck
/// search space is finite for a finite word, but the generic engine asks its
/// caller to bound each demand explicitly.
pub const MD_SEARCH_STEPS: usize = 1000000;

/// The terminal codes of a bracket word.
pub open spec fn bracket_word_code(w: Seq<Bracket<u64>>) -> Seq<u64> {
    w.map_values(|b: Bracket<u64>| bracket_code_spec(b))
}

impl MultipleDyckLanguage {
    /// The multiple Dyck language of the partition Π = {π₁, …, πₙ}: its
    /// automaton has exactly the partition's open and close transitions.
    pub fn new(p: &Partition) -> (r: MultipleDyckLanguage)
        requires
            partition_wf(p.view_spec()),
        ensures
            ({
                let cells = p.view_spec();
                &&& r.automaton.transitions@.len() == 2 * cells_size_upto(
                    cells,
                    cells.len() as int,
                )
                &&& forall|i: int, j: int|
                    0 <= i < cells.len() && 0 <= j < cells[i].len() ==> {
                        let base = 2 * (cells_size_upto(cells, i) + j);
                        is_open_transition(
                            r.automaton.transitions@[base],
                            #[trigger] cells[i][j],
                            cells[i],
                        ) && is_close_transition(
                            r.automaton.transitions@[base + 1],
                            cells[i][j],
                        )
                    }
            }),
    {
        MultipleDyckLanguage { automaton: MultipleDyckAutomaton::new(p) }
    }

    /// Unweightedly recognises a word of the language: `Some` holds an
    /// accepting configuration reached by a real run of the automaton on the
    /// word — the tree stack back at its root with every node empty and the
    /// whole word consumed; the empty word, in the language by definition, is
    /// always recognised. `None` means the bounded best-first search was
    /// exhausted or spent its step budget without finding an accepting run.
    pub fn recognize(&self, word: &Vec<Bracket<u64>>) -> (r: Option<
        Configuration<TreeStack<MDTreeElem>>,
    >)
        requires
            forall|i: int| 0 <= i < word@.len() ==> symbol_ok(bracket_symbol(#[trigger] word@[i])),
        ensures
            match r {
                Some(c) => {
                    &&& c.word@.len() == 0
                    &&& self.automaton.terminal_spec(c.storage)
                    &&& exists|run: Seq<usize>, trace|
                        (#[trigger] valid_run(
                            &self.automaton,
                            bracket_word_code(word@),
                            run,
                            trace,
                        )) && trace.last().storage == c.storage && trace.last().cost == c.weight
                            && trace.last().rem == c.word@
                },
                None => true,
            },
            word@.len() == 0 ==> r is Some,
    {
        let mut coded: Vec<u64> = Vec::new();
        let mut i: usize = 0;
        while i < word.len()
            invariant
                i <= word@.len(),
                forall|k: int|
                    0 <= k < word@.len() ==> symbol_ok(bracket_symbol(#[trigger] word@[k])),
                coded@ =~= bracket_word_code(word@).take(i as int),
            decreases word@.len() - i,
        {
            coded.push(bracket_code(&word[i]));
            proof {
                assert(coded@ =~= bracket_word_code(word@).take(i + 1));
            }
            i += 1;
        }
        proof {
            assert(bracket_word_code(word@).take(word@.len() as int) =~= bracket_word_code(word@));
        }
        let mut search = recognise(&self.automaton, coded);
        proof {
            if word@.len() == 0 {
                let st = search.agenda@[0].conf.storage;
                assert(self.automaton.is_initial(st));
                assert(md_nodes(st).len() == 1);
                assert(md_elem_empty(md_nodes(st)[0].elem));
                assert(self.automaton.terminal_spec(st));
                assert(search.sole_accepting_item());
            }
        }
        match search.next(MD_SEARCH_STEPS) {
            Some(it) => {
                proof {
                    assert(valid_run(
                        &self.automaton,
                        bracket_word_code(word@),
                        it.run@,
                        it.trace@,
                    ));
                }
                Some(it.conf)
            },
            None => None,
        }
    }
}

} // verus!
