//! A weighted-automata toolkit for parsing with mildly context-sensitive
//! grammar formalisms: storages (tree stacks, push-downs) manipulated by
//! instructions, weighted transitions, a best-first and beam-limited search
//! engine, an approximation of tree-stack automata by push-down automata with
//! exact back-translation of runs, and the multiple Dyck language automaton.
//!
//! Weights are drawn from a cost semiring: a weight is a non-negative integer
//! cost (think of a probability in (0, 1] written as a negative logarithm),
//! the multiplicative identity is cost `0`, multiplication is saturating
//! addition of costs, and "greater weight" means "smaller cost".

pub mod weights;
pub mod util;
pub mod recognisable;
pub mod tree_stack;
pub mod tree_stack_automaton;
pub mod push_down_automaton;
pub mod approximation;
pub mod dyck;
pub mod pmcfg;
pub mod mcfg;

use vstd::prelude::*;

verus! {

} // verus!
