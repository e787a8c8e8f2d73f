//! Multiple context-free grammars, and the decomposition of their rules into
//! fragments: the maximal terminal stretches between successive variables of
//! each composition component, bracketed for the Dyck-based pipeline.

use vstd::prelude::*;
use crate::dyck::Bracket;
use crate::pmcfg::{comp_view, dup_rule, rule_view, PMCFG, PMCFGRule, VarT};

verus! {

/// A multiple context-free grammar: its rules and its single initial
/// nonterminal.
#[derive(Debug)]
pub struct MCFG {
    pub rules: Vec<PMCFGRule>,
    pub initial: u64,
}

impl MCFG {
    /// A grammar from a PMCFG with exactly one initial nonterminal.
    pub fn from(grammar: PMCFG) -> (r: MCFG)
        requires
            grammar.initial@.len() == 1,
        ensures
            r.rules == grammar.rules,
            r.initial == grammar.initial@[0],
    {
        let PMCFG { rules, initial } = grammar;
        MCFG { rules, initial: initial[0] }
    }
}

/// The content of a bracket in a rule's bracket word: a terminal, a rule
/// component, or a variable of a rule.
#[derive(Clone, Copy, PartialEq, Eq, Structural, Debug)]
pub enum BracketContent {
    Terminal(u64),
    Component(usize, usize),
    Variable(usize, usize, usize),
}

/// The bracket word of one rule fragment.
#[derive(Debug)]
pub struct BracketFragment(pub Vec<Bracket<BracketContent>>);

/// One fragment of a rule's composition: a maximal stretch of terminals,
/// together with the variable it follows (none at a component's start) and
/// the variable it runs up to (none at a component's end).
#[derive(Debug)]
pub enum RuleFragment {
    Start(PMCFGRule, usize, Vec<u64>, (usize, usize)),
    Intermediate(PMCFGRule, usize, (usize, usize), Vec<u64>, (usize, usize)),
    End(PMCFGRule, usize, (usize, usize), Vec<u64>),
    Whole(PMCFGRule, usize, Vec<u64>),
}

/// The rule a fragment belongs to.
pub open spec fn frag_rule(f: RuleFragment) -> PMCFGRule {
    match f {
        RuleFragment::Start(r, _, _, _) => r,
        RuleFragment::Intermediate(r, _, _, _, _) => r,
        RuleFragment::End(r, _, _, _) => r,
        RuleFragment::Whole(r, _, _) => r,
    }
}

/// The component index of a fragment.
pub open spec fn frag_comp(f: RuleFragment) -> usize {
    match f {
        RuleFragment::Start(_, j, _, _) => j,
        RuleFragment::Intermediate(_, j, _, _, _) => j,
        RuleFragment::End(_, j, _, _) => j,
        RuleFragment::Whole(_, j, _) => j,
    }
}

/// The variable a fragment follows.
pub open spec fn frag_from(f: RuleFragment) -> Option<(usize, usize)> {
    match f {
        RuleFragment::Start(_, _, _, _) => None,
        RuleFragment::Intermediate(_, _, v, _, _) => Some(v),
        RuleFragment::End(_, _, v, _) => Some(v),
        RuleFragment::Whole(_, _, _) => None,
    }
}

/// The variable a fragment runs up to.
pub open spec fn frag_to(f: RuleFragment) -> Option<(usize, usize)> {
    match f {
        RuleFragment::Start(_, _, _, v) => Some(v),
        RuleFragment::Intermediate(_, _, _, _, v) => Some(v),
        RuleFragment::End(_, _, _, _) => None,
        RuleFragment::Whole(_, _, _) => None,
    }
}

/// The terminals of a fragment.
pub open spec fn frag_terminals(f: RuleFragment) -> Seq<u64> {
    match f {
        RuleFragment::Start(_, _, ts, _) => ts@,
        RuleFragment::Intermediate(_, _, _, ts, _) => ts@,
        RuleFragment::End(_, _, _, ts) => ts@,
        RuleFragment::Whole(_, _, ts) => ts@,
    }
}

/// The index of the first variable of `comp` at or after `from`.
pub open spec fn next_var_at(comp: Seq<VarT>, from: int) -> Option<int>
    decreases comp.len() - from,
{
    if from >= comp.len() {
        None
    } else {
        match comp[from] {
            VarT::Var(_, _) => Some(from),
            VarT::T(_) => next_var_at(comp, from + 1),
        }
    }
}

/// The terminals among `comp[from .. to]`.
pub open spec fn terms_upto(comp: Seq<VarT>, from: int, to: int) -> Seq<u64>
    decreases to - from,
{
    if to <= from {
        Seq::empty()
    } else {
        match comp[to - 1] {
            VarT::T(x) => terms_upto(comp, from, to - 1).push(x),
            VarT::Var(_, _) => terms_upto(comp, from, to - 1),
        }
    }
}

/// A suspended walk over the fragments of one rule.
pub struct FragmentIterator {
    pub rule: PMCFGRule,
    pub comp_idx: usize,
    pub pos: usize,
    pub in_comp: bool,
}

/// The iterator's cursor is consistent: when it rests inside a component it
/// rests on a variable.
pub open spec fn it_wf(it: FragmentIterator) -> bool {
    let rv = rule_view(it.rule);
    &&& it.comp_idx <= rv.comp.len()
    &&& (it.in_comp ==> (it.comp_idx as int) < rv.comp.len() && (it.pos as int)
        < rv.comp[it.comp_idx as int].len() && rv.comp[it.comp_idx as int][it.pos as int] matches VarT::Var(
            _,
            _,
        ))
}

/// Starts walking the fragments of `rule`.
pub fn fragments(rule: &PMCFGRule) -> (r: FragmentIterator)
    ensures
        it_wf(r),
        rule_view(r.rule) == rule_view(*rule),
        r.comp_idx == 0,
        !r.in_comp,
{
    FragmentIterator { rule: dup_rule(rule), comp_idx: 0, pos: 0, in_comp: false }
}

impl FragmentIterator {
    /// The next fragment: the stretch of terminals from the cursor to the
    /// next variable of the current component (a `Start` or `Intermediate`
    /// fragment), or to the component's end (`End` or `Whole`), after which
    /// the walk resumes at the next component. `None` once every component
    /// is exhausted.
    pub fn next(&mut self) -> (r: Option<RuleFragment>)
        requires
            it_wf(*old(self)),
        ensures
            it_wf(*final(self)),
            rule_view(final(self).rule) == rule_view(old(self).rule),
            ({
                let rv = rule_view(old(self).rule);
                let ci = old(self).comp_idx as int;
                if ci >= rv.comp.len() {
                    r is None && final(self).comp_idx == old(self).comp_idx
                } else {
                    let comp = rv.comp[ci];
                    let start: int = if old(self).in_comp {
                        old(self).pos + 1
                    } else {
                        0
                    };
                    let from_pair: Option<(usize, usize)> = if old(self).in_comp {
                        match comp[old(self).pos as int] {
                            VarT::Var(i, j) => Some((i, j)),
                            VarT::T(_) => None,
                        }
                    } else {
                        None
                    };
                    match r {
                        Some(f) => {
                            &&& rule_view(frag_rule(f)) == rv
                            &&& frag_comp(f) as int == ci
                            &&& frag_from(f) == from_pair
                            &&& match next_var_at(comp, start) {
                                Some(v) => {
                                    &&& frag_terminals(f) == terms_upto(comp, start, v)
                                    &&& (comp[v] matches VarT::Var(i, j) ==> frag_to(f) == Some(
                                        (i, j),
                                    ))
                                    &&& frag_to(f) is Some
                                    &&& final(self).comp_idx as int == ci
                                    &&& final(self).in_comp
                                    &&& final(self).pos as int == v
                                },
                                None => {
                                    &&& frag_terminals(f) == terms_upto(comp, start, comp.len() as int)
                                    &&& frag_to(f) is None
                                    &&& final(self).comp_idx as int == ci + 1
                                    &&& !final(self).in_comp
                                },
                            }
                        },
                        None => false,
                    }
                }
            }),
    {
        let ncomps = self.rule.composition.composition.len();
        if self.comp_idx >= ncomps {
            return None;
        }
        let ghost rv = rule_view(self.rule);
        let ghost comp = rv.comp[self.comp_idx as int];
        let clen = self.rule.composition.composition[self.comp_idx].len();
        let start_var: Option<(usize, usize)> = if self.in_comp {
            match self.rule.composition.composition[self.comp_idx][self.pos] {
                VarT::Var(i, j) => Some((i, j)),
                VarT::T(_) => None,
            }
        } else {
            None
        };
        let start: usize = if self.in_comp {
            self.pos + 1
        } else {
            0
        };
        let mut terminals: Vec<u64> = Vec::new();
        let mut idx: usize = start;
        while idx < clen
            invariant
                it_wf(*self),
                rv == rule_view(self.rule),
                rv == rule_view(old(self).rule),
                self.comp_idx == old(self).comp_idx,
                self.pos == old(self).pos,
                self.in_comp == old(self).in_comp,
                start as int == if old(self).in_comp {
                    old(self).pos + 1
                } else {
                    0
                },
                start_var == if old(self).in_comp {
                    match rv.comp[old(self).comp_idx as int][old(self).pos as int] {
                        VarT::Var(i, j) => Some((i, j)),
                        VarT::T(_) => None,
                    }
                } else {
                    None
                },
                (self.comp_idx as int) < rv.comp.len(),
                comp == rv.comp[self.comp_idx as int],
                clen == comp.len(),
                start <= idx <= clen,
                terminals@ == terms_upto(comp, start as int, idx as int),
                next_var_at(comp, start as int) == next_var_at(comp, idx as int),
            decreases clen - idx,
        {
            let cur = self.rule.composition.composition[self.comp_idx][idx];
            proof {
                assert(cur == comp[idx as int]);
            }
            match cur {
                VarT::T(t) => {
                    terminals.push(t);
                    proof {
                        assert(next_var_at(comp, idx as int) == next_var_at(comp, idx + 1));
                        assert(terminals@ == terms_upto(comp, start as int, idx + 1));
                    }
                },
                VarT::Var(i, j) => {
                    proof {
                        assert(next_var_at(comp, idx as int) == Some(idx as int));
                    }
                    let frag = match start_var {
                        None => RuleFragment::Start(
                            dup_rule(&self.rule),
                            self.comp_idx,
                            terminals,
                            (i, j),
                        ),
                        Some(sv) => RuleFragment::Intermediate(
                            dup_rule(&self.rule),
                            self.comp_idx,
                            sv,
                            terminals,
                            (i, j),
                        ),
                    };
                    self.pos = idx;
                    self.in_comp = true;
                    return Some(frag);
                },
            }
            idx += 1;
        }
        proof {
            assert(next_var_at(comp, clen as int) is None);
        }
        let frag = match start_var {
            None => RuleFragment::Whole(dup_rule(&self.rule), self.comp_idx, terminals),
            Some(sv) => RuleFragment::End(dup_rule(&self.rule), self.comp_idx, sv, terminals),
        };
        self.comp_idx = self.comp_idx + 1;
        self.in_comp = false;
        Some(frag)
    }
}

/// The open/close pair of brackets of one terminal.
pub open spec fn term_brackets(ts: Seq<u64>) -> Seq<Bracket<BracketContent>>
    decreases ts.len(),
{
    if ts.len() == 0 {
        Seq::empty()
    } else {
        term_brackets(ts.drop_last()).push(Bracket::Open(BracketContent::Terminal(ts.last()))).push(
            Bracket::Close(BracketContent::Terminal(ts.last())),
        )
    }
}

/// The bracket a fragment's word starts with.
pub open spec fn first_bracket(f: RuleFragment, ri: usize) -> Bracket<BracketContent> {
    match frag_from(f) {
        None => Bracket::Open(BracketContent::Component(ri, frag_comp(f))),
        Some((i, j)) => Bracket::Close(BracketContent::Variable(ri, i, j)),
    }
}

/// The bracket a fragment's word ends with.
pub open spec fn last_bracket(f: RuleFragment, ri: usize) -> Bracket<BracketContent> {
    match frag_to(f) {
        Some((i, j)) => Bracket::Open(BracketContent::Variable(ri, i, j)),
        None => Bracket::Close(BracketContent::Component(ri, frag_comp(f))),
    }
}

impl RuleFragment {
    /// The fragment's bracket word under the dense index `rule_index` that
    /// the grammar's interning service assigned to its rule: its delimiting
    /// component or variable brackets around an open/close pair for each
    /// terminal.
    pub fn bracket_word(&self, rule_index: usize) -> (r: BracketFragment)
        ensures
            r.0@ == Seq::empty().push(first_bracket(*self, rule_index)) + term_brackets(
                frag_terminals(*self),
            ) + Seq::empty().push(last_bracket(*self, rule_index)),
    {
        let mut bracks: Vec<Bracket<BracketContent>> = Vec::new();
        match self {
            RuleFragment::Start(_, j, _, _) => bracks.push(
                Bracket::Open(BracketContent::Component(rule_index, *j)),
            ),
            RuleFragment::Intermediate(_, _, (i, j), _, _) => bracks.push(
                Bracket::Close(BracketContent::Variable(rule_index, *i, *j)),
            ),
            RuleFragment::End(_, _, (i, j), _) => bracks.push(
                Bracket::Close(BracketContent::Variable(rule_index, *i, *j)),
            ),
            RuleFragment::Whole(_, j, _) => bracks.push(
                Bracket::Open(BracketContent::Component(rule_index, *j)),
            ),
        }
        proof {
            assert(bracks@ =~= Seq::empty().push(first_bracket(*self, rule_index)));
        }
        let ts = self.terminals();
        let mut i: usize = 0;
        while i < ts.len()
            invariant
                ts@ == frag_terminals(*self),
                i <= ts@.len(),
                bracks@ == Seq::empty().push(first_bracket(*self, rule_index)) + term_brackets(
                    ts@.take(i as int),
                ),
            decreases ts@.len() - i,
        {
            let t = ts[i];
            bracks.push(Bracket::Open(BracketContent::Terminal(t)));
            bracks.push(Bracket::Close(BracketContent::Terminal(t)));
            proof {
                assert(ts@.take(i + 1).drop_last() =~= ts@.take(i as int));
                assert(ts@.take(i + 1).last() == ts@[i as int]);
                assert(bracks@ =~= Seq::empty().push(first_bracket(*self, rule_index))
                    + term_brackets(ts@.take(i + 1)));
            }
            i += 1;
        }
        proof {
            assert(ts@.take(ts@.len() as int) =~= ts@);
        }
        match self {
            RuleFragment::Start(_, _, _, (i, j)) => bracks.push(
                Bracket::Open(BracketContent::Variable(rule_index, *i, *j)),
            ),
            RuleFragment::Intermediate(_, _, _, _, (i, j)) => bracks.push(
                Bracket::Open(BracketContent::Variable(rule_index, *i, *j)),
            ),
            RuleFragment::End(_, j, _, _) => bracks.push(
                Bracket::Close(BracketContent::Component(rule_index, *j)),
            ),
            RuleFragment::Whole(_, j, _) => bracks.push(
                Bracket::Close(BracketContent::Component(rule_index, *j)),
            ),
        }
        proof {
            assert(bracks@ =~= Seq::empty().push(first_bracket(*self, rule_index)) + term_brackets(
                frag_terminals(*self),
            ) + Seq::empty().push(last_bracket(*self, rule_index)));
        }
        BracketFragment(bracks)
    }

    /// The fragment's terminals.
    pub fn terminals(&self) -> (r: &Vec<u64>)
        ensures
            r@ == frag_terminals(*self),
    {
        match self {
            RuleFragment::Start(_, _, ts, _) => ts,
            RuleFragment::Intermediate(_, _, _, ts, _) => ts,
            RuleFragment::End(_, _, _, ts) => ts,
            RuleFragment::Whole(_, _, ts) => ts,
        }
    }

    /// The bracket over (nonterminal, component) that the fragment's word
    /// starts in: the rule's head component when the fragment starts a
    /// component, else the closing of the variable it follows.
    pub fn from(&self) -> (r: Bracket<(u64, usize)>)
        requires
            frag_from(*self) matches Some((i, _)) ==> (i as int) < rule_view(
                frag_rule(*self),
            ).tail.len(),
        ensures
            r == match frag_from(*self) {
                None => Bracket::Open((rule_view(frag_rule(*self)).head, frag_comp(*self))),
                Some((i, j)) => Bracket::Close(
                    (rule_view(frag_rule(*self)).tail[i as int], j),
                ),
            },
    {
        match self {
            RuleFragment::Start(r0, j, _, _) => Bracket::Open((r0.head, *j)),
            RuleFragment::Intermediate(r0, _, (i, j), _, _) => Bracket::Close((r0.tail[*i], *j)),
            RuleFragment::End(r0, _, (i, j), _) => Bracket::Close((r0.tail[*i], *j)),
            RuleFragment::Whole(r0, j, _) => Bracket::Open((r0.head, *j)),
        }
    }

    /// The bracket over (nonterminal, component) that the fragment's word
    /// ends in: the opening of the variable it runs up to, or the closing of
    /// the rule's head component at a component's end.
    pub fn to(&self) -> (r: Bracket<(u64, usize)>)
        requires
            frag_to(*self) matches Some((i, _)) ==> (i as int) < rule_view(
                frag_rule(*self),
            ).tail.len(),
        ensures
            r == match frag_to(*self) {
                Some((i, j)) => Bracket::Open((rule_view(frag_rule(*self)).tail[i as int], j)),
                None => Bracket::Close((rule_view(frag_rule(*self)).head, frag_comp(*self))),
            },
    {
        match self {
            RuleFragment::Start(r0, _, _, (i, j)) => Bracket::Open((r0.tail[*i], *j)),
            RuleFragment::Intermediate(r0, _, _, _, (i, j)) => Bracket::Open((r0.tail[*i], *j)),
            RuleFragment::End(r0, j, _, _) => Bracket::Close((r0.head, *j)),
            RuleFragment::Whole(r0, j, _) => Bracket::Close((r0.head, *j)),
        }
    }
}

} // verus!
