//! Rules of (parallel) multiple context-free grammars, and relabelling of
//! their nonterminals through an equivalence-class projection.

use vstd::prelude::*;

verus! {

/// One entry of a composition component: a variable — the `j`-th component
/// of the `i`-th successor — or a terminal symbol.
#[derive(Clone, Copy, PartialEq, Eq, Structural, Debug)]
pub enum VarT {
    Var(usize, usize),
    T(u64),
}

/// A multi-component composition: each component assembles terminals and
/// successor components.
#[derive(Debug)]
pub struct Composition {
    pub composition: Vec<Vec<VarT>>,
}

/// The view of a composition.
pub open spec fn comp_view(c: Composition) -> Seq<Seq<VarT>> {
    c.composition@.map_values(|v: Vec<VarT>| v@)
}

/// A PMCFG rule: a head nonterminal, the tail of successor nonterminals, a
/// composition, and a weight of the cost semiring.
#[derive(Debug)]
pub struct PMCFGRule {
    pub head: u64,
    pub tail: Vec<u64>,
    pub composition: Composition,
    pub weight: u64,
}

/// The mathematical shadow of a rule.
pub ghost struct RuleV {
    pub head: u64,
    pub tail: Seq<u64>,
    pub comp: Seq<Seq<VarT>>,
    pub weight: u64,
}

/// The view of a rule.
pub open spec fn rule_view(r: PMCFGRule) -> RuleV {
    RuleV { head: r.head, tail: r.tail@, comp: comp_view(r.composition), weight: r.weight }
}

/// A whole grammar: its rules and its initial nonterminals.
#[derive(Debug)]
pub struct PMCFG {
    pub rules: Vec<PMCFGRule>,
    pub initial: Vec<u64>,
}

/// A copy of a composition.
pub fn dup_composition(c: &Composition) -> (r: Composition)
    ensures
        comp_view(r) == comp_view(*c),
{
    let mut composition: Vec<Vec<VarT>> = Vec::new();
    let mut i: usize = 0;
    while i < c.composition.len()
        invariant
            i <= c.composition@.len(),
            composition@.len() == i,
            forall|k: int| 0 <= k < i ==> (#[trigger] composition@[k])@ == c.composition@[k]@,
        decreases c.composition@.len() - i,
    {
        let comp = &c.composition[i];
        let mut inner: Vec<VarT> = Vec::new();
        let mut j: usize = 0;
        while j < comp.len()
            invariant
                j <= comp@.len(),
                comp == &c.composition[i as int],
                inner@ =~= comp@.subrange(0, j as int),
            decreases comp@.len() - j,
        {
            inner.push(comp[j]);
            j += 1;
        }
        proof {
            assert(comp@.subrange(0, comp@.len() as int) =~= comp@);
        }
        composition.push(inner);
        i += 1;
    }
    let r = Composition { composition };
    proof {
        assert forall|k: int| 0 <= k < c.composition@.len() implies comp_view(r)[k] == comp_view(
            *c,
        )[k] by {
            assert(comp_view(r)[k] == r.composition@[k]@);
        }
        assert(comp_view(r) =~= comp_view(*c));
    }
    r
}

/// A copy of a rule.
pub fn dup_rule(r: &PMCFGRule) -> (d: PMCFGRule)
    ensures
        rule_view(d) == rule_view(*r),
{
    let mut tail: Vec<u64> = Vec::new();
    let mut i: usize = 0;
    while i < r.tail.len()
        invariant
            i <= r.tail@.len(),
            tail@ =~= r.tail@.subrange(0, i as int),
        decreases r.tail@.len() - i,
    {
        tail.push(r.tail[i]);
        i += 1;
    }
    proof {
        assert(r.tail@.subrange(0, r.tail@.len() as int) =~= r.tail@);
    }
    PMCFGRule {
        head: r.head,
        tail,
        composition: dup_composition(&r.composition),
        weight: r.weight,
    }
}

/// An equivalence relation on nonterminals: members are projected to the
/// class recorded for them, everything else to the default class.
pub struct EquivalenceClass {
    pub classes: Vec<(u64, u64)>,
    pub default_class: u64,
}

/// What a nonterminal projects to.
pub open spec fn project_spec(classes: Seq<(u64, u64)>, default_class: u64, n: u64) -> u64
    decreases classes.len(),
{
    if classes.len() == 0 {
        default_class
    } else {
        if classes[0].0 == n {
            classes[0].1
        } else {
            project_spec(classes.drop_first(), default_class, n)
        }
    }
}

impl EquivalenceClass {
    /// The class of a nonterminal.
    pub fn project(&self, n: u64) -> (r: u64)
        ensures
            r == project_spec(self.classes@, self.default_class, n),
    {
        let mut i: usize = 0;
        proof {
            assert(self.classes@.skip(0) =~= self.classes@);
        }
        while i < self.classes.len()
            invariant
                i <= self.classes@.len(),
                project_spec(self.classes@, self.default_class, n) == project_spec(
                    self.classes@.skip(i as int),
                    self.default_class,
                    n,
                ),
            decreases self.classes@.len() - i,
        {
            proof {
                assert(self.classes@.skip(i as int)[0] == self.classes@[i as int]);
                assert(self.classes@.skip(i as int).drop_first() =~= self.classes@.skip(i + 1));
            }
            if self.classes[i].0 == n {
                return self.classes[i].1;
            }
            i += 1;
        }
        proof {
            assert(self.classes@.skip(self.classes@.len() as int).len() == 0);
        }
        self.default_class
    }
}

impl PMCFGRule {
    /// The rule with its head and tail nonterminals projected through the
    /// equivalence classes; composition and weight are untouched.
    pub fn relabel(&self, mapping: &EquivalenceClass) -> (r: PMCFGRule)
        ensures
            r.head == project_spec(mapping.classes@, mapping.default_class, self.head),
            r.tail@.len() == self.tail@.len(),
            forall|i: int|
                0 <= i < self.tail@.len() ==> r.tail@[i] == project_spec(
                    mapping.classes@,
                    mapping.default_class,
                    #[trigger] self.tail@[i],
                ),
            comp_view(r.composition) == comp_view(self.composition),
            r.weight == self.weight,
    {
        let mut new_tail: Vec<u64> = Vec::new();
        let mut i: usize = 0;
        while i < self.tail.len()
            invariant
                i <= self.tail@.len(),
                new_tail@.len() == i,
                forall|k: int|
                    0 <= k < i ==> new_tail@[k] == project_spec(
                        mapping.classes@,
                        mapping.default_class,
                        #[trigger] self.tail@[k],
                    ),
            decreases self.tail@.len() - i,
        {
            new_tail.push(mapping.project(self.tail[i]));
            i += 1;
        }
        PMCFGRule {
            head: mapping.project(self.head),
            tail: new_tail,
            composition: dup_composition(&self.composition),
            weight: self.weight,
        }
    }
}

} // verus!
