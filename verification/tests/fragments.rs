use rustomata::dyck::Bracket;
use rustomata::mcfg::{BracketContent, MCFG, RuleFragment};
use rustomata::pmcfg::{Composition, EquivalenceClass, PMCFG, PMCFGRule, VarT};
use rustomata::weights::COST_ONE;

fn example_rule() -> PMCFGRule {
    PMCFGRule {
        head: 1,
        tail: vec![1],
        composition: Composition {
            composition: vec![vec![VarT::T(1), VarT::Var(0, 0), VarT::T(2)]],
        },
        weight: COST_ONE,
    }
}

#[test]
fn fragments() {
    let rule = example_rule();
    let mut it = rustomata::mcfg::fragments(&rule);
    let mut words = Vec::new();
    while let Some(fragment) = it.next() {
        words.push(fragment.bracket_word(0));
    }
    println!("{:?}", words);
}

#[test]
fn fragments_split_a_component_at_its_variables() {
    let rule = example_rule();
    let mut it = rustomata::mcfg::fragments(&rule);

    let first = it.next().expect("a first fragment");
    match &first {
        RuleFragment::Start(_, comp, terminals, to) => {
            assert_eq!(*comp, 0);
            assert_eq!(terminals, &vec![1]);
            assert_eq!(*to, (0, 0));
        },
        other => panic!("expected a component start, got {:?}", other),
    }
    let word = first.bracket_word(0);
    assert_eq!(
        word.0,
        vec![
            Bracket::Open(BracketContent::Component(0, 0)),
            Bracket::Open(BracketContent::Terminal(1)),
            Bracket::Close(BracketContent::Terminal(1)),
            Bracket::Open(BracketContent::Variable(0, 0, 0)),
        ]
    );
    assert_eq!(first.from(), Bracket::Open((1, 0)));
    assert_eq!(first.to(), Bracket::Open((1, 0)));

    let second = it.next().expect("a second fragment");
    match &second {
        RuleFragment::End(_, comp, from, terminals) => {
            assert_eq!(*comp, 0);
            assert_eq!(*from, (0, 0));
            assert_eq!(terminals, &vec![2]);
        },
        other => panic!("expected a component end, got {:?}", other),
    }
    let word = second.bracket_word(0);
    assert_eq!(
        word.0,
        vec![
            Bracket::Close(BracketContent::Variable(0, 0, 0)),
            Bracket::Open(BracketContent::Terminal(2)),
            Bracket::Close(BracketContent::Terminal(2)),
            Bracket::Close(BracketContent::Component(0, 0)),
        ]
    );
    assert_eq!(second.from(), Bracket::Close((1, 0)));
    assert_eq!(second.to(), Bracket::Close((1, 0)));

    assert!(it.next().is_none());
}

#[test]
fn relabel_projects_head_and_tail() {
    let rule = example_rule();
    let mapping = EquivalenceClass { classes: vec![(1, 10)], default_class: 99 };
    let relabelled = rule.relabel(&mapping);
    assert_eq!(relabelled.head, 10);
    assert_eq!(relabelled.tail, vec![10]);
    assert_eq!(relabelled.weight, rule.weight);
    assert_eq!(
        relabelled.composition.composition,
        vec![vec![VarT::T(1), VarT::Var(0, 0), VarT::T(2)]]
    );

    let other = PMCFGRule { head: 3, ..example_rule() };
    assert_eq!(other.relabel(&mapping).head, 99);
}

#[test]
fn mcfg_takes_the_single_initial_nonterminal() {
    let grammar = PMCFG { rules: vec![example_rule()], initial: vec![1] };
    let mcfg = MCFG::from(grammar);
    assert_eq!(mcfg.initial, 1);
    assert_eq!(mcfg.rules.len(), 1);
    assert_eq!(mcfg.rules[0].head, 1);
}
