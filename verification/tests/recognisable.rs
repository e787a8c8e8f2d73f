use rustomata::push_down_automaton::{PushDownAutomaton, PushDownInstruction};
use rustomata::recognisable::{recognise, recognise_beam_search, Transition};
use rustomata::weights::{cost_mul, COST_ONE};

/// A push-down automaton over the alphabet {1, 2} that pushes a marker for
/// each `1` and pops it for each `2`, with a cheap and a costly way to push.
fn ambiguous_automaton() -> PushDownAutomaton {
    let push_cheap = Transition {
        word: vec![1],
        weight: 1,
        instruction: PushDownInstruction::Replace { current_val: vec![0], new_val: vec![0, 7] },
    };
    let push_costly = Transition {
        word: vec![1],
        weight: 5,
        instruction: PushDownInstruction::Replace { current_val: vec![0], new_val: vec![0, 8] },
    };
    let pop_cheap = Transition {
        word: vec![2],
        weight: 1,
        instruction: PushDownInstruction::Replace { current_val: vec![7, 0], new_val: vec![0] },
    };
    let pop_costly = Transition {
        word: vec![2],
        weight: 1,
        instruction: PushDownInstruction::Replace { current_val: vec![8, 0], new_val: vec![0] },
    };
    PushDownAutomaton::new(vec![push_cheap, push_costly, pop_cheap, pop_costly], 0)
}

/// The first recognised item is never worse than any recognised later.
#[test]
fn best_first_yields_in_weight_order() {
    let automaton = ambiguous_automaton();
    let mut search = recognise(&automaton, vec![1, 2]);
    let first = search.next(100000).expect("a best derivation");
    let second = search.next(100000).expect("a second derivation");
    assert!(first.conf.weight <= second.conf.weight);
    assert_eq!(first.conf.weight, 2);
    assert_eq!(second.conf.weight, 6);
    assert!(search.next(100000).is_none());
}

/// A beam too wide ever to truncate yields the same first result as
/// unbounded recognition.
#[test]
fn wide_beam_matches_unbounded_recognition() {
    let automaton = ambiguous_automaton();
    let mut unbounded = recognise(&automaton, vec![1, 2]);
    let mut beamed = recognise_beam_search(&automaton, 1000, vec![1, 2]);
    let a = unbounded.next(100000).expect("unbounded result");
    let b = beamed.next(100000).expect("beamed result");
    assert_eq!(a.conf.weight, b.conf.weight);
    assert_eq!(a.run, b.run);
}

/// A narrow beam may lose results, but whatever it yields consumed the whole
/// word through real transitions of the automaton.
#[test]
fn narrow_beam_never_fabricates() {
    let automaton = ambiguous_automaton();
    let mut beamed = recognise_beam_search(&automaton, 1, vec![1, 2]);
    match beamed.next(100000) {
        Some(item) => {
            assert_eq!(item.conf.word.len(), 0);
            assert_eq!(item.run.len(), 2);
            for k in &item.run {
                assert!(*k < automaton.transitions.len());
            }
        },
        None => {},
    }
}

/// Recognition of an impossible word is exhausted, not an error.
#[test]
fn exhausted_search_yields_nothing() {
    let automaton = ambiguous_automaton();
    let mut search = recognise(&automaton, vec![2]);
    assert!(search.next(100000).is_none());
}

/// The cost semiring: identity and saturation.
#[test]
fn cost_semiring_combines_by_saturating_addition() {
    assert_eq!(COST_ONE, 0);
    assert_eq!(cost_mul(3, 4), 7);
    assert_eq!(cost_mul(0, 9), 9);
    assert_eq!(cost_mul(u64::MAX, 1), u64::MAX);
}
