use rustomata::approximation::TTSElement;
use rustomata::push_down_automaton::{PushDownAutomaton, PushDownInstruction};
use rustomata::recognisable::{recognise, Transition};
use rustomata::tree_stack_automaton::{TreeStackAutomaton, TreeStackInstruction};

fn push_transition(word: u64, weight: u64) -> Transition<TreeStackInstruction> {
    Transition {
        word: vec![word],
        weight,
        instruction: TreeStackInstruction::Push { current_val: 0, new_val: 1 },
    }
}

fn down_transition(word: u64, weight: u64) -> Transition<TreeStackInstruction> {
    Transition {
        word: vec![word],
        weight,
        instruction: TreeStackInstruction::Down { current_val: 1, old_val: 0, new_val: 0 },
    }
}

/// Approximating a source transition and translating the one-step run of its
/// image recovers the source transition among the candidates.
#[test]
fn translate_recovers_approximated_transition() {
    let mut tts = TTSElement::new();
    let t = push_transition(5, 1);
    let image = tts.approximate_transition(&t);
    assert_eq!(image.word, vec![5]);
    assert_eq!(image.weight, 1);
    let PushDownInstruction::Replace { current_val, new_val } = &image.instruction;
    assert_eq!(current_val, &vec![0]);
    assert_eq!(new_val, &vec![0, 1]);

    let candidates = tts.translate_run(&vec![image]);
    assert_eq!(candidates.len(), 1);
    assert_eq!(candidates[0].len(), 1);
    assert_eq!(candidates[0][0].word, vec![5]);
    assert_eq!(candidates[0][0].weight, 1);
    assert_eq!(
        candidates[0][0].instruction,
        TreeStackInstruction::Push { current_val: 0, new_val: 1 }
    );
}

/// A run with a step whose key was never registered has no source
/// explanation.
#[test]
fn translate_refuses_unregistered_keys() {
    let mut tts = TTSElement::new();
    let t = push_transition(5, 1);
    let _ = tts.approximate_transition(&t);

    let unregistered = Transition {
        word: vec![9],
        weight: 1,
        instruction: PushDownInstruction::Replace { current_val: vec![0], new_val: vec![0, 1] },
    };
    assert!(tts.translate_run(&vec![unregistered]).is_empty());
}

/// Candidates come ranked by combined weight, best (least cost) first.
#[test]
fn translate_ranks_candidates_by_weight() {
    let mut tts = TTSElement::new();
    // two source transitions collapsing onto the same target key
    let cheap = push_transition(5, 1);
    let costly = Transition {
        word: vec![5],
        weight: 4,
        instruction: TreeStackInstruction::Up { current_val: 0, new_val: 1 },
    };
    let image_costly = tts.approximate_transition(&costly);
    let image_cheap = tts.approximate_transition(&cheap);
    assert_eq!(image_cheap.word, image_costly.word);

    let candidates = tts.translate_run(&vec![image_cheap]);
    assert_eq!(candidates.len(), 2);
    assert!(candidates[0][0].weight <= candidates[1][0].weight);
    assert_eq!(candidates[0][0].weight, 1);
    assert_eq!(candidates[1][0].weight, 4);
}

/// Manual registration seeds a correspondence like the automatic mapping.
#[test]
fn add_transitions_registers_a_correspondence() {
    let mut tts = TTSElement::new();
    let source = down_transition(7, 2);
    let target = Transition {
        word: vec![7],
        weight: 2,
        instruction: PushDownInstruction::Replace { current_val: vec![1, 0], new_val: vec![0] },
    };
    tts.add_transitions(&source, &target);
    let candidates = tts.translate_run(&vec![target]);
    assert_eq!(candidates.len(), 1);
    assert_eq!(
        candidates[0][0].instruction,
        TreeStackInstruction::Down { current_val: 1, old_val: 0, new_val: 0 }
    );
}

/// Approximating a tree-stack automaton, recognising with the push-down
/// image and back-translating the found run recovers exactly the derivation
/// that direct tree-stack recognition finds.
#[test]
fn tts_round_trip_recovers_tree_stack_derivation() {
    let source_transitions = vec![push_transition(5, 1), down_transition(6, 1)];
    let source = TreeStackAutomaton::new(
        vec![push_transition(5, 1), down_transition(6, 1)],
        0,
    );

    // approximate every source transition
    let mut tts = TTSElement::new();
    let mut target_transitions = Vec::new();
    for t in &source_transitions {
        target_transitions.push(tts.approximate_transition(t));
    }
    let target = PushDownAutomaton::new(target_transitions, 0);

    let word = vec![5, 6];

    // recognise against the approximated push-down automaton
    let mut target_search = recognise(&target, word.clone());
    let target_item = target_search.next(100000).expect("push-down recognition");
    assert_eq!(target_item.conf.word.len(), 0);

    // back-translate the target run into source candidates
    let mut target_run = Vec::new();
    for k in &target_item.run {
        let t = &target.transitions[*k];
        let PushDownInstruction::Replace { current_val, new_val } = &t.instruction;
        target_run.push(Transition {
            word: t.word.clone(),
            weight: t.weight,
            instruction: PushDownInstruction::Replace {
                current_val: current_val.clone(),
                new_val: new_val.clone(),
            },
        });
    }
    let candidates = tts.translate_run(&target_run);
    assert_eq!(candidates.len(), 1);

    // recognise the same word against the original tree-stack automaton
    let mut source_search = recognise(&source, word);
    let source_item = source_search.next(100000).expect("tree-stack recognition");
    let direct: Vec<&Transition<TreeStackInstruction>> =
        source_item.run.iter().map(|k| &source.transitions[*k]).collect();

    assert_eq!(candidates[0].len(), direct.len());
    for (got, want) in candidates[0].iter().zip(direct.iter()) {
        assert_eq!(got.word, want.word);
        assert_eq!(got.weight, want.weight);
        assert_eq!(got.instruction, want.instruction);
    }
}
