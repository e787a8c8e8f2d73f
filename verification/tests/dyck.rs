use rustomata::dyck::{Bracket, MultipleDyckLanguage};
use rustomata::util::Partition;

use rustomata::dyck::Bracket::{Close, Open};

fn language() -> MultipleDyckLanguage {
    let partition = Partition::new(vec![vec![1, 2], vec![3, 4]]).unwrap();
    MultipleDyckLanguage::new(&partition)
}

#[test]
fn mutliple_dyck_language() {
    let words = vec![
        vec![Open(1), Close(1), Open(2), Close(2)],
        vec![
            Open(1),
            Open(2),
            Close(2),
            Open(1),
            Close(1),
            Close(1),
            Open(2),
            Close(2),
        ],
        vec![
            Open(1),
            Open(2),
            Close(2),
            Close(1),
            Open(2),
            Open(1),
            Close(1),
            Close(2),
        ],
        vec![
            Open(1),
            Open(3),
            Close(3),
            Close(1),
            Open(2),
            Open(4),
            Close(4),
            Close(2),
        ],
    ];

    let mdl = language();

    for dyckword in words {
        assert!(mdl.recognize(&dyckword).is_some());
    }

    let not_words: Vec<Vec<Bracket<u64>>> = vec![
        vec![Open(1), Close(2), Open(2), Close(1)],
        vec![
            Open(1),
            Open(4),
            Close(4),
            Close(1),
            Open(3),
            Open(2),
            Close(2),
            Close(3),
        ],
    ];

    println!("{:?}", mdl.recognize(&not_words[0]));
    println!("{:?}", mdl.recognize(&not_words[1]));
}

#[test]
fn multiple_dyck_rejects_cross_cell_words() {
    let mdl = language();

    // a cross-cell mismatch
    let mismatch = vec![Open(1), Close(2), Open(2), Close(1)];
    assert!(mdl.recognize(&mismatch).is_none());

    // cross-cell mis-nesting
    let misnesting = vec![
        Open(1),
        Open(4),
        Close(4),
        Close(1),
        Open(3),
        Open(2),
        Close(2),
        Close(3),
    ];
    assert!(mdl.recognize(&misnesting).is_none());
}

#[test]
fn multiple_dyck_accepting_configuration_is_consumed_and_balanced() {
    let mdl = language();
    let word = vec![Open(1), Close(1), Open(2), Close(2)];
    let conf = mdl.recognize(&word).unwrap();
    assert_eq!(conf.word.len(), 0);
    assert_eq!(conf.storage.pointer, 0);
    assert_eq!(conf.weight, 0);
}

#[test]
fn multiple_dyck_rejects_unbalanced_words() {
    let mdl = language();
    assert!(mdl.recognize(&vec![Open(1)]).is_none());
    assert!(mdl.recognize(&vec![Close(1), Open(1)]).is_none());
    assert!(mdl.recognize(&vec![Open(1), Close(1), Close(2)]).is_none());
}

#[test]
fn multiple_dyck_always_recognizes_the_empty_word() {
    let mdl = language();
    let conf = mdl.recognize(&vec![]).unwrap();
    assert_eq!(conf.word.len(), 0);
    assert_eq!(conf.storage.pointer, 0);
}

#[test]
fn partition_rejects_overlapping_or_empty_cells() {
    assert!(Partition::new(vec![vec![1, 2], vec![2, 3]]).is_none());
    assert!(Partition::new(vec![vec![1, 1]]).is_none());
    assert!(Partition::new(vec![vec![]]).is_none());
    assert!(Partition::new(vec![vec![1, 2], vec![3, 4]]).is_some());
}
