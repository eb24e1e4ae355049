use nico_title::crf::{bio_allowed, count_b_tags, viterbi_backtrack, Label};

#[test]
fn test_label_conversion() {
    assert_eq!(Label::from_str("B"), Some(Label::B));
    assert_eq!(Label::from_str("I"), Some(Label::I));
    assert_eq!(Label::from_str("O"), Some(Label::O));
    assert_eq!(Label::from_str("X"), None);
}

#[test]
fn label_strings_round_trip() {
    for l in Label::all() {
        assert_eq!(Label::from_str(l.as_str()), Some(l));
    }
    assert_eq!(Label::from_str("BB"), None);
    assert_eq!(Label::from_str(""), None);
    assert_eq!(Label::from_str("b"), None);
}

#[test]
fn label_indices() {
    let all = Label::all();
    for (i, l) in all.iter().enumerate() {
        assert_eq!(l.index(), i);
    }
}

#[test]
fn backtrack_follows_pointers() {
    // bp[t][label at t] = label at t - 1.
    let bp = vec![[Label::O, Label::O, Label::O], [Label::O, Label::B, Label::O], [Label::B, Label::I, Label::O], [Label::O, Label::O, Label::I]];
    let path = viterbi_backtrack(&bp, Label::O);
    // t3 = Label::O -> t2 = bp[3][Label::O] = Label::I -> t1 = bp[2][Label::I] = Label::I -> t0 = bp[1][Label::I] = Label::B
    assert_eq!(path, vec![Label::B, Label::I, Label::I, Label::O]);
}

#[test]
fn backtrack_single_position() {
    let path = viterbi_backtrack(&[[Label::O; 3]], Label::B);
    assert_eq!(path, vec![Label::B]);
}

#[test]
fn b_tag_counts() {
    let gold = vec![Label::B, Label::I, Label::O, Label::B, Label::O];
    let pred = vec![Label::B, Label::O, Label::B, Label::O, Label::O, Label::B];
    assert_eq!(count_b_tags(&gold, &pred), (1, 1, 1));
    assert_eq!(count_b_tags(&[], &pred), (0, 0, 0));
}

#[test]
fn backtrack_under_bio_constraints_is_bio() {
    // I is only reached from B or I; nothing at position 0 is I.
    let bp = vec![
        [Label::O, Label::O, Label::O],
        [Label::B, Label::B, Label::O],
        [Label::I, Label::B, Label::B],
        [Label::O, Label::I, Label::I],
    ];
    for last in Label::all() {
        let path = viterbi_backtrack(&bp, last);
        assert_ne!(path[0], Label::I);
        for t in 1..path.len() {
            if path[t] == Label::I {
                assert_ne!(path[t - 1], Label::O);
            }
        }
    }
}

#[test]
fn bio_admissible_steps() {
    assert!(bio_allowed(None, Label::B));
    assert!(bio_allowed(None, Label::O));
    assert!(!bio_allowed(None, Label::I));
    assert!(bio_allowed(Some(Label::B), Label::I));
    assert!(bio_allowed(Some(Label::I), Label::I));
    assert!(!bio_allowed(Some(Label::O), Label::I));
    assert!(bio_allowed(Some(Label::O), Label::B));
}
