use aikotoba::init::{cross_2d_vec, extract_dictionary, hand_out_hints, init, shuffle_shift};
use aikotoba::init::{InitBoard, InitPlayer, SetupError};
use aikotoba::model::{HintId, PlayerId};

fn no_duplicates<T: PartialEq>(items: &[T]) -> bool {
    for i in 0..items.len() {
        for j in (i + 1)..items.len() {
            if items[i] == items[j] {
                return false;
            }
        }
    }
    true
}

fn lookup<'a, V>(list: &'a [(PlayerId, V)], key: PlayerId) -> &'a V {
    &list.iter().find(|e| e.0 == key).expect("key must be present").1
}

fn player(password: &str, hints: &[&str]) -> InitPlayer {
    InitPlayer {
        password: password.to_owned(),
        hints: hints.iter().map(|h| h.to_string()).collect(),
    }
}

#[test]
fn function_test_cross_2d_vec() {
    assert_eq!(
        cross_2d_vec(&vec![vec![1, 2, 3], vec![4, 5, 6]], 3),
        vec![vec![1, 4], vec![2, 5], vec![3, 6]]
    )
}

#[test]
fn init_test_cross_2d_vec() {
    assert_eq!(
        cross_2d_vec(&vec![vec![1, 2, 3], vec![4, 5, 6]], 3),
        vec![vec![1, 4], vec![2, 5], vec![3, 6]]
    )
}

#[test]
fn function_test_extract_dictionary() {
    assert_eq!(
        extract_dictionary(vec![("A", vec!["a", "b", "c"]), ("B", vec!["d", "e", "f"])]),
        (
            vec![
                (HintId(0), "a"),
                (HintId(1), "b"),
                (HintId(2), "c"),
                (HintId(3), "d"),
                (HintId(4), "e"),
                (HintId(5), "f")
            ],
            vec![
                ("A", vec![HintId(0), HintId(1), HintId(2)]),
                ("B", vec![HintId(3), HintId(4), HintId(5)])
            ]
        )
    )
}

#[test]
fn init_test_extract_dictionary() {
    assert_eq!(
        extract_dictionary(vec![("A", vec!["a", "b", "c"]), ("B", vec!["d", "e", "f"])]),
        (
            vec![
                (HintId(0), "a"),
                (HintId(1), "b"),
                (HintId(2), "c"),
                (HintId(3), "d"),
                (HintId(4), "e"),
                (HintId(5), "f")
            ],
            vec![
                ("A", vec![HintId(0), HintId(1), HintId(2)]),
                ("B", vec![HintId(3), HintId(4), HintId(5)])
            ]
        )
    )
}

#[test]
fn test_shuffle_shift() {
    fn assertion(players: Vec<usize>) -> bool {
        let pairs: Vec<(PlayerId, PlayerId)> =
            players.iter().map(|n| (PlayerId(*n), PlayerId(*n))).collect();
        let result = shuffle_shift(pairs, &mut rand::thread_rng());
        result.iter().all(|(player, target)| {
            player != target
                && players.contains(&player.0)
                && players.contains(&target.0)
        }) && result.len() == players.len()
            && no_duplicates(&result.iter().map(|e| e.1).collect::<Vec<_>>())
    }
    for _ in 0..1000 {
        assert!(assertion(vec![0, 1, 2, 3, 4, 5, 6, 7, 8]));
    }
}

#[test]
fn test_init() {
    fn assertion() {
        let state = init(
            InitBoard {
                players: vec![
                    (PlayerId(0), player("123", &["A", "B", "C"])),
                    (PlayerId(1), player("456", &["D", "E", "F"])),
                    (PlayerId(2), player("789", &["G", "H", "I"])),
                ],
                hints_num: 3,
            },
            &mut rand::thread_rng(),
        )
        .expect("a valid table must deal");
        // Every hint text is in the dictionary.
        let mut texts: Vec<&str> = state.hints.iter().map(|e| e.1.text.as_str()).collect();
        texts.sort();
        assert_eq!(texts, vec!["A", "B", "C", "D", "E", "F", "G", "H", "I"]);
        // Every player keeps their own password.
        let mut passwords: Vec<(usize, &str)> = state
            .players
            .iter()
            .map(|(id, p)| (id.0, p.password.as_str()))
            .collect();
        passwords.sort();
        assert_eq!(passwords, vec![(0, "123"), (1, "456"), (2, "789")]);
        // Every player keeps their own hints.
        let expected = [
            (0, ["A", "B", "C"]),
            (1, ["D", "E", "F"]),
            (2, ["G", "H", "I"]),
        ];
        for (id, own) in expected.iter() {
            let p = lookup(&state.players, PlayerId(*id));
            let mut held: Vec<&str> = p
                .hints
                .iter()
                .map(|hint| lookup_hint(&state.hints, *hint))
                .collect();
            held.sort();
            assert_eq!(held, own.to_vec());
        }
        // No player is targeted twice.
        assert!(no_duplicates(
            &state.players.iter().map(|e| e.1.target).collect::<Vec<_>>()
        ));
        // No knowledge hint is handed out twice.
        let granted: Vec<HintId> = state
            .players
            .iter()
            .flat_map(|e| {
                e.1.knowledges
                    .others
                    .iter()
                    .chain([&e.1.knowledges.target])
                    .copied()
                    .collect::<Vec<_>>()
            })
            .collect();
        assert!(no_duplicates(&granted));
        for (id, p) in state.players.iter() {
            assert!(state.players.iter().any(|e| e.0 == p.target));
            assert_ne!(*id, p.target);
            let target = lookup(&state.players, p.target);
            assert!(target.hints.contains(&p.knowledges.target));
            assert!(!p
                .knowledges
                .others
                .iter()
                .any(|hint| target.hints.contains(hint)));
        }
    }
    for _ in 0..1000 {
        assertion();
    }
}

fn lookup_hint<'a>(hints: &'a [(HintId, aikotoba::model::Hint)], id: HintId) -> &'a str {
    hints
        .iter()
        .find(|e| e.0 == id)
        .expect("hint must resolve")
        .1
        .text
        .as_str()
}

#[test]
fn test_handout() {
    for _ in 0..1000 {
        let players: Vec<(PlayerId, Vec<HintId>)> = vec![
            (PlayerId(0), vec![HintId(0), HintId(1), HintId(2)]),
            (PlayerId(1), vec![HintId(3), HintId(4), HintId(5)]),
            (PlayerId(2), vec![HintId(6), HintId(7), HintId(8)]),
            (PlayerId(3), vec![HintId(9), HintId(10), HintId(11)]),
            (PlayerId(4), vec![HintId(12), HintId(13), HintId(14)]),
        ];
        let targets = vec![
            (PlayerId(0), PlayerId(1)),
            (PlayerId(1), PlayerId(2)),
            (PlayerId(2), PlayerId(3)),
            (PlayerId(3), PlayerId(4)),
            (PlayerId(4), PlayerId(0)),
        ];
        let result = hand_out_hints(&players, 3, &targets, &mut rand::thread_rng());
        let granted: Vec<HintId> = result
            .iter()
            .flat_map(|e| {
                e.1.others
                    .iter()
                    .chain([&e.1.target])
                    .copied()
                    .collect::<Vec<_>>()
            })
            .collect();
        assert!(no_duplicates(&granted), "{:?}", granted);
    }
}

#[test]
fn test_init_rejects_lone_player() {
    let r = init(
        InitBoard {
            players: vec![(PlayerId(0), player("pw", &["A"]))],
            hints_num: 1,
        },
        &mut rand::thread_rng(),
    );
    assert_eq!(r.err(), Some(SetupError::TooFewPlayers));
}

#[test]
fn test_init_rejects_zero_hints() {
    let r = init(
        InitBoard {
            players: vec![
                (PlayerId(0), player("a", &[])),
                (PlayerId(1), player("b", &[])),
            ],
            hints_num: 0,
        },
        &mut rand::thread_rng(),
    );
    assert_eq!(r.err(), Some(SetupError::NoHints));
}

#[test]
fn test_init_rejects_duplicate_player() {
    let r = init(
        InitBoard {
            players: vec![
                (PlayerId(0), player("a", &["A"])),
                (PlayerId(0), player("b", &["B"])),
            ],
            hints_num: 1,
        },
        &mut rand::thread_rng(),
    );
    assert_eq!(r.err(), Some(SetupError::DuplicatePlayer));
}

#[test]
fn test_init_rejects_wrong_hint_count() {
    let r = init(
        InitBoard {
            players: vec![
                (PlayerId(0), player("a", &["A", "B"])),
                (PlayerId(1), player("b", &["C"])),
            ],
            hints_num: 2,
        },
        &mut rand::thread_rng(),
    );
    assert_eq!(r.err(), Some(SetupError::WrongHintCount));
}

#[test]
fn test_init_dictionary_order() {
    let state = init(
        InitBoard {
            players: vec![
                (PlayerId(7), player("x", &["p", "q"])),
                (PlayerId(3), player("y", &["r", "s"])),
            ],
            hints_num: 2,
        },
        &mut rand::thread_rng(),
    )
    .expect("a valid table must deal");
    // Identifiers are allocated player-major, in input order.
    let entries: Vec<(usize, &str)> = state
        .hints
        .iter()
        .map(|e| (e.0 .0, e.1.text.as_str()))
        .collect();
    assert_eq!(entries, vec![(0, "p"), (1, "q"), (2, "r"), (3, "s")]);
    let p7 = lookup(&state.players, PlayerId(7));
    assert_eq!(p7.hints, vec![HintId(0), HintId(1)]);
    let p3 = lookup(&state.players, PlayerId(3));
    assert_eq!(p3.hints, vec![HintId(2), HintId(3)]);
}
