use aikotoba::game::{
    Action, Answer, FatalError, GameCommand, GamePhase, GameResult, PutToMarket,
};
use aikotoba::init::{InitPlayer, SetupError};
use aikotoba::model::{BoardState, HintId, PlayerId};
use aikotoba::profile::{PlayerProfile, Profiles};
use aikotoba::setting::Setting;
use aikotoba::simultaneously::Simulataneously;
use aikotoba::state::{AppCommand, AppCore, AppResult, AppState};

fn profiles3() -> Profiles {
    Profiles {
        players: vec![
            PlayerProfile { id: PlayerId(0), display_name: "alice".to_owned() },
            PlayerProfile { id: PlayerId(1), display_name: "bob".to_owned() },
            PlayerProfile { id: PlayerId(2), display_name: "carol".to_owned() },
        ],
    }
}

fn submission(password: &str, hints: &[&str]) -> InitPlayer {
    InitPlayer {
        password: password.to_owned(),
        hints: hints.iter().map(|h| h.to_string()).collect(),
    }
}

/// Advances one peer by one command: computes the outcome and applies it.
fn step(state: &mut AppState, command: AppCommand) -> Result<(), FatalError> {
    let result = AppCore::resolve(state, command, &mut rand::thread_rng())?;
    AppCore::reducer(state, result)
}

#[test]
fn test_full_game_flow() {
    let mut state = AppCore::init();
    assert!(matches!(state, AppState::Blank));

    step(&mut state, AppCommand::InitProfile(profiles3())).expect("profiles open the table");
    assert!(matches!(state, AppState::StandbyPassword(..)));

    step(
        &mut state,
        AppCommand::PushPassword(PlayerId(0), submission("123", &["A", "B", "C"])),
    )
    .expect("first password is collected");
    step(
        &mut state,
        AppCommand::PushPassword(PlayerId(1), submission("456", &["D", "E", "F"])),
    )
    .expect("second password is collected");
    step(
        &mut state,
        AppCommand::PushPassword(PlayerId(2), submission("789", &["G", "H", "I"])),
    )
    .expect("last password deals the board");
    match &state {
        AppState::Board(board, profiles, phase) => {
            assert_eq!(board.players.len(), 3);
            assert_eq!(board.hints.len(), 9);
            assert_eq!(profiles.players.len(), 3);
            assert!(matches!(phase, GamePhase::SelectPutToMarket(_)));
        }
        _ => panic!("the dealt board must be standing"),
    }

    step(
        &mut state,
        AppCommand::Board(GameCommand::PushPutToMarket(
            PlayerId(0),
            PutToMarket::Hint(HintId(0)),
        )),
    )
    .expect("first offer is collected");
    step(
        &mut state,
        AppCommand::Board(GameCommand::PushPutToMarket(
            PlayerId(1),
            PutToMarket::Hint(HintId(3)),
        )),
    )
    .expect("second offer is collected");
    step(
        &mut state,
        AppCommand::Board(GameCommand::PushPutToMarket(PlayerId(2), PutToMarket::Coin)),
    )
    .expect("last offer opens the action phase");
    match &state {
        AppState::Board(_, _, GamePhase::SelectAction(market, _)) => {
            assert_eq!(market.len(), 3);
            assert!(market.iter().any(|e| e.0 == PlayerId(0)));
            assert!(market.iter().any(|e| e.0 == PlayerId(1)));
            assert!(market.iter().any(|e| e.0 == PlayerId(2)));
        }
        _ => panic!("the action phase must be open"),
    }

    step(
        &mut state,
        AppCommand::Board(GameCommand::PushAction(
            PlayerId(0),
            Action::Exchange(PlayerId(1)),
        )),
    )
    .expect("first action is collected");
    step(
        &mut state,
        AppCommand::Board(GameCommand::PushAction(PlayerId(1), Action::Pass)),
    )
    .expect("second action is collected");
    step(
        &mut state,
        AppCommand::Board(GameCommand::PushAction(
            PlayerId(2),
            Action::Answer(Answer { text: "rose".to_owned() }),
        )),
    )
    .expect("last action resolves the round");
    match &state {
        AppState::Board(_, _, GamePhase::ConfirmAnswer(answers)) => {
            assert_eq!(answers.len(), 1);
            assert_eq!(answers[0].0, PlayerId(2));
            assert_eq!(answers[0].1.text, "rose");
        }
        _ => panic!("the collected answers must be awaiting confirmation"),
    }
}

#[test]
fn test_mismatched_hint_count_through_core() {
    // The recommended setting and a short submission meet at the deal.
    let mut state = AppCore::init();
    step(&mut state, AppCommand::InitProfile(profiles3())).unwrap();
    step(&mut state, AppCommand::PushPassword(PlayerId(0), submission("1", &["A"]))).unwrap();
    step(&mut state, AppCommand::PushPassword(PlayerId(1), submission("2", &["B"]))).unwrap();
    // The recommended setting expects three hints each: this table submits
    // one each, so the deal is rejected at the boundary.
    let r = step(&mut state, AppCommand::PushPassword(PlayerId(2), submission("3", &["C"])));
    assert_eq!(r.err(), Some(FatalError::Setup(SetupError::WrongHintCount)));
}

#[test]
fn test_wrong_phase_command_is_fatal() {
    let state = AppCore::init();
    let r = AppCore::resolve(
        &state,
        AppCommand::PushPassword(PlayerId(0), submission("1", &["A", "B", "C"])),
        &mut rand::thread_rng(),
    );
    assert_eq!(r.err(), Some(FatalError::WrongPhase));
}

#[test]
fn test_wrong_phase_result_is_fatal_and_keeps_state() {
    let mut state = AppCore::init();
    let r = AppCore::reducer(
        &mut state,
        AppResult::Board(GameResult::PushPutToMarket(PlayerId(0), PutToMarket::Coin)),
    );
    assert_eq!(r.err(), Some(FatalError::WrongPhase));
    assert!(matches!(state, AppState::Blank));
}

#[test]
fn test_lone_profile_is_rejected() {
    let mut state = AppCore::init();
    let lone = Profiles {
        players: vec![PlayerProfile { id: PlayerId(0), display_name: "solo".to_owned() }],
    };
    let r = step(&mut state, AppCommand::InitProfile(lone));
    assert_eq!(r.err(), Some(FatalError::Setup(SetupError::TooFewPlayers)));
    assert!(matches!(state, AppState::Blank));
}

#[test]
fn test_delivered_board_with_duplicate_players_is_rejected() {
    let mut state = AppCore::init();
    step(&mut state, AppCommand::InitProfile(profiles3())).unwrap();
    let bogus = BoardState {
        hints: Vec::new(),
        players: Vec::new(),
    };
    let r = AppCore::reducer(&mut state, AppResult::InitBoard(bogus));
    assert_eq!(r.err(), Some(FatalError::InvalidBoard));
    assert!(matches!(state, AppState::StandbyPassword(..)));
}

#[test]
fn test_delivered_market_with_duplicate_keys_is_rejected() {
    // The reducer must refuse a market that binds one player twice.
    let mut state = AppCore::init();
    step(&mut state, AppCommand::InitProfile(profiles3())).unwrap();
    step(&mut state, AppCommand::PushPassword(PlayerId(0), submission("1", &["A", "B", "C"])))
        .unwrap();
    step(&mut state, AppCommand::PushPassword(PlayerId(1), submission("2", &["D", "E", "F"])))
        .unwrap();
    step(&mut state, AppCommand::PushPassword(PlayerId(2), submission("3", &["G", "H", "I"])))
        .unwrap();
    let doubled = vec![
        (PlayerId(0), PutToMarket::Coin),
        (PlayerId(0), PutToMarket::Coin),
        (PlayerId(1), PutToMarket::Coin),
    ];
    let r = AppCore::reducer(
        &mut state,
        AppResult::Board(GameResult::MoveToActionPhase(doubled)),
    );
    assert_eq!(r.err(), Some(FatalError::InvalidMarket));
}

#[test]
fn test_barrier_overflow_result_is_fatal() {
    let two = Profiles {
        players: vec![
            PlayerProfile { id: PlayerId(0), display_name: "a".to_owned() },
            PlayerProfile { id: PlayerId(1), display_name: "b".to_owned() },
        ],
    };
    let mut state = AppCore::init();
    step(&mut state, AppCommand::InitProfile(two)).unwrap();
    // Capacity two: one stored contribution is already all the barrier may
    // hold, so a result inserting a second, fresh key is a desync.
    let mut barrier_state = match state {
        AppState::StandbyPassword(pr, mut inputs, set) => {
            inputs.insert(PlayerId(0), submission("1", &["A", "B", "C"]));
            AppState::StandbyPassword(pr, inputs, set)
        }
        _ => panic!("the table must be waiting for passwords"),
    };
    let r = AppCore::reducer(
        &mut barrier_state,
        AppResult::PushPassword(PlayerId(1), submission("2", &["D", "E", "F"])),
    );
    assert_eq!(r.err(), Some(FatalError::BarrierOverflow));
}

#[test]
fn test_setting_recommend() {
    assert_eq!(Setting::recommend().hints_num, 3);
}

#[test]
fn test_two_peers_converge() {
    // Two peers apply the same results in the same order: their states match
    // observably, even though only one of them computed each outcome.
    let mut host = AppCore::init();
    let mut guest = AppCore::init();
    let commands = || -> Vec<AppCommand> {
        vec![
            AppCommand::InitProfile(profiles3()),
            AppCommand::PushPassword(PlayerId(0), submission("123", &["A", "B", "C"])),
            AppCommand::PushPassword(PlayerId(1), submission("456", &["D", "E", "F"])),
        ]
    };
    for command in commands() {
        let result = AppCore::resolve(&host, command, &mut rand::thread_rng()).unwrap();
        // The deterministic results here can be rebuilt field for field, as a
        // transport would after decoding; feed the copy to the guest.
        let copy = match &result {
            AppResult::InitProfile(p) => AppResult::InitProfile(p.clone()),
            AppResult::PushPassword(id, ip) => AppResult::PushPassword(
                *id,
                InitPlayer { password: ip.password.clone(), hints: ip.hints.clone() },
            ),
            _ => panic!("this prefix of the game is deterministic"),
        };
        AppCore::reducer(&mut host, result).unwrap();
        AppCore::reducer(&mut guest, copy).unwrap();
    }
    match (&host, &guest) {
        (
            AppState::StandbyPassword(p1, b1, s1),
            AppState::StandbyPassword(p2, b2, s2),
        ) => {
            assert_eq!(p1.players.len(), p2.players.len());
            assert_eq!(s1.hints_num, s2.hints_num);
            assert_eq!(
                b1.get(&PlayerId(0)).map(|ip| ip.password.clone()),
                b2.get(&PlayerId(0)).map(|ip| ip.password.clone())
            );
            assert_eq!(
                b1.get(&PlayerId(1)).map(|ip| ip.hints.clone()),
                b2.get(&PlayerId(1)).map(|ip| ip.hints.clone())
            );
        }
        _ => panic!("both peers must be waiting for the last password"),
    }
}
