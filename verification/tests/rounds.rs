use aikotoba::game::{resolve_actions, Action, Answer, CoinMove, FatalError, PutToMarket};
use aikotoba::model::{HintId, PlayerId};
use aikotoba::simultaneously::Simulataneously;

fn abc() -> Vec<PlayerId> {
    vec![PlayerId(0), PlayerId(1), PlayerId(2)]
}

fn market_abc() -> Vec<(PlayerId, PutToMarket)> {
    vec![
        (PlayerId(0), PutToMarket::Hint(HintId(1))),
        (PlayerId(1), PutToMarket::Hint(HintId(2))),
        (PlayerId(2), PutToMarket::Coin),
    ]
}

#[test]
fn test_resolve_actions() {
    // Players A=0, B=1, C=2; market A: Hint(1), B: Hint(2), C: Coin;
    // A exchanges with B, B passes, C exchanges with A.
    let result = resolve_actions(
        &abc(),
        market_abc(),
        vec![
            (PlayerId(0), Action::Exchange(PlayerId(1))),
            (PlayerId(1), Action::Pass),
            (PlayerId(2), Action::Exchange(PlayerId(0))),
        ],
    )
    .expect("the round must resolve");
    assert!(result.ansers.is_empty());
    assert_eq!(result.players.len(), 3);
    let a = &result.players[0];
    assert_eq!(a.0, PlayerId(0));
    // A gains a reference to B's hint and loses ownership of their own,
    // and C's coin moves to A.
    assert_eq!(a.1.refs, vec![HintId(2)]);
    assert_eq!(a.1.ownership, Vec::<HintId>::new());
    assert_eq!(a.1.loss_ownership, vec![HintId(1)]);
    assert_eq!(a.1.move_coin, vec![CoinMove::Get]);
    // B gains ownership of A's hint.
    let b = &result.players[1];
    assert_eq!(b.0, PlayerId(1));
    assert_eq!(b.1.refs, Vec::<HintId>::new());
    assert_eq!(b.1.ownership, vec![HintId(1)]);
    assert_eq!(b.1.loss_ownership, Vec::<HintId>::new());
    assert_eq!(b.1.move_coin, Vec::<CoinMove>::new());
    // C gains a reference to A's hint and pays a coin.
    let c = &result.players[2];
    assert_eq!(c.0, PlayerId(2));
    assert_eq!(c.1.refs, vec![HintId(1)]);
    assert_eq!(c.1.ownership, Vec::<HintId>::new());
    assert_eq!(c.1.loss_ownership, Vec::<HintId>::new());
    assert_eq!(c.1.move_coin, vec![CoinMove::Loss]);
}

#[test]
fn test_resolve_actions_coin_target_is_fatal() {
    // B exchanges against C, whose offer is a coin: fatal, never a no-op.
    let r = resolve_actions(
        &abc(),
        market_abc(),
        vec![(PlayerId(1), Action::Exchange(PlayerId(2)))],
    );
    assert_eq!(r.err(), Some(FatalError::CoinTarget));
}

#[test]
fn test_resolve_actions_missing_offer_is_fatal() {
    let market = vec![(PlayerId(0), PutToMarket::Hint(HintId(1)))];
    let r = resolve_actions(
        &abc(),
        market,
        vec![(PlayerId(0), Action::Exchange(PlayerId(1)))],
    );
    assert_eq!(r.err(), Some(FatalError::MissingOffer));
}

#[test]
fn test_resolve_actions_unknown_player_is_fatal() {
    let mut market = market_abc();
    market.push((PlayerId(9), PutToMarket::Hint(HintId(7))));
    let r = resolve_actions(
        &abc(),
        market,
        vec![(PlayerId(0), Action::Exchange(PlayerId(9)))],
    );
    assert_eq!(r.err(), Some(FatalError::UnknownPlayer));
}

#[test]
fn test_resolve_actions_self_exchange_is_fatal() {
    let r = resolve_actions(
        &abc(),
        market_abc(),
        vec![(PlayerId(0), Action::Exchange(PlayerId(0)))],
    );
    assert_eq!(r.err(), Some(FatalError::SelfExchange));
}

#[test]
fn test_resolve_actions_collects_answers() {
    let result = resolve_actions(
        &abc(),
        market_abc(),
        vec![
            (PlayerId(0), Action::Pass),
            (
                PlayerId(1),
                Action::Answer(Answer { text: "tulip".to_owned() }),
            ),
            (PlayerId(2), Action::Pass),
        ],
    )
    .expect("the round must resolve");
    assert_eq!(result.ansers.len(), 1);
    assert_eq!(result.ansers[0].0, PlayerId(1));
    assert_eq!(result.ansers[0].1.text, "tulip");
    for (_, moves) in result.players.iter() {
        assert!(moves.refs.is_empty());
        assert!(moves.ownership.is_empty());
        assert!(moves.loss_ownership.is_empty());
        assert!(moves.move_coin.is_empty());
    }
}

#[test]
fn test_barrier_rejects_tiny_capacity() {
    assert!(Simulataneously::<u32>::new(0).is_none());
    assert!(Simulataneously::<u32>::new(1).is_none());
    assert!(Simulataneously::<u32>::new(2).is_some());
}

#[test]
fn test_barrier_completion_arithmetic() {
    // A barrier of capacity 3 completes once exactly 2 distinct keys are in.
    let mut barrier = Simulataneously::<u32>::new(3).expect("capacity 3 is meaningful");
    assert!(barrier.is_complete().is_none());
    barrier.insert(PlayerId(0), 10);
    assert!(barrier.is_complete().is_none());
    // Overwriting the same key is benign and does not advance completion.
    barrier.insert(PlayerId(0), 11);
    assert!(barrier.is_complete().is_none());
    assert_eq!(barrier.get(&PlayerId(0)).copied(), Some(11));
    barrier.insert(PlayerId(1), 20);
    let complete = barrier.is_complete().expect("two distinct keys complete it");
    // Finalizing with the third pair yields all three entries, no key twice.
    let full = complete.finalize(PlayerId(2), 30);
    assert_eq!(
        full,
        vec![(PlayerId(0), 11), (PlayerId(1), 20), (PlayerId(2), 30)]
    );
}

#[test]
fn test_barrier_finalize_overwrites_known_key() {
    let mut barrier = Simulataneously::<u32>::new(3).expect("capacity 3 is meaningful");
    barrier.insert(PlayerId(0), 10);
    barrier.insert(PlayerId(1), 20);
    let complete = barrier.is_complete().expect("two distinct keys complete it");
    let full = complete.finalize(PlayerId(1), 99);
    assert_eq!(full, vec![(PlayerId(0), 10), (PlayerId(1), 99)]);
}
