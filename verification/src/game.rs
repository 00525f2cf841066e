//! One round of play: the public market of offers, the chosen actions, and
//! the resolution rules that turn both into per-player ledger deltas.

use vstd::prelude::*;

use crate::assoc::{
    alist_at, alist_has_key, alist_index_of, alist_keys, alist_no_dup_keys,
    lemma_alist_has_key_keys,
};
use crate::model::{HintId, PlayerId};
use crate::simultaneously::Simulataneously;

verus! {

/// One player's public offer for the round: a hint reference, or a coin.
#[derive(PartialEq, Eq, Structural, Clone, Copy, Debug)]
pub enum PutToMarket {
    Hint(HintId),
    Coin,
}

/// One round's public offers, one per active player.
pub type Market = Vec<(PlayerId, PutToMarket)>;

/// A submitted answer, collected verbatim for later confirmation.
#[derive(Debug)]
pub struct Answer {
    pub text: String,
}

impl Clone for Answer {
    fn clone(&self) -> (r: Self)
        ensures
            r == *self,
    {
        Answer { text: self.text.clone() }
    }
}

/// One player's chosen move for the round.
#[derive(Debug)]
pub enum Action {
    Exchange(PlayerId),
    Answer(Answer),
    Pass,
}

impl Clone for Action {
    fn clone(&self) -> (r: Self)
        ensures
            r == *self,
    {
        match self {
            Action::Exchange(t) => Action::Exchange(*t),
            Action::Answer(a) => Action::Answer(a.clone()),
            Action::Pass => Action::Pass,
        }
    }
}

/// The sub-state of a running board: which inputs the round is waiting for.
/// Adjudicating the collected answers is left to the surrounding
/// application; while a board waits in `ConfirmAnswer`, no further board
/// command is accepted.
pub enum GamePhase {
    SelectPutToMarket(Simulataneously<PutToMarket>),
    SelectAction(Market, Simulataneously<Action>),
    ConfirmAnswer(Vec<(PlayerId, Answer)>),
}

/// A board-phase command, as a player submits it.
pub enum GameCommand {
    PushPutToMarket(PlayerId, PutToMarket),
    PushAction(PlayerId, Action),
}

/// A board-phase outcome, as every peer applies it.
pub enum GameResult {
    PushPutToMarket(PlayerId, PutToMarket),
    MoveToActionPhase(Market),
    PushAction(PlayerId, Action),
    MoveToNext(ActionResult, Vec<(PlayerId, Answer)>),
}

/// A coin entering or leaving one player's purse.
#[derive(PartialEq, Eq, Structural, Clone, Copy, Debug)]
pub enum CoinMove {
    Get,
    Loss,
}

/// One player's ledger delta for a resolved round.
#[derive(Debug)]
pub struct PlayerHintMove {
    /// Hints newly referenceable, not owned.
    pub refs: Vec<HintId>,
    /// Hints whose ownership was gained.
    pub ownership: Vec<HintId>,
    /// Hints whose ownership was lost.
    pub loss_ownership: Vec<HintId>,
    /// Coins gained and lost, in resolution order.
    pub move_coin: Vec<CoinMove>,
}

/// The outcome of resolving one round's actions.
pub struct ActionResult {
    pub players: Vec<(PlayerId, PlayerHintMove)>,
    pub ansers: Vec<(PlayerId, Answer)>,
}

/// A successfully resolved exchange: whose offer was taken, and which hint.
pub struct ExchangeSuccess {
    pub target: PlayerId,
    pub hint: HintId,
}

/// A protocol violation: peers have desynchronized or a caller broke the
/// engine's contract, so processing must stop rather than guess.
#[derive(PartialEq, Eq, Structural, Clone, Copy, Debug)]
pub enum FatalError {
    /// A command arrived for a phase that does not expect it.
    WrongPhase,
    /// An exchange names a player with no market offer.
    MissingOffer,
    /// An exchange names a player outside the active player list.
    UnknownPlayer,
    /// A player tried to exchange with themself.
    SelfExchange,
    /// The exchanged-against offer is a coin, which cannot be targeted.
    CoinTarget,
    /// A contribution would push a barrier past its declared capacity.
    BarrierOverflow,
    /// The dealing step rejected the collected submissions.
    Setup(crate::init::SetupError),
    /// The combined hint count does not fit the machine's size type.
    Overflow,
    /// A delivered board has no usable player registry.
    InvalidBoard,
    /// A delivered market binds some player twice.
    InvalidMarket,
}

/// The first check that fails for one exchange, in the order the engine
/// performs them; `None` when the exchange is resolvable.
pub open spec fn exchange_fault(
    players: Seq<PlayerId>,
    market: Seq<(PlayerId, PutToMarket)>,
    p: PlayerId,
    t: PlayerId,
) -> Option<FatalError> {
    if !alist_has_key(market, p) {
        Some(FatalError::MissingOffer)
    } else if !alist_has_key(market, t) {
        Some(FatalError::MissingOffer)
    } else if !players.contains(p) {
        Some(FatalError::UnknownPlayer)
    } else if t == p {
        Some(FatalError::SelfExchange)
    } else if !players.contains(t) {
        Some(FatalError::UnknownPlayer)
    } else if !(alist_at(market, t) is Hint) {
        Some(FatalError::CoinTarget)
    } else {
        None
    }
}

/// The first fault among the actions, in submission order; `None` when the
/// whole round resolves.
pub open spec fn first_fault(
    players: Seq<PlayerId>,
    market: Seq<(PlayerId, PutToMarket)>,
    actions: Seq<(PlayerId, Action)>,
) -> Option<FatalError>
    decreases actions.len(),
{
    if actions.len() == 0 {
        None
    } else {
        let a = actions.first();
        match a.1 {
            Action::Exchange(t) => match exchange_fault(players, market, a.0, t) {
                Some(e) => Some(e),
                None => first_fault(players, market, actions.drop_first()),
            },
            _ => first_fault(players, market, actions.drop_first()),
        }
    }
}

/// The hints player `p` gains a reference to: one per exchange `p`
/// initiates, each the hint its target offered, in submission order.
pub open spec fn refs_of(
    market: Seq<(PlayerId, PutToMarket)>,
    actions: Seq<(PlayerId, Action)>,
    p: PlayerId,
) -> Seq<HintId>
    decreases actions.len(),
{
    if actions.len() == 0 {
        Seq::empty()
    } else {
        let rest = refs_of(market, actions.drop_last(), p);
        let a = actions.last();
        if a.0 == p && a.1 is Exchange {
            rest.push(alist_at(market, a.1->Exchange_0)->Hint_0)
        } else {
            rest
        }
    }
}

/// The hints player `p` gains ownership of: one per exchange that targets
/// `p` while the initiator offered a hint.
pub open spec fn ownership_of(
    market: Seq<(PlayerId, PutToMarket)>,
    actions: Seq<(PlayerId, Action)>,
    p: PlayerId,
) -> Seq<HintId>
    decreases actions.len(),
{
    if actions.len() == 0 {
        Seq::empty()
    } else {
        let rest = ownership_of(market, actions.drop_last(), p);
        let a = actions.last();
        if a.1 is Exchange && a.1->Exchange_0 == p && alist_at(market, a.0) is Hint {
            rest.push(alist_at(market, a.0)->Hint_0)
        } else {
            rest
        }
    }
}

/// The hints player `p` loses ownership of: one per exchange `p` initiates
/// while offering a hint.
pub open spec fn loss_of(
    market: Seq<(PlayerId, PutToMarket)>,
    actions: Seq<(PlayerId, Action)>,
    p: PlayerId,
) -> Seq<HintId>
    decreases actions.len(),
{
    if actions.len() == 0 {
        Seq::empty()
    } else {
        let rest = loss_of(market, actions.drop_last(), p);
        let a = actions.last();
        if a.0 == p && a.1 is Exchange && alist_at(market, p) is Hint {
            rest.push(alist_at(market, p)->Hint_0)
        } else {
            rest
        }
    }
}

/// The coins player `p` gains and loses, in resolution order: a loss per
/// exchange `p` initiates while offering a coin, a gain per exchange that
/// targets `p` while the initiator offered a coin.
pub open spec fn coins_of(
    market: Seq<(PlayerId, PutToMarket)>,
    actions: Seq<(PlayerId, Action)>,
    p: PlayerId,
) -> Seq<CoinMove>
    decreases actions.len(),
{
    if actions.len() == 0 {
        Seq::empty()
    } else {
        let rest = coins_of(market, actions.drop_last(), p);
        let a = actions.last();
        if a.1 is Exchange && a.0 == p && alist_at(market, p) is Coin {
            rest.push(CoinMove::Loss)
        } else if a.1 is Exchange && a.1->Exchange_0 == p && a.0 != p && alist_at(
            market,
            a.0,
        ) is Coin {
            rest.push(CoinMove::Get)
        } else {
            rest
        }
    }
}

/// The answers submitted this round, in submission order.
pub open spec fn answers_of(actions: Seq<(PlayerId, Action)>) -> Seq<(PlayerId, Answer)>
    decreases actions.len(),
{
    if actions.len() == 0 {
        Seq::empty()
    } else {
        let rest = answers_of(actions.drop_last());
        let a = actions.last();
        if a.1 is Answer {
            rest.push((a.0, a.1->Answer_0))
        } else {
            rest
        }
    }
}

/// A fault-free prefix does not change where the first fault lies.
proof fn lemma_first_fault_skip(
    players: Seq<PlayerId>,
    market: Seq<(PlayerId, PutToMarket)>,
    actions: Seq<(PlayerId, Action)>,
    k: int,
)
    requires
        0 <= k <= actions.len(),
        forall|i: int|
            #![trigger actions[i]]
            0 <= i < k ==> (actions[i].1 is Exchange ==> exchange_fault(
                players,
                market,
                actions[i].0,
                actions[i].1->Exchange_0,
            ) is None),
    ensures
        first_fault(players, market, actions) == first_fault(
            players,
            market,
            actions.subrange(k, actions.len() as int),
        ),
    decreases k,
{
    if k == 0 {
        assert(actions.subrange(0, actions.len() as int) =~= actions);
    } else {
        lemma_first_fault_skip(players, market, actions, k - 1);
        let rest = actions.subrange(k - 1, actions.len() as int);
        assert(rest.first() == actions[k - 1]);
        assert(rest.drop_first() =~= actions.subrange(k, actions.len() as int));
    }
}

/// Resolves one completed round: seeds an empty ledger per active player,
/// then applies each action in submission order.  An exchange grants the
/// initiator a reference to the target's offered hint and pays with the
/// initiator's own offer: a hint moves ownership to the target, a coin moves
/// from initiator to target.  Answers are collected verbatim; passes do
/// nothing.  The first protocol violation aborts the round with no output.
#[verifier::loop_isolation(false)]
#[verifier::rlimit(90)]
pub fn resolve_actions(
    players: &Vec<PlayerId>,
    market: Market,
    actions: Vec<(PlayerId, Action)>,
) -> (r: Result<ActionResult, FatalError>)
    requires
        players@.no_duplicates(),
        alist_no_dup_keys(market@),
    ensures
        r is Ok <==> first_fault(players@, market@, actions@) is None,
        r is Err ==> Some(r->Err_0) == first_fault(players@, market@, actions@),
        r is Ok ==> (r->Ok_0).players@.len() == players@.len(),
        r is Ok ==> forall|i: int|
            0 <= i < players@.len() ==> ((#[trigger] (r->Ok_0).players@[i]).0 == players@[i]
                && (r->Ok_0).players@[i].1.refs@ == refs_of(market@, actions@, players@[i])
                && (r->Ok_0).players@[i].1.ownership@ == ownership_of(
                market@,
                actions@,
                players@[i],
            ) && (r->Ok_0).players@[i].1.loss_ownership@ == loss_of(
                market@,
                actions@,
                players@[i],
            ) && (r->Ok_0).players@[i].1.move_coin@ == coins_of(market@, actions@, players@[i])),
        r is Ok ==> (r->Ok_0).ansers@ == answers_of(actions@),
{
    let n = players.len();
    let mut results: Vec<(PlayerId, PlayerHintMove)> = Vec::new();
    let mut i: usize = 0;
    while i < n
        invariant
            i <= n,
            results@.len() == i,
            forall|ii: int|
                0 <= ii < i ==> ((#[trigger] results@[ii]).0 == players@[ii]
                    && results@[ii].1.refs@.len() == 0 && results@[ii].1.ownership@.len() == 0
                    && results@[ii].1.loss_ownership@.len() == 0 && results@[ii].1.move_coin@.len()
                    == 0),
        decreases n - i,
    {
        results.push(
            (
                players[i],
                PlayerHintMove {
                    refs: Vec::new(),
                    ownership: Vec::new(),
                    loss_ownership: Vec::new(),
                    move_coin: Vec::new(),
                },
            ),
        );
        i = i + 1;
    }
    let ghost acts0 = actions@;
    let mut actions = actions;
    let mut ansers: Vec<(PlayerId, Answer)> = Vec::new();
    let ghost mut k: int = 0;
    proof {
        assert(actions@ =~= acts0.subrange(0, acts0.len() as int));
        assert(acts0.subrange(0, 0) =~= Seq::<(PlayerId, Action)>::empty());
    }
    while actions.len() > 0
        invariant
            0 <= k <= acts0.len(),
            actions@ == acts0.subrange(k, acts0.len() as int),
            results@.len() == n,
            forall|ii: int|
                #![trigger results@[ii]]
                0 <= ii < n ==> (results@[ii].0 == players@[ii] && results@[ii].1.refs@ == refs_of(
                    market@,
                    acts0.subrange(0, k),
                    players@[ii],
                ) && results@[ii].1.ownership@ == ownership_of(
                    market@,
                    acts0.subrange(0, k),
                    players@[ii],
                ) && results@[ii].1.loss_ownership@ == loss_of(
                    market@,
                    acts0.subrange(0, k),
                    players@[ii],
                ) && results@[ii].1.move_coin@ == coins_of(
                    market@,
                    acts0.subrange(0, k),
                    players@[ii],
                )),
            ansers@ == answers_of(acts0.subrange(0, k)),
            forall|j: int|
                #![trigger acts0[j]]
                0 <= j < k ==> (acts0[j].1 is Exchange ==> exchange_fault(
                    players@,
                    market@,
                    acts0[j].0,
                    acts0[j].1->Exchange_0,
                ) is None),
        decreases actions@.len(),
    {
        let (player, action) = actions.remove(0);
        proof {
            assert(acts0.subrange(k, acts0.len() as int)[0] == acts0[k]);
            assert((player, action) == acts0[k]);
            assert(actions@ =~= acts0.subrange(k + 1, acts0.len() as int));
            assert(acts0.subrange(0, k + 1).drop_last() =~= acts0.subrange(0, k));
            assert(acts0.subrange(0, k + 1).last() == acts0[k]);
        }
        match action {
            Action::Exchange(target) => {
                proof {
                    lemma_alist_has_key_keys(results@, player);
                    lemma_alist_has_key_keys(results@, target);
                    assert(alist_keys(results@) =~= players@);
                }
                let player_put = match crate::assoc::alist_get(&market, player) {
                    Some(v) => *v,
                    None => {
                        proof {
                            lemma_first_fault_skip(players@, market@, acts0, k);
                        }
                        return Err(FatalError::MissingOffer);
                    },
                };
                let target_put = match crate::assoc::alist_get(&market, target) {
                    Some(v) => *v,
                    None => {
                        proof {
                            lemma_first_fault_skip(players@, market@, acts0, k);
                        }
                        return Err(FatalError::MissingOffer);
                    },
                };
                let pi = match crate::assoc::alist_index_of(&results, player) {
                    Some(v) => v,
                    None => {
                        proof {
                            lemma_first_fault_skip(players@, market@, acts0, k);
                        }
                        return Err(FatalError::UnknownPlayer);
                    },
                };
                if target == player {
                    proof {
                        lemma_first_fault_skip(players@, market@, acts0, k);
                    }
                    return Err(FatalError::SelfExchange);
                }
                let ti = match crate::assoc::alist_index_of(&results, target) {
                    Some(v) => v,
                    None => {
                        proof {
                            lemma_first_fault_skip(players@, market@, acts0, k);
                        }
                        return Err(FatalError::UnknownPlayer);
                    },
                };
                let hint = match target_put {
                    PutToMarket::Hint(h) => h,
                    PutToMarket::Coin => {
                        proof {
                            lemma_first_fault_skip(players@, market@, acts0, k);
                            assert(alist_at(market@, target) == target_put);
                        }
                        return Err(FatalError::CoinTarget);
                    },
                };
                proof {
                    assert(players@[pi as int] == player && players@[ti as int] == target);
                    assert(pi != ti);
                    assert(alist_at(market@, player) == player_put);
                    assert(alist_at(market@, target) == target_put);
                }
                proof {
                    assert(players@.contains(player)) by {
                        assert(players@[pi as int] == player);
                    }
                    assert(players@.contains(target)) by {
                        assert(players@[ti as int] == target);
                    }
                    assert(exchange_fault(players@, market@, player, target) is None);
                }
                let ghost results_pre = results@;
                let (pid_p, mut result) = results.remove(pi);
                match player_put {
                    PutToMarket::Hint(h2) => {
                        result.refs.push(hint);
                        result.loss_ownership.push(h2);
                    },
                    PutToMarket::Coin => {
                        result.refs.push(hint);
                        result.move_coin.push(CoinMove::Loss);
                    },
                }
                results.insert(pi, (pid_p, result));
                let ghost mid = results@;
                proof {
                    assert(mid =~= results_pre.update(pi as int, mid[pi as int]));
                }
                let (pid_t, mut target_result) = results.remove(ti);
                match player_put {
                    PutToMarket::Hint(h2) => {
                        target_result.ownership.push(h2);
                    },
                    PutToMarket::Coin => {
                        target_result.move_coin.push(CoinMove::Get);
                    },
                }
                results.insert(ti, (pid_t, target_result));
                proof {
                    assert(results@ =~= mid.update(ti as int, results@[ti as int]));
                    let s1 = acts0.subrange(0, k);
                    let s2 = acts0.subrange(0, k + 1);
                    let a = acts0[k];
                    assert(a.0 == player && a.1 == Action::Exchange(target));
                    assert(a.1->Exchange_0 == target);
                    assert forall|ii: int|
                        #![trigger results@[ii]]
                        0 <= ii < n implies (results@[ii].0 == players@[ii] && results@[ii].1.refs@
                        == refs_of(market@, s2, players@[ii]) && results@[ii].1.ownership@
                        == ownership_of(market@, s2, players@[ii])
                        && results@[ii].1.loss_ownership@ == loss_of(market@, s2, players@[ii])
                        && results@[ii].1.move_coin@ == coins_of(market@, s2, players@[ii])) by {
                        let p = players@[ii];
                        assert(s2.drop_last() =~= s1);
                        if ii == pi {
                            assert(p == player);
                            assert(results@[ii] == mid[pi as int]);
                            assert(results_pre[ii].1.refs@ == refs_of(market@, s1, p));
                            assert(results@[ii].1.refs@ == refs_of(market@, s1, p).push(
                                alist_at(market@, target)->Hint_0));
                        } else if ii == ti {
                            assert(p == target);
                            assert(mid[ii] == results_pre[ii]);
                            assert(results_pre[ii].1.ownership@ == ownership_of(market@, s1, p));
                        } else {
                            assert(results@[ii] == results_pre[ii]);
                            assert(p != player && p != target) by {
                                assert(players@[pi as int] == player);
                                assert(players@[ti as int] == target);
                            }
                        }
                    }
                    assert(answers_of(s2) == ansers@);
                }
            },
            Action::Answer(answer) => {
                proof {
                    assert(acts0[k].1 == Action::Answer(answer));
                }
                ansers.push((player, answer));
                proof {
                    assert(acts0.subrange(0, k + 1).drop_last() =~= acts0.subrange(0, k));
                    assert(answers_of(acts0.subrange(0, k + 1)) == answers_of(
                        acts0.subrange(0, k),
                    ).push((acts0[k].0, acts0[k].1->Answer_0)));
                    assert(acts0[k].1->Answer_0 == answer);
                    assert(ansers@ == answers_of(acts0.subrange(0, k)).push((player, answer)));
                    assert(ansers@ =~= answers_of(acts0.subrange(0, k + 1)));
                }
            },
            Action::Pass => {
                proof {
                    assert(answers_of(acts0.subrange(0, k + 1)) == ansers@);
                }
            },
        }
        proof {
            k = k + 1;
        }
    }
    proof {
        assert(acts0.subrange(0, k) =~= acts0);
        lemma_first_fault_skip(players@, market@, acts0, acts0.len() as int);
        assert(acts0.subrange(acts0.len() as int, acts0.len() as int) =~= Seq::<(
            PlayerId,
            Action,
        )>::empty());
    }
    Ok(ActionResult { players: results, ansers })
}

} // verus!
