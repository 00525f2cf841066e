//! The replicated core.  `resolve` computes an outcome from the current
//! state and one command — authoritatively, once, and it alone may draw
//! randomness.  `reducer` applies a previously computed outcome to a local
//! copy of the state, deterministically, so that every peer that applies the
//! same results in the same order holds the same state.

use vstd::prelude::*;

use crate::assoc::{alist_has_key, alist_keys, alist_no_dup_keys, check_distinct_keys};
use crate::game::{
    answers_of, coins_of, first_fault, loss_of, ownership_of, refs_of, Action, Answer, FatalError,
    GameCommand, GamePhase, GameResult, Market, PutToMarket,
};
use crate::init::{board_knowledge, init, targets_of, InitBoard, InitPlayer, SetupError};
use crate::model::{owned_hints, BoardState, PlayerId};
use crate::profile::Profiles;
use crate::setting::Setting;
use crate::simultaneously::{finalized_of, Simulataneously};

verus! {

/// A command as one peer's player issues it.
pub enum AppCommand {
    InitProfile(Profiles),
    PushPassword(PlayerId, InitPlayer),
    Board(GameCommand),
}

/// The whole replicated state of one peer.
pub enum AppState {
    Blank,
    StandbyPassword(Profiles, Simulataneously<InitPlayer>, Setting),
    Board(BoardState, Profiles, GamePhase),
}

/// A computed outcome, broadcast to every peer and fed to its reducer.
pub enum AppResult {
    InitProfile(Profiles),
    PushPassword(PlayerId, InitPlayer),
    InitBoard(BoardState),
    Board(GameResult),
}

/// The engine's top level: the state machine every peer replicates.
pub struct AppCore;

/// What must hold of a board phase for the machine to keep running: barriers
/// sized to the table, markets binding each player at most once.
pub open spec fn phase_wf(phase: GamePhase, n: int) -> bool {
    match phase {
        GamePhase::SelectPutToMarket(inputs) => inputs.wf() && inputs.capacity() == n,
        GamePhase::SelectAction(market, inputs) => inputs.wf() && inputs.capacity() == n
            && alist_no_dup_keys(market@),
        GamePhase::ConfirmAnswer(_) => true,
    }
}

/// What must hold of a replicated state for the machine to keep running.
/// A freshly dealt board additionally satisfies the stronger
/// [`BoardState::wf`], which `resolve` promises for every board it deals;
/// the machine itself only needs a usable player registry.
pub open spec fn state_wf(s: AppState) -> bool {
    match s {
        AppState::Blank => true,
        AppState::StandbyPassword(profiles, inputs, setting) => {
            &&& inputs.wf()
            &&& inputs.capacity() == profiles.players@.len()
            &&& setting.hints_num >= 1
        },
        AppState::Board(board, _profiles, phase) => {
            &&& alist_no_dup_keys(board.players@)
            &&& board.players@.len() >= 2
            &&& phase_wf(phase, board.players@.len() as int)
        },
    }
}

/// The contributions a completed password barrier hands to the deal, by
/// mathematical content: the views of the stored entries, combined with the
/// final pair the call site supplies.
pub open spec fn submitted_views(
    entries: Seq<(PlayerId, InitPlayer)>,
    id: PlayerId,
    ip: crate::init::InitPlayerView,
) -> Seq<(PlayerId, crate::init::InitPlayerView)> {
    finalized_of(
        entries.map_values(|e: (PlayerId, InitPlayer)| (e.0, e.1@)),
        id,
        ip,
    )
}

/// Materializing the completion view of a password barrier preserves the
/// mathematical content of every contribution.
proof fn lemma_finalize_views(
    entries1: Seq<(PlayerId, InitPlayer)>,
    partial: Seq<(PlayerId, InitPlayer)>,
    fl: Seq<(PlayerId, InitPlayer)>,
    id: PlayerId,
    ip: InitPlayer,
)
    requires
        entries1.len() == partial.len(),
        forall|i: int|
            0 <= i < entries1.len() ==> (#[trigger] entries1[i]).0 == partial[i].0
                && entries1[i].1@ == partial[i].1@,
        alist_no_dup_keys(partial),
        fl == finalized_of(entries1, id, ip),
    ensures
        fl.len() == submitted_views(partial, id, ip@).len(),
        forall|i: int|
            0 <= i < fl.len() ==> (#[trigger] fl[i]).0 == submitted_views(partial, id, ip@)[i].0
                && fl[i].1@ == submitted_views(partial, id, ip@)[i].1,
{
    let mapped = partial.map_values(|e: (PlayerId, InitPlayer)| (e.0, e.1@));
    let sub = submitted_views(partial, id, ip@);
    assert(mapped.len() == partial.len());
    assert forall|i: int| 0 <= i < mapped.len() implies (#[trigger] mapped[i]).0 == partial[i].0
        && mapped[i].1 == partial[i].1@ by {}
    assert forall|i: int, j: int|
        0 <= i < entries1.len() && 0 <= j < entries1.len() && i != j implies (
    #[trigger] entries1[i]).0 != (#[trigger] entries1[j]).0 by {}
    if alist_has_key(partial, id) {
        let k = crate::assoc::alist_key_index(partial, id);
        assert(0 <= k < partial.len() && partial[k].0 == id);
        assert(alist_has_key(entries1, id)) by {
            assert(entries1[k].0 == id);
        }
        assert(alist_has_key(mapped, id)) by {
            assert(mapped[k].0 == id);
        }
        crate::assoc::lemma_alist_at_index(entries1, k);
        crate::assoc::lemma_alist_at_index(mapped, k);
        crate::assoc::lemma_alist_at_index(partial, k);
        assert(fl == entries1.update(k, (id, ip)));
        assert(sub == mapped.update(k, (id, ip@)));
    } else {
        assert(!alist_has_key(entries1, id)) by {
            if alist_has_key(entries1, id) {
                let k = choose|k: int| 0 <= k < entries1.len() && entries1[k].0 == id;
                assert(partial[k].0 == id);
            }
        }
        assert(!alist_has_key(mapped, id)) by {
            if alist_has_key(mapped, id) {
                let k = choose|k: int| 0 <= k < mapped.len() && mapped[k].0 == id;
                assert(partial[k].0 == id);
            }
        }
        assert(fl == entries1.push((id, ip)));
        assert(sub == mapped.push((id, ip@)));
    }
}

/// The registered player identifiers, in registration order.
fn player_ids_of(board: &BoardState) -> (r: Vec<PlayerId>)
    ensures
        r@ == alist_keys(board.players@),
{
    let n = board.players.len();
    let mut r: Vec<PlayerId> = Vec::new();
    let mut i: usize = 0;
    while i < n
        invariant
            n == board.players@.len(),
            i <= n,
            r@.len() == i,
            forall|j: int| 0 <= j < i ==> (#[trigger] r@[j]) == board.players@[j].0,
        decreases n - i,
    {
        r.push(board.players[i].0);
        i = i + 1;
    }
    proof {
        assert(r@ =~= alist_keys(board.players@));
    }
    r
}

/// Copies a market, offer for offer.
fn copy_market(m: &Market) -> (r: Market)
    ensures
        r@ == m@,
{
    let n = m.len();
    let mut r: Market = Vec::new();
    let mut i: usize = 0;
    while i < n
        invariant
            n == m@.len(),
            i <= n,
            r@ == m@.subrange(0, i as int),
        decreases n - i,
    {
        r.push((m[i].0, m[i].1));
        proof {
            assert(r@ =~= m@.subrange(0, i + 1));
        }
        i = i + 1;
    }
    proof {
        assert(r@ =~= m@);
    }
    r
}

/// Copies a collected answer list, entry for entry.
fn copy_answers(v: &Vec<(PlayerId, Answer)>) -> (r: Vec<(PlayerId, Answer)>)
    ensures
        r@ == v@,
{
    let n = v.len();
    let mut r: Vec<(PlayerId, Answer)> = Vec::new();
    let mut i: usize = 0;
    while i < n
        invariant
            n == v@.len(),
            i <= n,
            r@ == v@.subrange(0, i as int),
        decreases n - i,
    {
        r.push((v[i].0, v[i].1.clone()));
        proof {
            assert(r@ =~= v@.subrange(0, i + 1));
        }
        i = i + 1;
    }
    proof {
        assert(r@ =~= v@);
    }
    r
}

impl AppCore {
    /// The state every peer starts from.
    pub fn init() -> (r: AppState)
        ensures
            r is Blank,
    {
        AppState::Blank
    }

    /// Computes the outcome of one command against the current state,
    /// without applying it.  This is the only place randomness may be
    /// consulted: the fully dealt board rides inside the result, so applying
    /// the result never needs it.  A command that does not fit the active
    /// phase is fatal.
    #[verifier::rlimit(90)]
    pub fn resolve(
        state: &AppState,
        command: AppCommand,
        rng: &mut rand::rngs::ThreadRng,
    ) -> (r: Result<AppResult, FatalError>)
        requires
            state_wf(*state),
        ensures
            *state is Blank ==> {
                &&& command is InitProfile ==> r == Ok::<AppResult, FatalError>(
                    AppResult::InitProfile(command->InitProfile_0),
                )
                &&& !(command is InitProfile) ==> r == Err::<AppResult, FatalError>(
                    FatalError::WrongPhase,
                )
            },
            *state is StandbyPassword ==> {
                let inputs = (*state)->StandbyPassword_1;
                &&& !(command is PushPassword) ==> r == Err::<AppResult, FatalError>(
                    FatalError::WrongPhase,
                )
                &&& (command is PushPassword && inputs.partial().len() + 1 < inputs.capacity())
                    ==> r == Ok::<AppResult, FatalError>(
                    AppResult::PushPassword(command->PushPassword_0, command->PushPassword_1),
                )
                &&& (command is PushPassword && inputs.partial().len() + 1 == inputs.capacity())
                    ==> {
                    let sub = submitted_views(
                        inputs.partial(),
                        command->PushPassword_0,
                        command->PushPassword_1@,
                    );
                    let nh = ((*state)->StandbyPassword_2).hints_num as int;
                    &&& (r is Ok <==> sub.len() >= 2 && sub.len() as int * nh <= usize::MAX && (
                    forall|i: int|
                        0 <= i < sub.len() ==> (#[trigger] sub[i]).1.hints.len() == nh))
                    &&& (r == Err::<AppResult, FatalError>(FatalError::Overflow) <==> sub.len()
                        as int * nh > usize::MAX)
                    &&& sub.len() as int * nh <= usize::MAX ==> {
                        &&& (r == Err::<AppResult, FatalError>(
                            FatalError::Setup(SetupError::TooFewPlayers),
                        ) <==> sub.len() < 2)
                        &&& (r == Err::<AppResult, FatalError>(
                            FatalError::Setup(SetupError::WrongHintCount),
                        ) <==> sub.len() >= 2 && !(forall|i: int|
                            0 <= i < sub.len() ==> (#[trigger] sub[i]).1.hints.len() == nh))
                        &&& r != Err::<AppResult, FatalError>(
                            FatalError::Setup(SetupError::NoHints),
                        )
                        &&& r != Err::<AppResult, FatalError>(
                            FatalError::Setup(SetupError::DuplicatePlayer),
                        )
                    }
                    &&& r is Ok ==> (r->Ok_0 is InitBoard && {
                        let b = r->Ok_0->InitBoard_0;
                        &&& b.wf()
                        &&& b.players@.len() >= 2
                        &&& alist_no_dup_keys(b.players@)
                        &&& forall|i: int|
                            0 <= i < b.players@.len() ==> (#[trigger] b.players@[i]).1.target
                                != b.players@[i].0
                        &&& targets_of(b.players@).to_multiset() == alist_keys(
                            b.players@,
                        ).to_multiset()
                        &&& forall|i: int|
                            0 <= i < b.players@.len() ==> owned_hints(
                                b.players@,
                                (#[trigger] b.players@[i]).1.target,
                            ).contains(b.players@[i].1.knowledges.target)
                        &&& forall|i: int, k2: int|
                            #![trigger b.players@[i].1.knowledges.others@[k2]]
                            0 <= i < b.players@.len() && 0 <= k2
                                < b.players@[i].1.knowledges.others@.len() ==> !owned_hints(
                                b.players@,
                                b.players@[i].1.target,
                            ).contains(b.players@[i].1.knowledges.others@[k2])
                        &&& board_knowledge(b.players@).to_multiset() == alist_keys(
                            b.hints@,
                        ).to_multiset()
                        &&& {
                            let sub = submitted_views(
                                inputs.partial(),
                                command->PushPassword_0,
                                command->PushPassword_1@,
                            );
                            let nh = ((*state)->StandbyPassword_2).hints_num as int;
                            &&& b.players@.len() == sub.len()
                            &&& forall|i: int|
                                0 <= i < sub.len() ==> ((#[trigger] b.players@[i]).0 == sub[i].0
                                    && b.players@[i].1.password == sub[i].1.password
                                    && b.players@[i].1.hints@.len() == nh)
                            &&& b.hints@.len() == sub.len() * nh
                            &&& forall|i: int, j: int|
                                #![trigger sub[i].1.hints[j]]
                                0 <= i < sub.len() && 0 <= j < nh ==> b.hints@[i * nh + j].1.text
                                    == sub[i].1.hints[j]
                        }
                    })
                }
            },
            *state is Board ==> {
                let board = (*state)->Board_0;
                let phase = (*state)->Board_2;
                &&& !(command is Board) ==> r == Err::<AppResult, FatalError>(
                    FatalError::WrongPhase,
                )
                &&& command is Board ==> {
                    let gc = command->Board_0;
                    &&& (phase is SelectPutToMarket && gc is PushPutToMarket) ==> {
                        let inputs = phase->SelectPutToMarket_0;
                        let id = gc->PushPutToMarket_0;
                        let put = gc->PushPutToMarket_1;
                        &&& inputs.partial().len() + 1 < inputs.capacity() ==> r == Ok::<
                            AppResult,
                            FatalError,
                        >(AppResult::Board(GameResult::PushPutToMarket(id, put)))
                        &&& inputs.partial().len() + 1 == inputs.capacity() ==> (r is Ok
                            && r->Ok_0 is Board && r->Ok_0->Board_0 is MoveToActionPhase && (
                        r->Ok_0->Board_0->MoveToActionPhase_0)@ == finalized_of(
                            inputs.partial(),
                            id,
                            put,
                        ))
                    }
                    &&& (phase is SelectAction && gc is PushAction) ==> {
                        let market = phase->SelectAction_0;
                        let inputs = phase->SelectAction_1;
                        let id = gc->PushAction_0;
                        let act = gc->PushAction_1;
                        &&& inputs.partial().len() + 1 < inputs.capacity() ==> r == Ok::<
                            AppResult,
                            FatalError,
                        >(AppResult::Board(GameResult::PushAction(id, act)))
                        &&& inputs.partial().len() + 1 == inputs.capacity() ==> {
                            let acts = finalized_of(inputs.partial(), id, act);
                            let ids = alist_keys(board.players@);
                            &&& (r is Err ==> Some(r->Err_0) == first_fault(ids, market@, acts))
                            &&& (r is Ok ==> (r->Ok_0 is Board && r->Ok_0->Board_0 is MoveToNext
                                && first_fault(ids, market@, acts) is None && {
                                let ar = r->Ok_0->Board_0->MoveToNext_0;
                                let ans = r->Ok_0->Board_0->MoveToNext_1;
                                &&& ar.players@.len() == ids.len()
                                &&& forall|i: int|
                                    0 <= i < ids.len() ==> ((#[trigger] ar.players@[i]).0 == ids[i]
                                        && ar.players@[i].1.refs@ == refs_of(market@, acts, ids[i])
                                        && ar.players@[i].1.ownership@ == ownership_of(
                                        market@,
                                        acts,
                                        ids[i],
                                    ) && ar.players@[i].1.loss_ownership@ == loss_of(
                                        market@,
                                        acts,
                                        ids[i],
                                    ) && ar.players@[i].1.move_coin@ == coins_of(
                                        market@,
                                        acts,
                                        ids[i],
                                    ))
                                &&& ar.ansers@ == answers_of(acts)
                                &&& ans@ == answers_of(acts)
                            }))
                        }
                    }
                    &&& !((phase is SelectPutToMarket && gc is PushPutToMarket) || (
                    phase is SelectAction && gc is PushAction)) ==> r == Err::<
                        AppResult,
                        FatalError,
                    >(FatalError::WrongPhase)
                }
            },
    {
        match state {
            AppState::Blank => match command {
                AppCommand::InitProfile(profiles) => Ok(AppResult::InitProfile(profiles)),
                _ => Err(FatalError::WrongPhase),
            },
            AppState::StandbyPassword(_profiles, inputs, setting) => match command {
                AppCommand::PushPassword(id, player) => match inputs.is_complete() {
                    Some(complete) => {
                        let ghost entries1 = complete.entries@;
                        let ghost partialv = inputs.partial();
                        let ghost ip0 = player;
                        proof {
                            assert(*state is StandbyPassword);
                            assert((*state)->StandbyPassword_1 == *inputs);
                            assert((*state)->StandbyPassword_2 == *setting);
                            assert(inputs.wf());
                            assert(alist_no_dup_keys(inputs.partial()));
                            assert forall|i: int, j: int|
                                0 <= i < complete.entries@.len() && 0 <= j
                                    < complete.entries@.len() && i != j implies (
                            #[trigger] complete.entries@[i]).0 != (
                            #[trigger] complete.entries@[j]).0 by {
                                assert(complete.entries@[i].0 == inputs.partial()[i].0);
                                assert(complete.entries@[j].0 == inputs.partial()[j].0);
                            }
                        }
                        let players_list = complete.finalize(id, player);
                        proof {
                            assert forall|i: int|
                                0 <= i < entries1.len() implies (#[trigger] entries1[i]).0
                                == partialv[i].0 && entries1[i].1@ == partialv[i].1@ by {}
                            lemma_finalize_views(entries1, partialv, players_list@, id, ip0);
                            let sub = submitted_views(partialv, id, ip0@);
                            assert(players_list@.len() == sub.len());
                            assert forall|i: int|
                                0 <= i < sub.len() implies (#[trigger] sub[i]).1.hints.len()
                                == players_list@[i].1.hints@.len() by {
                                assert(players_list@[i].0 == sub[i].0 && players_list@[i].1@
                                    == sub[i].1);
                            }
                            assert((forall|i: int|
                                0 <= i < players_list@.len()
                                    ==> (#[trigger] players_list@[i]).1.hints@.len()
                                    == setting.hints_num) <==> (forall|i: int|
                                0 <= i < sub.len() ==> (#[trigger] sub[i]).1.hints.len()
                                    == setting.hints_num)) by {
                                if forall|i: int|
                                    0 <= i < players_list@.len()
                                        ==> (#[trigger] players_list@[i]).1.hints@.len()
                                        == setting.hints_num {
                                    assert forall|i: int|
                                        0 <= i < sub.len() implies (#[trigger] sub[i]).1.hints.len()
                                        == setting.hints_num by {
                                        assert(players_list@[i].1.hints@.len()
                                            == setting.hints_num);
                                    }
                                }
                                if forall|i: int|
                                    0 <= i < sub.len() ==> (#[trigger] sub[i]).1.hints.len()
                                        == setting.hints_num {
                                    assert forall|i: int|
                                        0 <= i < players_list@.len() implies (
                                    #[trigger] players_list@[i]).1.hints@.len()
                                        == setting.hints_num by {
                                        assert(sub[i].1.hints.len() == setting.hints_num);
                                        assert(sub[i].1.hints.len()
                                            == players_list@[i].1.hints@.len());
                                    }
                                }
                            }
                        }
                        if players_list.len().checked_mul(setting.hints_num).is_none() {
                            return Err(FatalError::Overflow);
                        }
                        match init(
                            InitBoard { players: players_list, hints_num: setting.hints_num },
                            rng,
                        ) {
                            Ok(board) => {
                                proof {
                                    crate::assoc::lemma_alist_keys_no_duplicates(board.players@);
                                    let sub = submitted_views(partialv, id, ip0@);
                                    let nh = setting.hints_num as int;
                                    assert(board.players@.len() == sub.len());
                                    assert forall|i: int| 0 <= i < sub.len() implies (
                                    #[trigger] board.players@[i]).0 == sub[i].0
                                        && board.players@[i].1.password == sub[i].1.password
                                        && board.players@[i].1.hints@.len() == nh by {
                                        assert(players_list@[i].0 == sub[i].0 && players_list@[i].1@
                                            == sub[i].1);
                                    }
                                    assert(board.hints@.len() == sub.len() * nh);
                                    assert forall|i: int, j: int|
                                        #![trigger sub[i].1.hints[j]]
                                        0 <= i < sub.len() && 0 <= j < nh implies board.hints@[i
                                        * nh + j].1.text == sub[i].1.hints[j] by {
                                        assert(players_list@[i].0 == sub[i].0 && players_list@[i].1@
                                            == sub[i].1);
                                        assert(players_list@[i].1.hints@[j] == sub[i].1.hints[j]);
                                        assert(board.hints@[i * nh + j].1.text
                                            == players_list@[i].1.hints@[j]);
                                    }
                                }
                                Ok(AppResult::InitBoard(board))
                            },
                            Err(e) => Err(FatalError::Setup(e)),
                        }
                    },
                    None => Ok(AppResult::PushPassword(id, player)),
                },
                _ => Err(FatalError::WrongPhase),
            },
            AppState::Board(board, _profiles, phase) => match command {
                AppCommand::Board(gc) => match phase {
                    GamePhase::SelectPutToMarket(inputs) => match gc {
                        GameCommand::PushPutToMarket(id, put) => match inputs.is_complete() {
                            Some(complete) => {
                                proof {
                                    assert(complete.entries@ =~= inputs.partial()) by {
                                        assert forall|i: int|
                                            0 <= i < complete.entries@.len() implies (
                                        #[trigger] complete.entries@[i]) == inputs.partial()[i] by {
                                        }
                                    }
                                }
                                let market = complete.finalize(id, put);
                                Ok(AppResult::Board(GameResult::MoveToActionPhase(market)))
                            },
                            None => Ok(AppResult::Board(GameResult::PushPutToMarket(id, put))),
                        },
                        _ => Err(FatalError::WrongPhase),
                    },
                    GamePhase::SelectAction(market, inputs) => match gc {
                        GameCommand::PushAction(id, act) => match inputs.is_complete() {
                            Some(complete) => {
                                proof {
                                    assert(complete.entries@ =~= inputs.partial()) by {
                                        assert forall|i: int|
                                            0 <= i < complete.entries@.len() implies (
                                        #[trigger] complete.entries@[i]) == inputs.partial()[i] by {
                                        }
                                    }
                                }
                                let acts_vec = complete.finalize(id, act);
                                let ids = player_ids_of(board);
                                proof {
                                    crate::assoc::lemma_alist_keys_no_duplicates(board.players@);
                                }
                                let m2 = copy_market(market);
                                match crate::game::resolve_actions(&ids, m2, acts_vec) {
                                    Ok(ar) => {
                                        let ans = copy_answers(&ar.ansers);
                                        Ok(AppResult::Board(GameResult::MoveToNext(ar, ans)))
                                    },
                                    Err(e) => Err(e),
                                }
                            },
                            None => Ok(AppResult::Board(GameResult::PushAction(id, act))),
                        },
                        _ => Err(FatalError::WrongPhase),
                    },
                    GamePhase::ConfirmAnswer(_) => Err(FatalError::WrongPhase),
                },
                _ => Err(FatalError::WrongPhase),
            },
        }
    }

    /// Applies a previously computed outcome to this peer's copy of the
    /// state.  Deterministic: no randomness is consulted, and every field
    /// needed — including a fully dealt board — already rides inside the
    /// result.  On a fatal error the state is left exactly as it was.
    #[verifier::rlimit(90)]
    pub fn reducer(state: &mut AppState, result: AppResult) -> (r: Result<(), FatalError>)
        requires
            state_wf(*old(state)),
        ensures
            r is Ok ==> state_wf(*final(state)),
            r is Err ==> *final(state) == *old(state),
            *old(state) is Blank ==> {
                &&& result is InitProfile ==> {
                    let p = result->InitProfile_0;
                    &&& p.players@.len() >= 2 ==> (r is Ok && *final(state) is StandbyPassword && (
                    *final(state))->StandbyPassword_0 == p && (
                    *final(state))->StandbyPassword_1.partial().len() == 0 && (
                    *final(state))->StandbyPassword_1.capacity() == p.players@.len() && (
                    *final(state))->StandbyPassword_2.hints_num == 3)
                    &&& p.players@.len() < 2 ==> r == Err::<(), FatalError>(
                        FatalError::Setup(SetupError::TooFewPlayers),
                    )
                }
                &&& !(result is InitProfile) ==> r == Err::<(), FatalError>(FatalError::WrongPhase)
            },
            *old(state) is StandbyPassword ==> {
                let pr = (*old(state))->StandbyPassword_0;
                let inputs = (*old(state))->StandbyPassword_1;
                let set = (*old(state))->StandbyPassword_2;
                &&& result is PushPassword ==> {
                    let id = result->PushPassword_0;
                    let ip = result->PushPassword_1;
                    &&& (alist_has_key(inputs.partial(), id) || inputs.partial().len() + 1
                        < inputs.capacity()) ==> (r is Ok && *final(state) is StandbyPassword && (
                    *final(state))->StandbyPassword_0 == pr && (*final(state))->StandbyPassword_2
                        == set && (*final(state))->StandbyPassword_1.capacity()
                        == inputs.capacity() && (*final(state))->StandbyPassword_1.partial()
                        == finalized_of(inputs.partial(), id, ip))
                    &&& !(alist_has_key(inputs.partial(), id) || inputs.partial().len() + 1
                        < inputs.capacity()) ==> r == Err::<(), FatalError>(
                        FatalError::BarrierOverflow,
                    )
                }
                &&& result is InitBoard ==> {
                    let b = result->InitBoard_0;
                    &&& (alist_no_dup_keys(b.players@) && b.players@.len() >= 2) ==> (r is Ok && *
                    final(state) is Board && (*final(state))->Board_0 == b && (
                    *final(state))->Board_1 == pr && (*final(state))->Board_2 is SelectPutToMarket
                        && (*final(state))->Board_2->SelectPutToMarket_0.partial().len() == 0 && (
                    *final(state))->Board_2->SelectPutToMarket_0.capacity() == b.players@.len())
                    &&& !(alist_no_dup_keys(b.players@) && b.players@.len() >= 2) ==> r == Err::<
                        (),
                        FatalError,
                    >(FatalError::InvalidBoard)
                }
                &&& !(result is PushPassword || result is InitBoard) ==> r == Err::<
                    (),
                    FatalError,
                >(FatalError::WrongPhase)
            },
            *old(state) is Board ==> {
                let b0 = (*old(state))->Board_0;
                let pr = (*old(state))->Board_1;
                let ph = (*old(state))->Board_2;
                &&& !(result is Board) ==> r == Err::<(), FatalError>(FatalError::WrongPhase)
                &&& result is Board ==> {
                    let gr = result->Board_0;
                    &&& r is Ok ==> (*final(state) is Board && (*final(state))->Board_0 == b0 && (
                    *final(state))->Board_1 == pr)
                    &&& (ph is SelectPutToMarket && gr is PushPutToMarket) ==> {
                        let inputs = ph->SelectPutToMarket_0;
                        let id = gr->PushPutToMarket_0;
                        let put = gr->PushPutToMarket_1;
                        &&& (alist_has_key(inputs.partial(), id) || inputs.partial().len() + 1
                            < inputs.capacity()) ==> (r is Ok && (
                        *final(state))->Board_2 is SelectPutToMarket && (
                        *final(state))->Board_2->SelectPutToMarket_0.capacity()
                            == inputs.capacity() && (
                        *final(state))->Board_2->SelectPutToMarket_0.partial() == finalized_of(
                            inputs.partial(),
                            id,
                            put,
                        ))
                        &&& !(alist_has_key(inputs.partial(), id) || inputs.partial().len() + 1
                            < inputs.capacity()) ==> r == Err::<(), FatalError>(
                            FatalError::BarrierOverflow,
                        )
                    }
                    &&& (ph is SelectPutToMarket && gr is MoveToActionPhase) ==> {
                        let m = gr->MoveToActionPhase_0;
                        &&& alist_no_dup_keys(m@) ==> (r is Ok && (
                        *final(state))->Board_2 is SelectAction && (
                        *final(state))->Board_2->SelectAction_0 == m && (
                        *final(state))->Board_2->SelectAction_1.partial().len() == 0 && (
                        *final(state))->Board_2->SelectAction_1.capacity() == b0.players@.len())
                        &&& !alist_no_dup_keys(m@) ==> r == Err::<(), FatalError>(
                            FatalError::InvalidMarket,
                        )
                    }
                    &&& (ph is SelectAction && gr is PushAction) ==> {
                        let market = ph->SelectAction_0;
                        let inputs = ph->SelectAction_1;
                        let id = gr->PushAction_0;
                        let act = gr->PushAction_1;
                        &&& (alist_has_key(inputs.partial(), id) || inputs.partial().len() + 1
                            < inputs.capacity()) ==> (r is Ok && (
                        *final(state))->Board_2 is SelectAction && (
                        *final(state))->Board_2->SelectAction_0 == market && (
                        *final(state))->Board_2->SelectAction_1.capacity() == inputs.capacity()
                            && (*final(state))->Board_2->SelectAction_1.partial() == finalized_of(
                            inputs.partial(),
                            id,
                            act,
                        ))
                        &&& !(alist_has_key(inputs.partial(), id) || inputs.partial().len() + 1
                            < inputs.capacity()) ==> r == Err::<(), FatalError>(
                            FatalError::BarrierOverflow,
                        )
                    }
                    &&& (ph is SelectAction && gr is MoveToNext) ==> (r is Ok && (
                    *final(state))->Board_2 is ConfirmAnswer && (
                    *final(state))->Board_2->ConfirmAnswer_0 == gr->MoveToNext_1)
                    &&& !((ph is SelectPutToMarket && (gr is PushPutToMarket
                        || gr is MoveToActionPhase)) || (ph is SelectAction && (gr is PushAction
                        || gr is MoveToNext))) ==> r == Err::<(), FatalError>(
                        FatalError::WrongPhase,
                    )
                }
            },
    {
        let mut tmp = AppState::Blank;
        core::mem::swap(state, &mut tmp);
        match tmp {
            AppState::Blank => match result {
                AppResult::InitProfile(profiles) => {
                    let n = profiles.players.len();
                    match Simulataneously::<InitPlayer>::new(n) {
                        Some(inputs) => {
                            *state = AppState::StandbyPassword(
                                profiles,
                                inputs,
                                Setting::recommend(),
                            );
                            Ok(())
                        },
                        None => {
                            *state = AppState::Blank;
                            Err(FatalError::Setup(SetupError::TooFewPlayers))
                        },
                    }
                },
                _ => {
                    *state = AppState::Blank;
                    Err(FatalError::WrongPhase)
                },
            },
            AppState::StandbyPassword(pr, mut inputs, set) => match result {
                AppResult::PushPassword(id, ip) => {
                    if inputs.can_insert(&id) {
                        inputs.insert(id, ip);
                        *state = AppState::StandbyPassword(pr, inputs, set);
                        Ok(())
                    } else {
                        *state = AppState::StandbyPassword(pr, inputs, set);
                        Err(FatalError::BarrierOverflow)
                    }
                },
                AppResult::InitBoard(b) => {
                    if b.players.len() >= 2 && check_distinct_keys(&b.players) {
                        match Simulataneously::<PutToMarket>::new(b.players.len()) {
                            Some(barrier) => {
                                *state = AppState::Board(
                                    b,
                                    pr,
                                    GamePhase::SelectPutToMarket(barrier),
                                );
                                Ok(())
                            },
                            None => {
                                proof {
                                    assert(false);
                                }
                                vstd::pervasive::unreached()
                            },
                        }
                    } else {
                        *state = AppState::StandbyPassword(pr, inputs, set);
                        Err(FatalError::InvalidBoard)
                    }
                },
                _ => {
                    *state = AppState::StandbyPassword(pr, inputs, set);
                    Err(FatalError::WrongPhase)
                },
            },
            AppState::Board(b, pr, phase) => match result {
                AppResult::Board(gr) => match phase {
                    GamePhase::SelectPutToMarket(mut inputs) => match gr {
                        GameResult::PushPutToMarket(id, put) => {
                            if inputs.can_insert(&id) {
                                inputs.insert(id, put);
                                *state = AppState::Board(
                                    b,
                                    pr,
                                    GamePhase::SelectPutToMarket(inputs),
                                );
                                Ok(())
                            } else {
                                *state = AppState::Board(
                                    b,
                                    pr,
                                    GamePhase::SelectPutToMarket(inputs),
                                );
                                Err(FatalError::BarrierOverflow)
                            }
                        },
                        GameResult::MoveToActionPhase(m) => {
                            if check_distinct_keys(&m) {
                                match Simulataneously::<Action>::new(b.players.len()) {
                                    Some(barrier) => {
                                        *state = AppState::Board(
                                            b,
                                            pr,
                                            GamePhase::SelectAction(m, barrier),
                                        );
                                        Ok(())
                                    },
                                    None => {
                                        proof {
                                            assert(false);
                                        }
                                        vstd::pervasive::unreached()
                                    },
                                }
                            } else {
                                *state = AppState::Board(
                                    b,
                                    pr,
                                    GamePhase::SelectPutToMarket(inputs),
                                );
                                Err(FatalError::InvalidMarket)
                            }
                        },
                        _ => {
                            *state = AppState::Board(b, pr, GamePhase::SelectPutToMarket(inputs));
                            Err(FatalError::WrongPhase)
                        },
                    },
                    GamePhase::SelectAction(m, mut inputs) => match gr {
                        GameResult::PushAction(id, act) => {
                            if inputs.can_insert(&id) {
                                inputs.insert(id, act);
                                *state = AppState::Board(b, pr, GamePhase::SelectAction(m, inputs));
                                Ok(())
                            } else {
                                *state = AppState::Board(b, pr, GamePhase::SelectAction(m, inputs));
                                Err(FatalError::BarrierOverflow)
                            }
                        },
                        GameResult::MoveToNext(_moves, answers) => {
                            *state = AppState::Board(b, pr, GamePhase::ConfirmAnswer(answers));
                            Ok(())
                        },
                        _ => {
                            *state = AppState::Board(b, pr, GamePhase::SelectAction(m, inputs));
                            Err(FatalError::WrongPhase)
                        },
                    },
                    GamePhase::ConfirmAnswer(ans) => {
                        *state = AppState::Board(b, pr, GamePhase::ConfirmAnswer(ans));
                        Err(FatalError::WrongPhase)
                    },
                },
                _ => {
                    *state = AppState::Board(b, pr, phase);
                    Err(FatalError::WrongPhase)
                },
            },
        }
    }
}

} // verus!
