//! The data the game is played over: identifiers, hints, players and the
//! dealt board.

use vstd::prelude::*;

use crate::assoc::{alist_at, alist_has_key, alist_no_dup_keys};

verus! {

/// Stable identifier of one participant; unique within a game.
#[derive(PartialEq, Eq, Structural, Clone, Copy, Hash, Debug)]
pub struct PlayerId(pub usize);

/// Stable identifier of one hint; unique within a game.
#[derive(PartialEq, Eq, Structural, Clone, Copy, Hash, Debug)]
pub struct HintId(pub usize);

/// A secret word or phrase submitted by a player.
#[derive(Debug)]
pub struct Hint {
    pub text: String,
}

impl Clone for Hint {
    fn clone(&self) -> (r: Self)
        ensures
            r == *self,
    {
        Hint { text: self.text.clone() }
    }
}

/// What a player is told about their target: exactly one hint the target
/// really owns, and decoys that the target provably does not own.
#[derive(Debug)]
pub struct PlayerKnowledges {
    pub target: HintId,
    pub others: Vec<HintId>,
}

impl Clone for PlayerKnowledges {
    fn clone(&self) -> (r: Self)
        ensures
            r.target == self.target,
            r.others@ == self.others@,
    {
        let mut others: Vec<HintId> = Vec::new();
        let n = self.others.len();
        let mut i: usize = 0;
        while i < n
            invariant
                n == self.others@.len(),
                i <= n,
                others@ == self.others@.subrange(0, i as int),
            decreases n - i,
        {
            others.push(self.others[i]);
            i = i + 1;
        }
        proof {
            assert(others@ == self.others@);
        }
        PlayerKnowledges { target: self.target, others }
    }
}

/// One participant's game-visible state.
#[derive(Debug)]
pub struct Player {
    pub password: String,
    pub hints: Vec<HintId>,
    pub target: PlayerId,
    pub knowledges: PlayerKnowledges,
}

/// Snapshot of a running game: the global hint dictionary and every player.
#[derive(Debug)]
pub struct BoardState {
    pub hints: Vec<(HintId, Hint)>,
    pub players: Vec<(PlayerId, Player)>,
}

/// The hint list of the player registered under `p`.
pub open spec fn owned_hints(players: Seq<(PlayerId, Player)>, p: PlayerId) -> Seq<HintId> {
    alist_at(players, p).hints@
}

impl BoardState {
    /// Every identifier a player refers to resolves in the dictionary, the
    /// registries have distinct keys, and every target is a registered player
    /// other than its owner.
    pub open spec fn wf(&self) -> bool {
        &&& alist_no_dup_keys(self.players@)
        &&& alist_no_dup_keys(self.hints@)
        &&& forall|i: int|
            #![trigger self.players@[i]]
            0 <= i < self.players@.len() ==> {
                let pl = self.players@[i].1;
                &&& pl.target != self.players@[i].0
                &&& alist_has_key(self.players@, pl.target)
                &&& forall|j: int|
                    0 <= j < pl.hints@.len() ==> alist_has_key(self.hints@, #[trigger] pl.hints@[j])
                &&& alist_has_key(self.hints@, pl.knowledges.target)
                &&& forall|j: int|
                    0 <= j < pl.knowledges.others@.len() ==> alist_has_key(
                        self.hints@,
                        #[trigger] pl.knowledges.others@[j],
                    )
            }
    }
}

} // verus!
