//! Who is at the table: the profiles the engine is handed before setup.

use vstd::prelude::*;

use crate::model::PlayerId;

verus! {

/// One participant as the lobby announced them.
#[derive(Debug)]
pub struct PlayerProfile {
    pub id: PlayerId,
    pub display_name: String,
}

impl Clone for PlayerProfile {
    fn clone(&self) -> (r: Self)
        ensures
            r == *self,
    {
        PlayerProfile { id: self.id, display_name: self.display_name.clone() }
    }
}

/// The full table, in announcement order; its size fixes the capacity of the
/// password barrier.
#[derive(Debug)]
pub struct Profiles {
    pub players: Vec<PlayerProfile>,
}

impl Clone for Profiles {
    fn clone(&self) -> (r: Self)
        ensures
            r.players@ == self.players@,
    {
        let mut players: Vec<PlayerProfile> = Vec::new();
        let n = self.players.len();
        let mut i: usize = 0;
        while i < n
            invariant
                n == self.players@.len(),
                i <= n,
                players@ == self.players@.subrange(0, i as int),
            decreases n - i,
        {
            players.push(self.players[i].clone());
            proof {
                assert(players@ =~= self.players@.subrange(0, i + 1));
            }
            i = i + 1;
        }
        proof {
            assert(players@ =~= self.players@);
        }
        Profiles { players }
    }
}

} // verus!
