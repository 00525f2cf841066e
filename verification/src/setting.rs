//! Tunable game parameters.

use vstd::prelude::*;

verus! {

/// The parameters a game is started with.
#[derive(PartialEq, Eq, Structural, Clone, Copy, Debug)]
pub struct Setting {
    /// How many hints each player must submit; also the number of knowledge
    /// grants each player receives.
    pub hints_num: usize,
}

impl Setting {
    /// The recommended configuration.
    pub fn recommend() -> (r: Self)
        ensures
            r.hints_num == 3,
    {
        Setting { hints_num: 3 }
    }
}

} // verus!
