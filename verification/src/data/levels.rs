//! The handcrafted levels of the game.

use vstd::prelude::*;

verus! {

/// The files of the handcrafted levels, in order.
pub open spec fn spec_level_paths() -> Seq<&'static str> {
    seq!["assets/worlds/level_01.ron", "assets/worlds/level_02.ron"]
}

/// The files of the handcrafted levels, in order.
pub fn level_paths() -> (paths: Vec<&'static str>)
    ensures
        paths@ == spec_level_paths(),
{
    vec!["assets/worlds/level_01.ron", "assets/worlds/level_02.ron"]
}

} // verus!
