//! The pure decisions of the game glue: which tile a freshly generated
//! map cell shows, and which way the player sprite faces for a movement
//! input. The host spawns entities and moves transforms; these functions
//! only decide.
use vstd::prelude::*;

use crate::tset::TSetTile;

verus! {

/// The tile and runtime state a map cell gets for a drawn number, one
/// roll per cell: mostly variant grass, with conveyor, water and shore
/// cells sprinkled in.
pub fn choose_map_tile(rnd: u32) -> (r: (String, TSetTile))
    ensures
        rnd % 5 == 1 ==> r.0@ == "converyor"@ && r.1 == TSetTile::Animated(1),
        rnd % 5 == 2 ==> r.0@ == "water"@ && r.1 == TSetTile::Animated(1),
        rnd % 5 == 3 ==> r.0@ == "grass_to_water/left"@ && r.1 == TSetTile::Animated(1),
        rnd % 5 == 4 ==> r.0@ == "grass"@ && (r.1 matches TSetTile::Variant(v) && v@ == "var2"@),
        (rnd % 5 == 0) ==> r.0@ == "grass"@ && (r.1 matches TSetTile::Variant(v) && v@ == "var1"@),
{
    let c = rnd % 5;
    if c == 1 {
        (String::from_str("converyor"), TSetTile::Animated(1))
    } else if c == 2 {
        (String::from_str("water"), TSetTile::Animated(1))
    } else if c == 3 {
        (String::from_str("grass_to_water/left"), TSetTile::Animated(1))
    } else if c == 4 {
        (String::from_str("grass"), TSetTile::Variant(String::from_str("var2")))
    } else {
        (String::from_str("grass"), TSetTile::Variant(String::from_str("var1")))
    }
}

/// The tile the player sprite shows for a movement input, horizontal
/// movement first, or nothing when the player stands still.
pub fn facing(move_x: i32, move_y: i32) -> (r: Option<String>)
    ensures
        move_x > 0 ==> (r matches Some(s) && s@ == "right"@),
        move_x < 0 ==> (r matches Some(s) && s@ == "left"@),
        move_x == 0 && move_y > 0 ==> (r matches Some(s) && s@ == "up"@),
        move_x == 0 && move_y < 0 ==> (r matches Some(s) && s@ == "down"@),
        move_x == 0 && move_y == 0 ==> r is None,
{
    if move_x > 0 {
        Some(String::from_str("right"))
    } else if move_x < 0 {
        Some(String::from_str("left"))
    } else if move_y > 0 {
        Some(String::from_str("up"))
    } else if move_y < 0 {
        Some(String::from_str("down"))
    } else {
        None
    }
}

} // verus!
