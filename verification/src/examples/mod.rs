//! Two automata to run on the engine.

pub mod game_of_life;
pub mod langtons_ant;
