use vstd::prelude::*;

pub mod text;
pub mod seqs;
pub mod ids;
pub mod enums;
pub mod power;
pub mod layout;
pub mod facility;
pub mod formula;
pub mod operator;
pub mod game_data;
pub mod base;
pub mod assignment;
pub mod rng;
pub mod mechanics;
pub mod skill;
pub mod constants;
pub mod sim;
pub mod warnings;
pub mod solve;
pub mod space;
pub mod exhaustive;
pub mod richtext;
pub mod store;
pub mod world;

verus! {

} // verus!
