//! A chess position modelled as bit-level occupancy masks, with a verified
//! encode/decode layer, board algebra, and candidate-move generation.

pub mod game_moves;
pub mod game_structures;
