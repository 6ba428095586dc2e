//! A fairness-ordered picker: out of a roster of players, each with a count
//! of games played so far, pick those who have played least.
//!
//! Players are ranked by games played, fewest first; players with the same
//! number of games are ranked by id, lowest first.

pub mod player;
pub mod order;
pub mod fairness;
pub mod laws;
pub mod selection;
pub mod roster;
pub mod lineup;

pub use player::Player;
pub use player::PlayerView;
pub use roster::Picker;
