//! The player record and its mathematical view.

use vstd::prelude::*;

verus! {

/// A player as a mathematical value: what contracts speak of.
pub struct PlayerView {
    pub id: u32,
    pub name: Seq<char>,
    pub games: u32,
}

impl PlayerView {
    /// The fairness order, strictly: fewer games first, and among players
    /// with the same number of games the lower id first.
    pub open spec fn before(self, other: PlayerView) -> bool {
        self.games < other.games || (self.games == other.games && self.id < other.id)
    }

    /// This player with another number of games.
    pub open spec fn with_games(self, games: u32) -> PlayerView {
        PlayerView { id: self.id, name: self.name, games }
    }

    /// This player under another name.
    pub open spec fn with_name(self, name: Seq<char>) -> PlayerView {
        PlayerView { id: self.id, name, games: self.games }
    }
}

/// A player: an id that identifies it, a display name, and the number of
/// games it has played.
pub struct Player {
    pub id: u32,
    pub name: String,
    pub games: u32,
}

impl View for Player {
    type V = PlayerView;

    open spec fn view(&self) -> PlayerView {
        PlayerView { id: self.id, name: self.name@, games: self.games }
    }
}

impl DeepView for Player {
    type V = PlayerView;

    open spec fn deep_view(&self) -> PlayerView {
        self@
    }
}

impl Clone for Player {
    fn clone(&self) -> (copy: Player)
        ensures
            copy == *self,
    {
        Player { name: self.name.clone(), games: self.games, id: self.id }
    }
}

impl Player {
    /// A player with this id, name and number of games.
    pub fn new(id: u32, name: String, games: u32) -> (player: Player)
        ensures
            player@ == (PlayerView { id, name: name@, games }),
    {
        Player { id, name, games }
    }

    /// Sets the number of games; id and name stay.
    pub fn set_games(&mut self, games: u32)
        ensures
            final(self)@ == old(self)@.with_games(games),
    {
        self.games = games;
    }

    /// Sets the name; id and games stay.
    pub fn set_name(&mut self, name: &str)
        ensures
            final(self)@ == old(self)@.with_name(name@),
    {
        self.name = name.to_string();
    }
}

} // verus!
