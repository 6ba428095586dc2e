//! The roster in a row: players stand at positions and are addressed by
//! them.

use vstd::prelude::*;

use crate::fairness::is_fair_slots;
use crate::fairness::players_at;
use crate::player::Player;
use crate::player::PlayerView;
use crate::selection::least_slots;
use crate::selection::players_in;

verus! {

/// A row of players, in the order in which they were added. The caller
/// makes the players and so gives the ids; where two players have the same
/// games and the same id, the one that was added first is picked first.
pub struct Picker {
    players: Vec<Player>,
}

impl View for Picker {
    type V = Seq<PlayerView>;

    closed spec fn view(&self) -> Seq<PlayerView> {
        self.players.deep_view()
    }
}

impl Picker {
    /// A row without players.
    pub fn new() -> (picker: Picker)
        ensures
            picker@ == Seq::<PlayerView>::empty(),
    {
        let picker = Picker { players: Vec::new() };
        assert(picker@ =~= Seq::<PlayerView>::empty());
        picker
    }

    /// Adds a player at the end of the row.
    pub fn add_player(&mut self, player: Player)
        ensures
            final(self)@ == old(self)@.push(player@),
    {
        self.players.push(player);
        assert(self@ =~= old(self)@.push(player@));
    }

    /// Picks the `num_players` players who have played least, the one who
    /// has played least first; all players where the row holds no more.
    pub fn pick(&self, num_players: u32) -> (picks: Vec<Player>)
        ensures
            picks.len() == if num_players < self@.len() {
                num_players as nat
            } else {
                self@.len()
            },
            exists|slots: Seq<usize>| #[trigger]
                is_fair_slots(self@, slots) && picks.deep_view() == players_at(self@, slots),
    {
        let mut pool: Vec<&Player> = Vec::new();
        let mut next: usize = 0;
        while next < self.players.len()
            invariant
                next <= self.players.len(),
                pool.len() == next,
                forall|a: int| 0 <= a < next ==> *pool[a] == self.players[a],
            decreases self.players.len() - next,
        {
            pool.push(&self.players[next]);
            next += 1;
        }
        assert(pool.deep_view() =~= self@);
        let slots = least_slots(&pool, num_players as usize);
        let picks = players_in(&pool, &slots);
        assert(is_fair_slots(self@, slots@) && picks.deep_view() == players_at(self@, slots@));
        picks
    }

    /// Sets the games of the player at position `index`, and says whether
    /// the row has such a position. Where it has not, nothing changes.
    pub fn set_player_games(&mut self, index: usize, games: u32) -> (found: bool)
        ensures
            found == (index < old(self)@.len()),
            final(self)@ == if found {
                old(self)@.update(index as int, old(self)@[index as int].with_games(games))
            } else {
                old(self)@
            },
    {
        if index < self.players.len() {
            self.players[index].set_games(games);
            assert(self@ =~= old(self)@.update(
                index as int,
                old(self)@[index as int].with_games(games),
            ));
            true
        } else {
            false
        }
    }

    /// Sets the name of the player at position `index`, and says whether the
    /// row has such a position. Where it has not, nothing changes.
    pub fn set_player_name(&mut self, index: usize, name: &str) -> (found: bool)
        ensures
            found == (index < old(self)@.len()),
            final(self)@ == if found {
                old(self)@.update(index as int, old(self)@[index as int].with_name(name@))
            } else {
                old(self)@
            },
    {
        if index < self.players.len() {
            self.players[index].set_name(name);
            assert(self@ =~= old(self)@.update(
                index as int,
                old(self)@[index as int].with_name(name@),
            ));
            true
        } else {
            false
        }
    }
}

} // verus!
