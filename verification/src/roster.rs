//! The roster keyed by id.

use std::collections::HashMap;
use vstd::prelude::*;
use vstd::std_specs::hash::*;
use vstd::std_specs::iter::IteratorSpec;

use crate::fairness::is_fair_prefix;
use crate::fairness::lemma_fair_slots_of_listing;
use crate::fairness::lists;
use crate::player::Player;
use crate::player::PlayerView;
use crate::selection::least_slots;
use crate::selection::players_in;

verus! {

/// A roster of players, each under the id that it was given when it was
/// added. Ids are given in ascending order, starting at 1, and never twice.
pub struct Picker {
    current_id: u32,
    players: HashMap<u32, Player>,
}

impl View for Picker {
    type V = Map<u32, PlayerView>;

    closed spec fn view(&self) -> Map<u32, PlayerView> {
        self.players@.map_values(|p: Player| p@)
    }
}

impl Picker {
    #[verifier::type_invariant]
    spec fn well_formed(&self) -> bool {
        forall|id: u32| #[trigger]
            self.players@.contains_key(id) ==> self.players@[id].id == id && 1 <= id
                <= self.current_id
    }

    /// The id that was given last; 0 before the first.
    pub closed spec fn last_id(&self) -> u32 {
        self.current_id
    }

    /// A roster without players, in which no id has been given yet.
    pub fn new() -> (picker: Picker)
        ensures
            picker@ == Map::<u32, PlayerView>::empty(),
            picker.last_id() == 0,
    {
        let picker = Picker { current_id: 0, players: HashMap::new() };
        assert(picker@ =~= Map::<u32, PlayerView>::empty());
        picker
    }

    /// The id that was given last; 0 before the first. Every player of the
    /// roster stands under its own id, and under one that was given.
    pub fn current_id(&self) -> (id: u32)
        ensures
            id == self.last_id(),
            self@.dom().finite(),
            forall|held: u32| #[trigger]
                self@.contains_key(held) ==> self@[held].id == held && 1 <= held <= id,
    {
        proof {
            use_type_invariant(self);
            broadcast use group_hash_axioms;
            assert(self@.dom() == self.players@.dom());
        }
        self.current_id
    }

    /// Adds a player under `name`, with no games played, and returns the id
    /// that it was given: the one after the last.
    pub fn add_player(&mut self, name: &str) -> (id: u32)
        requires
            old(self).last_id() < u32::MAX,
        ensures
            id == old(self).last_id() + 1,
            final(self).last_id() == id,
            !old(self)@.contains_key(id),
            final(self)@ == old(self)@.insert(id, PlayerView { id, name: name@, games: 0 }),
    {
        proof {
            use_type_invariant(&*self);
            broadcast use group_hash_axioms;
        }
        let id = self.current_id + 1;
        // The map leaves the roster while it changes, so that the roster is
        // well formed at every moment, whatever a call into the map does.
        let mut players = HashMap::new();
        core::mem::swap(&mut self.players, &mut players);
        players.insert(id, Player { id, name: name.to_string(), games: 0 });
        self.current_id = id;
        core::mem::swap(&mut self.players, &mut players);
        assert(self@ =~= old(self)@.insert(id, PlayerView { id, name: name@, games: 0 }));
        id
    }

    /// Picks the `num_players` players who have played least, the one who
    /// has played least first; all players where the roster holds no more.
    pub fn pick(&self, num_players: u32) -> (picks: Vec<Player>)
        ensures
            picks.len() == if num_players < self@.len() {
                num_players as nat
            } else {
                self@.len()
            },
            is_fair_prefix(self@, picks.deep_view()),
    {
        let pool = self.snapshot();
        let slots = least_slots(&pool, num_players as usize);
        let picks = players_in(&pool, &slots);
        proof {
            lemma_fair_slots_of_listing(self@, pool.deep_view(), slots@);
        }
        picks
    }

    /// All players, the one who has played least first.
    pub fn get_players(&self) -> (players: Vec<Player>)
        ensures
            players.len() == self@.len(),
            is_fair_prefix(self@, players.deep_view()),
    {
        let pool = self.snapshot();
        let slots = least_slots(&pool, pool.len());
        let players = players_in(&pool, &slots);
        proof {
            lemma_fair_slots_of_listing(self@, pool.deep_view(), slots@);
        }
        players
    }

    /// Sets the games of the player with this id, and says whether the
    /// roster holds such a player. Where it does not, nothing changes.
    pub fn set_player_games(&mut self, id: u32, games: u32) -> (found: bool)
        ensures
            found == old(self)@.contains_key(id),
            final(self).last_id() == old(self).last_id(),
            final(self)@ == if found {
                old(self)@.insert(id, old(self)@[id].with_games(games))
            } else {
                old(self)@
            },
    {
        proof {
            use_type_invariant(&*self);
            broadcast use group_hash_axioms;
        }
        let mut players = HashMap::new();
        core::mem::swap(&mut self.players, &mut players);
        let found = match players.remove(&id) {
            Some(mut player) => {
                player.set_games(games);
                players.insert(id, player);
                true
            },
            None => false,
        };
        core::mem::swap(&mut self.players, &mut players);
        proof {
            if found {
                assert(self@ =~= old(self)@.insert(id, old(self)@[id].with_games(games)));
            } else {
                assert(self@ =~= old(self)@);
            }
        }
        found
    }

    /// Sets the name of the player with this id, and says whether the roster
    /// holds such a player. Where it does not, nothing changes.
    pub fn set_player_name(&mut self, id: u32, name: &str) -> (found: bool)
        ensures
            found == old(self)@.contains_key(id),
            final(self).last_id() == old(self).last_id(),
            final(self)@ == if found {
                old(self)@.insert(id, old(self)@[id].with_name(name@))
            } else {
                old(self)@
            },
    {
        proof {
            use_type_invariant(&*self);
            broadcast use group_hash_axioms;
        }
        let mut players = HashMap::new();
        core::mem::swap(&mut self.players, &mut players);
        let found = match players.remove(&id) {
            Some(mut player) => {
                player.set_name(name);
                players.insert(id, player);
                true
            },
            None => false,
        };
        core::mem::swap(&mut self.players, &mut players);
        proof {
            if found {
                assert(self@ =~= old(self)@.insert(id, old(self)@[id].with_name(name@)));
            } else {
                assert(self@ =~= old(self)@);
            }
        }
        found
    }

    /// Removes every player. The ids that were given stay given: the next
    /// player gets the id after the last.
    pub fn clear_players(&mut self)
        ensures
            final(self)@ == Map::<u32, PlayerView>::empty(),
            final(self).last_id() == old(self).last_id(),
    {
        let mut players = HashMap::new();
        core::mem::swap(&mut self.players, &mut players);
        assert(self@ =~= Map::<u32, PlayerView>::empty());
    }

    /// Removes the player with this id, and says whether the roster held
    /// such a player.
    pub fn remove_player(&mut self, id: u32) -> (found: bool)
        ensures
            found == old(self)@.contains_key(id),
            final(self).last_id() == old(self).last_id(),
            final(self)@ == old(self)@.remove(id),
    {
        proof {
            use_type_invariant(&*self);
            broadcast use group_hash_axioms;
        }
        let mut players = HashMap::new();
        core::mem::swap(&mut self.players, &mut players);
        let removed = players.remove(&id);
        core::mem::swap(&mut self.players, &mut players);
        assert(self@ =~= old(self)@.remove(id));
        removed.is_some()
    }

    /// The players of the roster, in the order in which the map hands them
    /// out.
    fn snapshot(&self) -> (pool: Vec<&Player>)
        ensures
            pool.len() == self@.len(),
            lists(pool.deep_view(), self@),
    {
        let ghost items = spec_hash_map_iter(&self.players).remaining();
        let mut pool: Vec<&Player> = Vec::new();
        for entry in entries: self.players.iter()
            invariant
                entries.seq() == items,
                items.no_duplicates(),
                pool.len() == entries.index(),
                forall|a: int| 0 <= a < pool.len() ==> pool[a] == items[a].1,
        {
            pool.push(entry.1);
        }
        proof {
            use_type_invariant(self);
            broadcast use group_hash_axioms;
            let held = self.players@;
            let listed = pool.deep_view();
            assert(self@.dom() == held.dom());
            assert forall|a: int| 0 <= a < pool.len() implies held.contains_key(*items[a].0)
                && held[*items[a].0] == *pool[a] && #[trigger] listed[a] == pool[a]@
                && listed[a].id == *items[a].0 by {
                assert(held.contains_key(*items[a].0) && held[*items[a].0] == *items[a].1);
            }
            assert forall|a: int, b: int| 0 <= a < b < listed.len() implies listed[a].id
                != listed[b].id by {
                if listed[a].id == listed[b].id {
                    assert(items[a] == items[b]);
                }
            }
            assert forall|id: u32| self@.contains_key(id) implies exists|a: int|
                0 <= a < listed.len() && #[trigger] listed[a] == self@[id] by {
                assert(held.contains_key(id));
                assert(items.contains((&id, &held[id])));
                let a = choose|a: int| 0 <= a < items.len() && items[a] == (&id, &held[id]);
                assert(listed[a] == self@[id]);
            }
        }
        pool
    }
}

} // verus!
