//! Equality and order of players.
//!
//! Two players are equal when they have the same id, whatever their names
//! and games. They are ordered by games and then by id. The two diverge on
//! purpose: players with different ids are never equal, and are never
//! ordered as equal either, but a player compared with a stale copy of
//! itself is equal to it and may still be ordered before or after it.

use core::cmp::Ordering;
use vstd::prelude::*;
use vstd::std_specs::cmp::PartialEqSpecImpl;
use vstd::std_specs::cmp::PartialOrdSpecImpl;

use crate::player::Player;
use crate::player::PlayerView;

verus! {

/// How `a` stands to `b` in the fairness order.
pub open spec fn fair_ordering(a: PlayerView, b: PlayerView) -> Ordering {
    if a.before(b) {
        Ordering::Less
    } else if b.before(a) {
        Ordering::Greater
    } else {
        Ordering::Equal
    }
}

impl PartialEq for Player {
    fn eq(&self, other: &Player) -> (same: bool) {
        self.id == other.id
    }
}

impl PartialEqSpecImpl for Player {
    open spec fn obeys_eq_spec() -> bool {
        true
    }

    open spec fn eq_spec(&self, other: &Player) -> bool {
        self.id == other.id
    }
}

impl Eq for Player {

}

impl PartialOrd for Player {
    fn partial_cmp(&self, other: &Player) -> (order: Option<Ordering>) {
        Some(self.cmp(other))
    }
}

impl PartialOrdSpecImpl for Player {
    open spec fn obeys_partial_cmp_spec() -> bool {
        true
    }

    open spec fn partial_cmp_spec(&self, other: &Player) -> Option<Ordering> {
        Some(fair_ordering(self@, other@))
    }
}

impl Player {
    /// Compares two players in the fairness order.
    pub fn cmp(&self, other: &Player) -> (order: Ordering)
        ensures
            order == fair_ordering(self@, other@),
    {
        if self.games > other.games {
            Ordering::Greater
        } else if self.games < other.games {
            Ordering::Less
        } else if self.id < other.id {
            Ordering::Less
        } else if self.id > other.id {
            Ordering::Greater
        } else {
            Ordering::Equal
        }
    }
}

} // verus!
