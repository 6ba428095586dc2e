//! What holds of every fair pick from a roster, whatever the roster and
//! however it came to be.

use vstd::prelude::*;

use crate::fairness::is_fair_prefix;
use crate::fairness::lemma_fair_prefix_unique;
use crate::player::PlayerView;

verus! {

/// A fair pick is never longer than the roster: it holds each of its players
/// once.
pub proof fn lemma_pick_fits_roster(roster: Map<u32, PlayerView>, picks: Seq<PlayerView>)
    requires
        roster.dom().finite(),
        is_fair_prefix(roster, picks),
    ensures
        picks.len() <= roster.len(),
        forall|a: int, b: int| 0 <= a < b < picks.len() ==> picks[a].id != picks[b].id,
    decreases picks.len(),
{
    assert forall|a: int, b: int| 0 <= a < b < picks.len() implies picks[a].id
        != picks[b].id by {
        assert(picks[a].before(picks[b]));
        assert(roster[picks[a].id] == picks[a]);
        assert(roster[picks[b].id] == picks[b]);
    }
    if picks.len() > 0 {
        let last = picks.last();
        let rest = picks.drop_last();
        let fewer = roster.remove(last.id);
        assert(roster.contains_key(last.id) && roster[last.id] == last);
        assert forall|a: int| 0 <= a < rest.len() implies fewer.contains_key(
            #[trigger] rest[a].id,
        ) && fewer[rest[a].id] == rest[a] by {
            assert(rest[a] == picks[a]);
            assert(picks[a].before(picks[picks.len() - 1]));
        }
        assert forall|a: int, b: int| 0 <= a < b < rest.len() implies #[trigger] rest[a].before(
            #[trigger] rest[b],
        ) by {
            assert(picks[a].before(picks[b]));
        }
        assert forall|a: int, id: u32|
            0 <= a < rest.len() && fewer.contains_key(id) && !rest.contains(
                fewer[id],
            ) implies #[trigger] rest[a].before(#[trigger] fewer[id]) by {
            assert(rest[a] == picks[a]);
            if picks.contains(roster[id]) {
                let at = choose|at: int| 0 <= at < picks.len() && picks[at] == roster[id];
                if at < rest.len() {
                    assert(rest[at] == roster[id]);
                }
            } else {
                assert(picks[a].before(roster[id]));
            }
        }
        lemma_pick_fits_roster(fewer, rest);
    }
}

/// Between two picked players with the same number of games, the one with
/// the lower id stands first.
pub proof fn lemma_equal_games_go_by_id(
    roster: Map<u32, PlayerView>,
    picks: Seq<PlayerView>,
    a: int,
    b: int,
)
    requires
        is_fair_prefix(roster, picks),
        0 <= a < picks.len(),
        0 <= b < picks.len(),
        picks[a].games == picks[b].games,
        picks[a].id < picks[b].id,
    ensures
        a < b,
{
    if b < a {
        assert(picks[b].before(picks[a]));
    }
}

/// Where one of two players has played less, or as much under a lower id,
/// and the other is picked, the first is picked too and stands before it.
pub proof fn lemma_earlier_player_is_picked_first(
    roster: Map<u32, PlayerView>,
    picks: Seq<PlayerView>,
    id: u32,
    b: int,
)
    requires
        is_fair_prefix(roster, picks),
        roster.contains_key(id),
        0 <= b < picks.len(),
        roster[id].before(picks[b]),
    ensures
        exists|a: int| 0 <= a < b && picks[a] == roster[id],
{
    if picks.contains(roster[id]) {
        let a = choose|a: int| 0 <= a < picks.len() && picks[a] == roster[id];
        if b < a {
            assert(picks[b].before(picks[a]));
        }
        assert(0 <= a < b && picks[a] == roster[id]);
    } else {
        assert(picks[b].before(roster[id]));
    }
}

/// After the games of a player have been set, where it stands among the
/// picks goes by the games that it has now: it stands before exactly those
/// picks that it now comes before in the fairness order.
pub proof fn lemma_rank_goes_by_games_now(
    roster: Map<u32, PlayerView>,
    id: u32,
    games: u32,
    picks: Seq<PlayerView>,
    a: int,
    b: int,
)
    requires
        roster.contains_key(id),
        roster[id].id == id,
        is_fair_prefix(roster.insert(id, roster[id].with_games(games)), picks),
        0 <= a < picks.len(),
        0 <= b < picks.len(),
        a != b,
        picks[a].id == id,
    ensures
        picks[a] == roster[id].with_games(games),
        a < b <==> roster[id].with_games(games).before(picks[b]),
{
    let after = roster.insert(id, roster[id].with_games(games));
    assert(after[picks[a].id] == picks[a]);
    if a < b {
        assert(picks[a].before(picks[b]));
    } else {
        assert(picks[b].before(picks[a]));
    }
}

/// The games that a player had before they were set leave no trace: two
/// rosters that differ in nothing but those games give the same picks once
/// they are set to the same number.
pub proof fn lemma_former_games_are_forgotten(
    one: Map<u32, PlayerView>,
    other: Map<u32, PlayerView>,
    id: u32,
    games: u32,
    first: Seq<PlayerView>,
    second: Seq<PlayerView>,
)
    requires
        one.contains_key(id),
        other.contains_key(id),
        one.remove(id) == other.remove(id),
        one[id].with_games(games) == other[id].with_games(games),
        is_fair_prefix(one.insert(id, one[id].with_games(games)), first),
        is_fair_prefix(other.insert(id, other[id].with_games(games)), second),
        first.len() == second.len(),
    ensures
        first == second,
{
    let set = one[id].with_games(games);
    assert(one.insert(id, set) =~= one.remove(id).insert(id, set));
    assert(other.insert(id, set) =~= other.remove(id).insert(id, set));
    lemma_fair_prefix_unique(one.insert(id, set), first, second);
}

/// A player that has been removed is not picked.
pub proof fn lemma_removed_player_is_not_picked(
    roster: Map<u32, PlayerView>,
    id: u32,
    picks: Seq<PlayerView>,
)
    requires
        is_fair_prefix(roster.remove(id), picks),
    ensures
        forall|a: int| 0 <= a < picks.len() ==> #[trigger] picks[a].id != id,
{
    assert forall|a: int| 0 <= a < picks.len() implies #[trigger] picks[a].id != id by {
        assert(roster.remove(id).contains_key(picks[a].id));
    }
}

/// From a roster without players nothing is picked.
pub proof fn lemma_nothing_is_picked_from_empty_roster(picks: Seq<PlayerView>)
    requires
        is_fair_prefix(Map::<u32, PlayerView>::empty(), picks),
    ensures
        picks == Seq::<PlayerView>::empty(),
{
    if picks.len() > 0 {
        assert(Map::<u32, PlayerView>::empty().contains_key(picks[0].id));
    }
    assert(picks =~= Seq::<PlayerView>::empty());
}

} // verus!
