//! What a fair pick is.
//!
//! A pick is *fair* when it holds the players who come first in the fairness
//! order, in that order. This file says so twice: for a roster keyed by id,
//! where no two players share an id, and for a pool of players in a row,
//! where they may and their position in the row settles what the order
//! leaves open. For both it proves that a fair pick of a given length is
//! unique, so that the contracts built on them pin their results down.

use vstd::prelude::*;

use crate::player::PlayerView;

verus! {

/// Whether `picks` holds, in the fairness order, the players of `roster` that
/// come first in it: every pick is a player of the roster, the picks ascend
/// strictly, and each player left out comes after every pick.
pub open spec fn is_fair_prefix(roster: Map<u32, PlayerView>, picks: Seq<PlayerView>) -> bool {
    &&& forall|a: int|
        0 <= a < picks.len() ==> roster.contains_key(#[trigger] picks[a].id) && roster[picks[a].id]
            == picks[a]
    &&& forall|a: int, b: int|
        0 <= a < b < picks.len() ==> #[trigger] picks[a].before(#[trigger] picks[b])
    &&& forall|a: int, id: u32|
        0 <= a < picks.len() && roster.contains_key(id) && !picks.contains(roster[id])
            ==> #[trigger] picks[a].before(#[trigger] roster[id])
}

/// Whether the player at position `i` of `pool` is to be picked before the
/// one at position `j`: by the fairness order, and between two players that
/// it does not tell apart, the one that stands first in the pool.
pub open spec fn slot_before(pool: Seq<PlayerView>, i: int, j: int) -> bool {
    pool[i].before(pool[j]) || (!pool[j].before(pool[i]) && i < j)
}

/// Whether `slots` holds, in picking order, the positions of `pool` that are
/// to be picked first: every slot is a position of the pool, the slots ascend
/// strictly in picking order, and each position left out comes after every
/// slot.
pub open spec fn is_fair_slots(pool: Seq<PlayerView>, slots: Seq<usize>) -> bool {
    &&& forall|a: int| 0 <= a < slots.len() ==> #[trigger] slots[a] < pool.len()
    &&& forall|a: int, b: int|
        0 <= a < b < slots.len() ==> slot_before(
            pool,
            #[trigger] slots[a] as int,
            #[trigger] slots[b] as int,
        )
    &&& forall|a: int, j: usize|
        #![trigger slots[a], slots.contains(j)]
        0 <= a < slots.len() && j < pool.len() && !slots.contains(j) ==> slot_before(
            pool,
            slots[a] as int,
            j as int,
        )
}

/// The players of `pool` that stand at `slots`, in the order of the slots.
pub open spec fn players_at(pool: Seq<PlayerView>, slots: Seq<usize>) -> Seq<PlayerView> {
    Seq::new(slots.len(), |a: int| pool[slots[a] as int])
}

/// Whether `pool` lists the players of `roster`, each of them once.
pub open spec fn lists(pool: Seq<PlayerView>, roster: Map<u32, PlayerView>) -> bool {
    &&& forall|a: int|
        0 <= a < pool.len() ==> roster.contains_key(#[trigger] pool[a].id) && roster[pool[a].id]
            == pool[a]
    &&& forall|a: int, b: int| 0 <= a < b < pool.len() ==> pool[a].id != pool[b].id
    &&& forall|id: u32|
        roster.contains_key(id) ==> exists|a: int| 0 <= a < pool.len() && #[trigger] pool[a] == roster[id]
}

/// Picking by slots from a pool that lists a roster is picking from the
/// roster: where no two players share an id, the position in the pool never
/// decides.
pub proof fn lemma_fair_slots_of_listing(
    roster: Map<u32, PlayerView>,
    pool: Seq<PlayerView>,
    slots: Seq<usize>,
)
    requires
        lists(pool, roster),
        pool.len() <= usize::MAX,
        is_fair_slots(pool, slots),
    ensures
        is_fair_prefix(roster, players_at(pool, slots)),
{
    let picks = players_at(pool, slots);
    assert forall|a: int, b: int| 0 <= a < b < picks.len() implies #[trigger] picks[a].before(
        #[trigger] picks[b],
    ) by {
        assert(slot_before(pool, slots[a] as int, slots[b] as int));
    }
    assert forall|a: int, id: u32|
        0 <= a < picks.len() && roster.contains_key(id) && !picks.contains(
            roster[id],
        ) implies #[trigger] picks[a].before(#[trigger] roster[id]) by {
        let j = choose|j: int| 0 <= j < pool.len() && #[trigger] pool[j] == roster[id];
        if slots.contains(j as usize) {
            let b = choose|b: int| 0 <= b < slots.len() && slots[b] == j as usize;
            assert(picks[b] == roster[id]);
        }
        assert(slot_before(pool, slots[a] as int, j as usize as int));
    }
}

/// Two fair picks of the same length from one roster are the same pick: a
/// pick depends on nothing but the roster as it stands and the length asked
/// for, so asking twice gives the same answer.
pub proof fn lemma_fair_prefix_unique(
    roster: Map<u32, PlayerView>,
    first: Seq<PlayerView>,
    second: Seq<PlayerView>,
)
    requires
        is_fair_prefix(roster, first),
        is_fair_prefix(roster, second),
        first.len() == second.len(),
    ensures
        first == second,
{
    lemma_prefixes_agree(roster, first, second, first.len() as int);
    assert(first =~= second);
}

proof fn lemma_prefixes_agree(
    roster: Map<u32, PlayerView>,
    first: Seq<PlayerView>,
    second: Seq<PlayerView>,
    upto: int,
)
    requires
        is_fair_prefix(roster, first),
        is_fair_prefix(roster, second),
        first.len() == second.len(),
        0 <= upto <= first.len(),
    ensures
        forall|a: int| 0 <= a < upto ==> first[a] == second[a],
    decreases upto,
{
    if upto > 0 {
        lemma_prefixes_agree(roster, first, second, upto - 1);
        let a = upto - 1;
        lemma_pick_in_place(roster, first, second, a);
        lemma_pick_in_place(roster, second, first, a);
        assert(roster[first[a].id] == first[a]);
        assert(roster[second[a].id] == second[a]);
    }
}

/// Where two fair picks agree below `a`, the first cannot hold at `a` a
/// player that comes before the one that the second holds there: the second
/// would have left that player out.
proof fn lemma_pick_in_place(
    roster: Map<u32, PlayerView>,
    p: Seq<PlayerView>,
    q: Seq<PlayerView>,
    a: int,
)
    requires
        is_fair_prefix(roster, p),
        is_fair_prefix(roster, q),
        p.len() == q.len(),
        0 <= a < p.len(),
        forall|c: int| 0 <= c < a ==> p[c] == q[c],
    ensures
        !p[a].before(q[a]),
{
    let x = p[a];
    assert(roster.contains_key(x.id) && roster[x.id] == x);
    if !x.before(q[a]) {
    } else if q.contains(x) {
        let b = choose|b: int| 0 <= b < q.len() && q[b] == x;
        if b < a {
            assert(p[b].before(p[a]));
        } else if b > a {
            assert(q[a].before(q[b]));
        }
    } else {
        assert(q[a].before(roster[x.id]));
    }
}

/// Two fair choices of the same number of slots from one pool are the same
/// choice.
pub proof fn lemma_fair_slots_unique(pool: Seq<PlayerView>, first: Seq<usize>, second: Seq<usize>)
    requires
        is_fair_slots(pool, first),
        is_fair_slots(pool, second),
        first.len() == second.len(),
    ensures
        first == second,
{
    lemma_slots_agree(pool, first, second, first.len() as int);
    assert(first =~= second);
}

proof fn lemma_slots_agree(pool: Seq<PlayerView>, first: Seq<usize>, second: Seq<usize>, upto: int)
    requires
        is_fair_slots(pool, first),
        is_fair_slots(pool, second),
        first.len() == second.len(),
        0 <= upto <= first.len(),
    ensures
        forall|a: int| 0 <= a < upto ==> first[a] == second[a],
    decreases upto,
{
    if upto > 0 {
        lemma_slots_agree(pool, first, second, upto - 1);
        let a = upto - 1;
        lemma_slot_in_place(pool, first, second, a);
        lemma_slot_in_place(pool, second, first, a);
    }
}

/// Where two fair choices of slots agree below `a`, the first cannot hold at
/// `a` a slot that comes before the one that the second holds there.
proof fn lemma_slot_in_place(pool: Seq<PlayerView>, p: Seq<usize>, q: Seq<usize>, a: int)
    requires
        is_fair_slots(pool, p),
        is_fair_slots(pool, q),
        p.len() == q.len(),
        0 <= a < p.len(),
        forall|c: int| 0 <= c < a ==> p[c] == q[c],
    ensures
        p[a] == q[a] || !slot_before(pool, p[a] as int, q[a] as int),
{
    let x = p[a];
    if !slot_before(pool, x as int, q[a] as int) {
    } else if q.contains(x) {
        let b = choose|b: int| 0 <= b < q.len() && q[b] == x;
        if b < a {
            assert(slot_before(pool, p[b] as int, p[a] as int));
        } else if b > a {
            assert(slot_before(pool, q[a] as int, q[b] as int));
        }
    } else {
        assert(slot_before(pool, q[a] as int, x as int));
    }
}

} // verus!
