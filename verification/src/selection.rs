//! Choosing the slots of a pool that are to be picked first.
//!
//! The slots of the pool are laid out as a binary heap, the slot that is to
//! be picked first on top, and taken off the top one by one. Building the
//! heap takes time in proportion to the pool, each pick time in proportion
//! to the logarithm of what is left.

use vstd::prelude::*;

use crate::fairness::is_fair_slots;
use crate::fairness::players_at;
use crate::fairness::slot_before;
use crate::player::Player;
use crate::player::PlayerView;

verus! {

/// Whether the player at slot `i` of `pool` is to be picked before the one
/// at slot `j`.
pub fn comes_before(pool: &Vec<&Player>, i: usize, j: usize) -> (before: bool)
    requires
        i < pool.len(),
        j < pool.len(),
    ensures
        before == slot_before(pool.deep_view(), i as int, j as int),
{
    let a = pool[i];
    let b = pool[j];
    a.games < b.games || (a.games == b.games && (a.id < b.id || (a.id == b.id && i < j)))
}

/// Whether position `child` of a heap hangs directly under position
/// `parent`.
spec fn is_under(parent: int, child: int) -> bool {
    child == 2 * parent + 1 || child == 2 * parent + 2
}

/// Whether `heap` is in heap order at every position from `top` on: no slot
/// comes before the slot that it hangs under.
spec fn heap_from(pool: Seq<PlayerView>, heap: Seq<usize>, top: int) -> bool {
    forall|parent: int, child: int|
        #![trigger heap[parent], heap[child]]
        top <= parent && is_under(parent, child) && child < heap.len() ==> !slot_before(
            pool,
            heap[child] as int,
            heap[parent] as int,
        )
}

/// Whether every slot in `slots` is a position of a pool of this size.
spec fn within(slots: Seq<usize>, size: nat) -> bool {
    forall|a: int| 0 <= a < slots.len() ==> #[trigger] slots[a] < size
}

/// In a heap that is in order throughout, no slot comes before the one on
/// top.
proof fn lemma_top_is_least(pool: Seq<PlayerView>, heap: Seq<usize>, at: int)
    requires
        heap_from(pool, heap, 0),
        0 <= at < heap.len(),
    ensures
        !slot_before(pool, heap[at] as int, heap[0] as int),
    decreases at,
{
    if at > 0 {
        let parent = (at - 1) / 2;
        assert(is_under(parent, at));
        lemma_top_is_least(pool, heap, parent);
        assert(!slot_before(pool, heap[at] as int, heap[parent] as int));
    }
}

/// Exchanging two slots keeps the slots that a sequence holds, and keeps it
/// free of duplicates.
proof fn lemma_exchange(before: Seq<usize>, i: int, j: int)
    requires
        0 <= i < before.len(),
        0 <= j < before.len(),
    ensures
        forall|x: usize|
            before.update(i, before[j]).update(j, before[i]).contains(x) == before.contains(x),
        before.no_duplicates() ==> before.update(i, before[j]).update(j, before[i]).no_duplicates(),
{
    let after = before.update(i, before[j]).update(j, before[i]);
    assert forall|x: usize| after.contains(x) == before.contains(x) by {
        if before.contains(x) {
            let at = choose|at: int| 0 <= at < before.len() && before[at] == x;
            let to = if at == i {
                j
            } else if at == j {
                i
            } else {
                at
            };
            assert(after[to] == x);
        }
        if after.contains(x) {
            let at = choose|at: int| 0 <= at < after.len() && after[at] == x;
            let from = if at == i {
                j
            } else if at == j {
                i
            } else {
                at
            };
            assert(before[from] == x);
        }
    }
}

/// Taking the top off a heap that holds no slot twice, and putting the last
/// slot in its place, leaves the other slots, none of them twice.
proof fn lemma_top_taken(before: Seq<usize>)
    requires
        before.len() > 0,
        before.no_duplicates(),
    ensures
        before.update(0, before.last()).drop_last().no_duplicates(),
        forall|x: usize|
            before.update(0, before.last()).drop_last().contains(x) == (before.contains(x) && x
                != before[0]),
{
    let after = before.update(0, before.last()).drop_last();
    let last = before.len() - 1;
    assert forall|x: usize| after.contains(x) == (before.contains(x) && x != before[0]) by {
        if before.contains(x) && x != before[0] {
            let at = choose|at: int| 0 <= at < before.len() && before[at] == x;
            let to = if at == last {
                0
            } else {
                at
            };
            assert(after[to] == x);
        }
        if after.contains(x) {
            let at = choose|at: int| 0 <= at < after.len() && after[at] == x;
            let from = if at == 0 {
                last
            } else {
                at
            };
            assert(before[from] == x);
        }
    }
}

/// Lets the slot at `top` sink to its place, in a heap that is in order
/// below `top`.
fn sift_down(pool: &Vec<&Player>, heap: &mut Vec<usize>, top: usize)
    requires
        top < old(heap).len(),
        within(old(heap)@, pool.deep_view().len()),
        heap_from(pool.deep_view(), old(heap)@, top + 1),
    ensures
        final(heap).len() == old(heap).len(),
        within(final(heap)@, pool.deep_view().len()),
        heap_from(pool.deep_view(), final(heap)@, top as int),
        forall|x: usize| final(heap)@.contains(x) == old(heap)@.contains(x),
        old(heap)@.no_duplicates() ==> final(heap)@.no_duplicates(),
{
    let ghost players = pool.deep_view();
    let ghost mut above: int = 0;
    let size = heap.len();
    let mut at = top;
    let mut settled = false;
    while !settled && at < size / 2
        invariant
            top <= at < size,
            heap.len() == size,
            size == old(heap).len(),
            players == pool.deep_view(),
            players.len() == pool.len(),
            within(heap@, players.len()),
            forall|x: usize| heap@.contains(x) == old(heap)@.contains(x),
            old(heap)@.no_duplicates() ==> heap@.no_duplicates(),
            at > top ==> top <= above && is_under(above, at as int),
            forall|parent: int, child: int|
                #![trigger heap[parent], heap[child]]
                top <= parent && parent != at && is_under(parent, child) && child < size
                    ==> !slot_before(players, heap[child] as int, heap[parent] as int),
            forall|child: int|
                at > top && is_under(at as int, child) && child < size ==> !slot_before(
                    players,
                    #[trigger] heap[child] as int,
                    heap[above] as int,
                ),
            settled ==> forall|child: int|
                is_under(at as int, child) && child < size ==> !slot_before(
                    players,
                    #[trigger] heap[child] as int,
                    heap[at as int] as int,
                ),
        decreases size - at + if settled { 0int } else { 1int },
    {
        let left = 2 * at + 1;
        let right = left + 1;
        let mut least = left;
        if right < size && comes_before(pool, heap[right], heap[left]) {
            least = right;
        }
        if comes_before(pool, heap[least], heap[at]) {
            let ghost before = heap@;
            let sinking = heap[at];
            let rising = heap[least];
            heap.set(at, rising);
            heap.set(least, sinking);
            proof {
                lemma_exchange(before, at as int, least as int);
                assert(heap@ == before.update(at as int, before[least as int]).update(
                    least as int,
                    before[at as int],
                ));
                above = at as int;
            }
            at = least;
        } else {
            settled = true;
        }
    }
}

/// The slots of the `count` players of `pool` that are to be picked first,
/// in picking order; all of its slots where it holds no more than `count`.
pub fn least_slots(pool: &Vec<&Player>, count: usize) -> (slots: Vec<usize>)
    ensures
        slots.len() == if count < pool.len() {
            count
        } else {
            pool.len()
        },
        is_fair_slots(pool.deep_view(), slots@),
{
    let ghost players = pool.deep_view();
    let size = pool.len();
    let wanted = if count < size {
        count
    } else {
        size
    };
    let mut heap: Vec<usize> = Vec::new();
    let mut next: usize = 0;
    while next < size
        invariant
            next <= size,
            heap.len() == next,
            forall|a: int| 0 <= a < next ==> heap[a] == a,
        decreases size - next,
    {
        heap.push(next);
        next += 1;
    }
    proof {
        assert forall|j: usize| j < size implies heap@.contains(j) by {
            assert(heap@[j as int] == j);
        }
    }
    let mut top = size / 2;
    while top > 0
        invariant
            top <= size / 2,
            size == pool.len(),
            players == pool.deep_view(),
            heap.len() == size,
            within(heap@, players.len()),
            heap@.no_duplicates(),
            forall|j: usize| j < size ==> heap@.contains(j),
            heap_from(players, heap@, top as int),
        decreases top,
    {
        top -= 1;
        sift_down(pool, &mut heap, top);
    }
    let mut slots: Vec<usize> = Vec::new();
    while slots.len() < wanted
        invariant
            slots.len() <= wanted <= size,
            size == pool.len(),
            players == pool.deep_view(),
            heap.len() + slots.len() == size,
            within(heap@, players.len()),
            within(slots@, players.len()),
            heap@.no_duplicates(),
            heap_from(players, heap@, 0),
            forall|j: usize| j < size ==> heap@.contains(j) || slots@.contains(j),
            forall|a: int, b: int|
                0 <= a < b < slots.len() ==> slot_before(
                    players,
                    #[trigger] slots[a] as int,
                    #[trigger] slots[b] as int,
                ),
            forall|a: int, x: usize|
                #![trigger slots[a], heap@.contains(x)]
                0 <= a < slots.len() && heap@.contains(x) ==> slot_before(
                    players,
                    slots[a] as int,
                    x as int,
                ),
        decreases wanted - slots.len(),
    {
        let ghost before = heap@;
        let ghost picked = slots@;
        let least = heap.swap_remove(0);
        proof {
            lemma_top_taken(before);
            assert forall|x: usize| heap@.contains(x) implies slot_before(
                players,
                least as int,
                x as int,
            ) by {
                let at = choose|at: int| 0 <= at < before.len() && before[at] == x;
                lemma_top_is_least(players, before, at);
            }
            assert(before.contains(least));
        }
        if heap.len() > 0 {
            sift_down(pool, &mut heap, 0);
        }
        slots.push(least);
        proof {
            assert forall|j: usize| j < size implies heap@.contains(j) || slots@.contains(j) by {
                if j == least {
                    assert(slots@[picked.len() as int] == j);
                } else if picked.contains(j) {
                    let at = choose|at: int| 0 <= at < picked.len() && picked[at] == j;
                    assert(slots@[at] == j);
                }
            }
        }
    }
    proof {
        assert forall|a: int, j: usize|
            #![trigger slots@[a], slots@.contains(j)]
            0 <= a < slots@.len() && j < players.len() && !slots@.contains(j) implies slot_before(
            players,
            slots@[a] as int,
            j as int,
        ) by {
            assert(heap@.contains(j));
        }
    }
    slots
}

/// Copies of the players that stand at `slots` in `pool`, in the order of
/// the slots.
pub fn players_in(pool: &Vec<&Player>, slots: &Vec<usize>) -> (picks: Vec<Player>)
    requires
        forall|a: int| 0 <= a < slots.len() ==> #[trigger] slots[a] < pool.len(),
    ensures
        picks.len() == slots.len(),
        picks.deep_view() == players_at(pool.deep_view(), slots@),
{
    let mut picks: Vec<Player> = Vec::new();
    let mut next: usize = 0;
    while next < slots.len()
        invariant
            next <= slots.len(),
            picks.len() == next,
            forall|a: int| 0 <= a < slots.len() ==> #[trigger] slots[a] < pool.len(),
            forall|a: int| 0 <= a < next ==> picks[a]@ == pool[slots[a] as int]@,
        decreases slots.len() - next,
    {
        picks.push(pool[slots[next]].clone());
        next += 1;
    }
    assert(picks.deep_view() =~= players_at(pool.deep_view(), slots@));
    picks
}

} // verus!
