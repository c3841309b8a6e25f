//! The mathematical model of the registry: a sequence of shards, each a
//! finite map from keys to limiters, in which a key lives in one shard at
//! most.

use vstd::prelude::*;

use crate::limiter::DynamicLimiter;
use crate::limiter::Key;

verus! {

/// The registry as the contracts see it, shard by shard.
pub type Shards = Seq<Map<Key, DynamicLimiter>>;

/// `count` shards without an entry.
pub open spec fn empty_shards(count: nat) -> Shards {
    Seq::new(count, |i: int| Map::empty())
}

/// Some shard has an entry for `key`.
pub open spec fn holds(shards: Shards, key: Key) -> bool {
    exists|i: int| 0 <= i < shards.len() && #[trigger] shards[i].contains_key(key)
}

/// Some shard binds `key` to `limiter`.
pub open spec fn holds_pair(shards: Shards, key: Key, limiter: DynamicLimiter) -> bool {
    exists|i: int| 0 <= i < shards.len() && #[trigger] shards[i].contains_pair(key, limiter)
}

/// A shard that has an entry for `key`, where there is one.
pub open spec fn shard_of(shards: Shards, key: Key) -> int {
    choose|i: int| 0 <= i < shards.len() && #[trigger] shards[i].contains_key(key)
}

/// The limiter registered for `key`, where there is one.
pub open spec fn limiter_of(shards: Shards, key: Key) -> DynamicLimiter {
    shards[shard_of(shards, key)][key]
}

/// All entries of the registry as one map.
pub open spec fn entries(shards: Shards) -> Map<Key, DynamicLimiter> {
    Map::new(|key: Key| holds(shards, key), |key: Key| limiter_of(shards, key))
}

/// Every shard is finite and no key has an entry in two shards.
pub open spec fn partitioned(shards: Shards) -> bool {
    &&& forall|i: int| 0 <= i < shards.len() ==> (#[trigger] shards[i]).dom().finite()
    &&& forall|i: int, j: int, key: Key|
        0 <= i < shards.len() && 0 <= j < shards.len() && #[trigger] shards[i].contains_key(key)
            && #[trigger] shards[j].contains_key(key) ==> i == j
}

/// `after` is `before` with `key` bound to `limiter` in shard `i`, which is
/// the shard that had the key's entry before, if any had.
pub open spec fn stored_in(
    before: Shards,
    after: Shards,
    key: Key,
    limiter: DynamicLimiter,
    i: int,
) -> bool {
    &&& 0 <= i < before.len()
    &&& after == before.update(i, before[i].insert(key, limiter))
    &&& forall|j: int| 0 <= j < before.len() && #[trigger] before[j].contains_key(key) ==> j == i
}

/// `after` is `before` with `key` bound to `limiter` in one shard: the one
/// that had the key's entry before, or else whichever the key belongs to.
pub open spec fn stored(before: Shards, after: Shards, key: Key, limiter: DynamicLimiter) -> bool {
    exists|i: int| #[trigger] stored_in(before, after, key, limiter, i)
}

/// The keys of one shard whose limiter nobody holds a slot of or waits
/// for.
pub open spec fn idle_keys(shard: Map<Key, DynamicLimiter>) -> Set<Key> {
    Set::new(|key: Key| shard.contains_key(key) && shard[key].idle())
}

/// The registry after shard `i` lost its idle limiters.
pub open spec fn swept(shards: Shards, i: int) -> Shards {
    shards.update(i, shards[i].remove_keys(idle_keys(shards[i])))
}

/// Every registered limiter has the budget `limit` and keeps within it.
pub open spec fn budgeted(shards: Shards, limit: usize) -> bool {
    forall|i: int, key: Key|
        0 <= i < shards.len() && #[trigger] shards[i].contains_key(key) ==> shards[i][key].limit
            == limit && shards[i][key].wf()
}

/// In a partitioned registry a key's limiter is the one its shard binds
/// it to.
pub proof fn lemma_limiter_of(shards: Shards, key: Key, i: int)
    requires
        partitioned(shards),
        0 <= i < shards.len(),
        shards[i].contains_key(key),
    ensures
        holds(shards, key),
        shard_of(shards, key) == i,
        limiter_of(shards, key) == shards[i][key],
        entries(shards).contains_pair(key, shards[i][key]),
{
}

/// In a partitioned registry a key is bound to one limiter at most.
pub proof fn lemma_holds_pair(shards: Shards, key: Key, limiter: DynamicLimiter)
    requires
        partitioned(shards),
        holds_pair(shards, key, limiter),
    ensures
        entries(shards).contains_pair(key, limiter),
{
    let i = choose|i: int| 0 <= i < shards.len() && #[trigger] shards[i].contains_pair(key, limiter);
    lemma_limiter_of(shards, key, i);
}

/// Binding a key in its shard keeps the registry partitioned and changes
/// the entry of that key alone.
pub proof fn lemma_stored(before: Shards, after: Shards, key: Key, limiter: DynamicLimiter)
    requires
        partitioned(before),
        stored(before, after, key, limiter),
    ensures
        partitioned(after),
        after.len() == before.len(),
        entries(after) == entries(before).insert(key, limiter),
{
    let i = choose|i: int| #[trigger] stored_in(before, after, key, limiter, i);
    assert(after[i].contains_key(key));
    assert forall|a: int, b: int, k: Key|
        0 <= a < after.len() && 0 <= b < after.len() && #[trigger] after[a].contains_key(k)
            && #[trigger] after[b].contains_key(k) implies a == b by {
        if k == key {
            if a != i {
                assert(before[a].contains_key(key));
            }
            if b != i {
                assert(before[b].contains_key(key));
            }
        } else {
            assert(before[a].contains_key(k));
            assert(before[b].contains_key(k));
        }
    }
    assert(partitioned(after));
    lemma_limiter_of(after, key, i);
    assert forall|k: Key| #[trigger] entries(after).contains_key(k) <==> entries(before).insert(
        key,
        limiter,
    ).contains_key(k) by {
        if k != key {
            if holds(before, k) {
                let a = shard_of(before, k);
                assert(after[a].contains_key(k));
            }
            if holds(after, k) {
                let a = shard_of(after, k);
                assert(before[a].contains_key(k));
            }
        }
    }
    assert forall|k: Key| #[trigger] entries(after).contains_key(k) implies entries(after)[k]
        == entries(before).insert(key, limiter)[k] by {
        if k != key {
            let a = shard_of(after, k);
            assert(before[a].contains_key(k));
            lemma_limiter_of(before, k, a);
            lemma_limiter_of(after, k, a);
        }
    }
    assert(entries(after) =~= entries(before).insert(key, limiter));
}

/// Binding a key leaves every other key where it is and as it is.
pub proof fn lemma_stored_leaves_others(
    before: Shards,
    after: Shards,
    bound: Key,
    limiter: DynamicLimiter,
    key: Key,
)
    requires
        stored(before, after, bound, limiter),
        key != bound,
    ensures
        after.len() == before.len(),
        forall|i: int|
            0 <= i < before.len() ==> (#[trigger] after[i]).contains_key(key)
                == before[i].contains_key(key) && after[i][key] == before[i][key],
{
    let at = choose|at: int| #[trigger] stored_in(before, after, bound, limiter, at);
    assert forall|i: int| 0 <= i < before.len() implies (#[trigger] after[i]).contains_key(key)
        == before[i].contains_key(key) && after[i][key] == before[i][key] by {
        if i == at {
            assert(after[i] == before[i].insert(bound, limiter));
        } else {
            assert(after[i] == before[i]);
        }
    }
}

/// Binding a key to the limiter it is bound to changes nothing.
pub proof fn lemma_stored_same(shards: Shards, key: Key, limiter: DynamicLimiter)
    requires
        partitioned(shards),
        entries(shards).contains_pair(key, limiter),
    ensures
        stored(shards, shards, key, limiter),
{
    let i = shard_of(shards, key);
    assert(shards[i].insert(key, limiter) =~= shards[i]);
    assert(shards.update(i, shards[i].insert(key, limiter)) =~= shards);
    assert(stored_in(shards, shards, key, limiter, i));
}

/// Binding a key twice comes to binding it once, to the second limiter.
pub proof fn lemma_stored_twice(
    first: Shards,
    second: Shards,
    third: Shards,
    key: Key,
    earlier: DynamicLimiter,
    later: DynamicLimiter,
)
    requires
        partitioned(first),
        stored(first, second, key, earlier),
        stored(second, third, key, later),
    ensures
        stored(first, third, key, later),
{
    let i = choose|i: int| #[trigger] stored_in(first, second, key, earlier, i);
    let j = choose|j: int| #[trigger] stored_in(second, third, key, later, j);
    assert(second[i].contains_key(key));
    assert(i == j);
    assert(second[i].insert(key, later) =~= first[i].insert(key, later));
    assert(third =~= first.update(i, first[i].insert(key, later)));
    assert(stored_in(first, third, key, later, i));
}

/// Binding a key to a limiter that has the budget and keeps within it
/// leaves every limiter so.
pub proof fn lemma_budgeted_stored(
    before: Shards,
    after: Shards,
    key: Key,
    limiter: DynamicLimiter,
    limit: usize,
)
    requires
        budgeted(before, limit),
        stored(before, after, key, limiter),
        limiter.limit == limit,
        limiter.wf(),
    ensures
        budgeted(after, limit),
{
    let i = choose|i: int| #[trigger] stored_in(before, after, key, limiter, i);
    assert forall|a: int, k: Key| 0 <= a < after.len() && #[trigger] after[a].contains_key(
        k,
    ) implies after[a][k].limit == limit && after[a][k].wf() by {
        if !(a == i && k == key) {
            assert(before[a].contains_key(k));
        }
    }
}

/// Sweeping a shard leaves every limiter with its budget and within it.
pub proof fn lemma_budgeted_swept(shards: Shards, i: int, limit: usize)
    requires
        budgeted(shards, limit),
        0 <= i < shards.len(),
    ensures
        budgeted(swept(shards, i), limit),
{
    let after = swept(shards, i);
    assert forall|a: int, k: Key| 0 <= a < after.len() && #[trigger] after[a].contains_key(
        k,
    ) implies after[a][k].limit == limit && after[a][k].wf() by {
        assert(shards[a].contains_key(k));
    }
}

/// Sweeping a shard keeps the registry partitioned, drops exactly the idle
/// limiters of that shard, and leaves every other entry as it was.
pub proof fn lemma_swept(shards: Shards, i: int)
    requires
        partitioned(shards),
        0 <= i < shards.len(),
    ensures
        partitioned(swept(shards, i)),
        swept(shards, i).len() == shards.len(),
        idle_keys(shards[i]).finite(),
        idle_keys(shards[i]).subset_of(entries(shards).dom()),
        entries(swept(shards, i)) == entries(shards).remove_keys(idle_keys(shards[i])),
{
    let after = swept(shards, i);
    let idle = idle_keys(shards[i]);
    assert(idle.subset_of(shards[i].dom()));
    vstd::set_lib::lemma_len_subset(idle, shards[i].dom());
    assert forall|a: int, b: int, k: Key|
        0 <= a < after.len() && 0 <= b < after.len() && #[trigger] after[a].contains_key(k)
            && #[trigger] after[b].contains_key(k) implies a == b by {
        assert(shards[a].contains_key(k));
        assert(shards[b].contains_key(k));
    }
    assert forall|a: int| 0 <= a < after.len() implies (#[trigger] after[a]).dom().finite() by {
        if a == i {
            assert(after[a].dom() =~= shards[i].dom().difference(idle));
        }
    }
    assert forall|k: Key| idle.contains(k) implies entries(shards).dom().contains(k) by {
        assert(shards[i].contains_key(k));
    }
    assert forall|k: Key| #[trigger] entries(after).contains_key(k) <==> entries(
        shards,
    ).remove_keys(idle).contains_key(k) by {
        if holds(after, k) {
            let a = shard_of(after, k);
            assert(shards[a].contains_key(k));
            if idle.contains(k) {
                assert(shards[i].contains_key(k));
            }
        }
        if holds(shards, k) && !idle.contains(k) {
            let a = shard_of(shards, k);
            assert(after[a].contains_key(k));
        }
    }
    assert forall|k: Key| #[trigger] entries(after).contains_key(k) implies entries(after)[k]
        == entries(shards).remove_keys(idle)[k] by {
        let a = shard_of(after, k);
        assert(shards[a].contains_key(k));
        lemma_limiter_of(shards, k, a);
        lemma_limiter_of(after, k, a);
    }
    assert(entries(after) =~= entries(shards).remove_keys(idle));
}

/// The keys that have an entry in one of the first `count` shards.
pub open spec fn keys_upto(shards: Shards, count: nat) -> Set<Key>
    decreases count,
{
    if count == 0 {
        Set::empty()
    } else {
        keys_upto(shards, (count - 1) as nat).union(shards[count - 1].dom())
    }
}

/// The keys of the first `count` shards are those of these shards, and
/// finitely many.
proof fn lemma_keys_upto(shards: Shards, count: nat)
    requires
        partitioned(shards),
        count <= shards.len(),
    ensures
        keys_upto(shards, count).finite(),
        forall|key: Key|
            keys_upto(shards, count).contains(key) <==> exists|i: int|
                0 <= i < count && #[trigger] shards[i].contains_key(key),
    decreases count,
{
    if count > 0 {
        lemma_keys_upto(shards, (count - 1) as nat);
        vstd::set_lib::lemma_set_union_finite_iff(
            keys_upto(shards, (count - 1) as nat),
            shards[count - 1].dom(),
        );
        assert forall|key: Key| keys_upto(shards, count).contains(key) implies exists|i: int|
            0 <= i < count && #[trigger] shards[i].contains_key(key) by {
            if shards[count - 1].contains_key(key) {
            } else {
                let i = choose|i: int| 0 <= i < count - 1 && #[trigger] shards[i].contains_key(key);
                assert(shards[i].contains_key(key));
            }
        }
    }
}

/// A partitioned registry has finitely many entries.
pub proof fn lemma_entries_finite(shards: Shards)
    requires
        partitioned(shards),
    ensures
        entries(shards).dom().finite(),
{
    lemma_keys_upto(shards, shards.len());
    assert(entries(shards).dom() =~= keys_upto(shards, shards.len()));
}

/// Sweeping a shard takes as many entries from the registry as the shard
/// had idle limiters.
pub proof fn lemma_swept_len(shards: Shards, i: int)
    requires
        partitioned(shards),
        0 <= i < shards.len(),
    ensures
        entries(swept(shards, i)).len() + idle_keys(shards[i]).len() == entries(shards).len(),
{
    let idle = idle_keys(shards[i]);
    let all = entries(shards).dom();
    lemma_swept(shards, i);
    lemma_entries_finite(shards);
    vstd::set_lib::lemma_set_difference_len(all, idle);
    assert(all.intersect(idle) =~= idle);
    assert(entries(swept(shards, i)).dom() =~= all.difference(idle));
}

/// The keys of the whole registry whose limiter nobody holds a slot of or
/// waits for.
pub open spec fn idle_entries(shards: Shards) -> Set<Key> {
    Set::new(|key: Key| entries(shards).contains_key(key) && entries(shards)[key].idle())
}

/// The shard that is swept at tick `tick`, counted from zero, of a walk
/// over `count` shards that began with shard `start`.
pub open spec fn visited(start: nat, tick: nat, count: nat) -> int {
    ((start + tick) % count) as int
}

/// Whether the first `ticks` ticks of such a walk have swept shard `i`.
pub open spec fn swept_by(start: nat, ticks: nat, count: nat, i: int) -> bool {
    exists|tick: nat| tick < ticks && #[trigger] visited(start, tick, count) == i
}

/// The registry after `ticks` sweeps that began with shard `start` and
/// took the shards in turn.
pub open spec fn swept_round(shards: Shards, start: nat, ticks: nat) -> Shards
    decreases ticks,
{
    if ticks == 0 {
        shards
    } else {
        swept(
            swept_round(shards, start, (ticks - 1) as nat),
            visited(start, (ticks - 1) as nat, shards.len()),
        )
    }
}

/// A walk of as many ticks as there are shards sweeps every shard.
pub proof fn lemma_round_visits_all(start: nat, count: nat, i: int)
    requires
        0 <= i < count,
    ensures
        swept_by(start, count, count, i),
{
    let first = start % count;
    let tick: nat = if i >= first {
        (i - first) as nat
    } else {
        (i + count - first) as nat
    };
    let laps = if i >= first {
        start / count
    } else {
        start / count + 1
    };
    vstd::arithmetic::div_mod::lemma_fundamental_div_mod(start as int, count as int);
    assert(start + tick == laps * count + i) by (nonlinear_arith)
        requires
            start == count * (start / count) + first,
            tick == if i >= first {
                i - first
            } else {
                i + count - first
            },
            laps == if i >= first {
                start / count
            } else {
                start / count + 1
            },
    ;
    vstd::arithmetic::div_mod::lemma_fundamental_div_mod_converse(
        (start + tick) as int,
        count as int,
        laps as int,
        i,
    );
    assert(visited(start, tick, count) == i);
}

/// After any number of sweeps in turn, a shard that was swept has lost
/// the limiters that were idle at the start and kept the others as they
/// were, and a shard that was not swept is as it was.
pub proof fn lemma_swept_round(shards: Shards, start: nat, ticks: nat)
    requires
        partitioned(shards),
        shards.len() > 0,
    ensures
        partitioned(swept_round(shards, start, ticks)),
        swept_round(shards, start, ticks).len() == shards.len(),
        forall|i: int|
            0 <= i < shards.len() ==> #[trigger] swept_round(shards, start, ticks)[i] == if swept_by(
                start,
                ticks,
                shards.len(),
                i,
            ) {
                shards[i].remove_keys(idle_keys(shards[i]))
            } else {
                shards[i]
            },
    decreases ticks,
{
    if ticks > 0 {
        let earlier = (ticks - 1) as nat;
        let before = swept_round(shards, start, earlier);
        let after = swept_round(shards, start, ticks);
        let turn = visited(start, earlier, shards.len());
        lemma_swept_round(shards, start, earlier);
        lemma_swept(before, turn);
        assert forall|i: int| 0 <= i < shards.len() implies #[trigger] after[i] == if swept_by(
            start,
            ticks,
            shards.len(),
            i,
        ) {
            shards[i].remove_keys(idle_keys(shards[i]))
        } else {
            shards[i]
        } by {
            if i == turn {
                assert(swept_by(start, ticks, shards.len(), i));
                assert(after[i] =~= shards[i].remove_keys(idle_keys(shards[i])));
            } else {
                if swept_by(start, ticks, shards.len(), i) {
                    let tick = choose|tick: nat|
                        tick < ticks && #[trigger] visited(start, tick, shards.len()) == i;
                    assert(tick < earlier);
                    assert(swept_by(start, earlier, shards.len(), i));
                }
                if swept_by(start, earlier, shards.len(), i) {
                    let tick = choose|tick: nat|
                        tick < earlier && #[trigger] visited(start, tick, shards.len()) == i;
                    assert(tick < ticks);
                }
            }
        }
    }
}

} // verus!
