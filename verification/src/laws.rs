//! What holds of the controller whatever it is asked to do, stated over
//! the relations that the contracts of its functions use.

use vstd::prelude::*;

use crate::limiter::DynamicLimiter;
use crate::limiter::Key;
use crate::limiter::Outcome;
use crate::locks::next_shard;
use crate::locks::turn_of;
use crate::locks::Admission;
use crate::error::ApiLockError;
use crate::locks::ApiLocksView;
use crate::locks::Verdict;
use crate::metrics::saturated;
use crate::metrics::Nanos;
use crate::shards::entries;
use crate::shards::holds;
use crate::shards::idle_entries;
use crate::shards::idle_keys;
use crate::shards::lemma_entries_finite;
use crate::shards::lemma_limiter_of;
use crate::shards::lemma_round_visits_all;
use crate::shards::lemma_stored_leaves_others;
use crate::shards::lemma_swept_len;
use crate::shards::lemma_swept_round;
use crate::shards::shard_of;
use crate::shards::swept;
use crate::shards::swept_by;
use crate::shards::swept_round;
use crate::shards::visited;

verus! {

/// What a request on a key comes to is settled by the configuration and by
/// the limiter of that key: two controllers that agree on these answer
/// alike, whatever the limiters of other keys are at.
pub proof fn law_verdict_by_own_limiter(
    one: ApiLocksView,
    other: ApiLocksView,
    key: Key,
    waited: Nanos,
)
    requires
        one.config == other.config,
        one.timeout == other.timeout,
        one.limiter(key) == other.limiter(key),
    ensures
        one.verdict(key, waited) == other.verdict(key, waited),
{
}

/// Keys do not stand in each other's way: a request for a permit on one
/// key leaves the limiter of every other key as it was, and with it what a
/// request on that other key comes to.
pub proof fn law_request_leaves_other_keys(
    before: ApiLocksView,
    after: ApiLocksView,
    requested: Key,
    waited: Nanos,
    pending: bool,
    result: Result<Admission, ApiLockError>,
    key: Key,
)
    requires
        before.wf(),
        before.admitted(after, requested, waited, pending, result),
        key != requested,
    ensures
        after.entries().contains_key(key) == before.entries().contains_key(key),
        after.limiter(key) == before.limiter(key),
        forall|later: Nanos| after.verdict(key, later) == before.verdict(key, later),
{
}

/// Keys do not stand in each other's way: a permit that comes back leaves
/// the limiter of every key but its own as it was, and with it what a
/// request on such a key comes to.
pub proof fn law_release_leaves_other_keys(
    before: ApiLocksView,
    after: ApiLocksView,
    holder: Option<Key>,
    outcome: Outcome,
    key: Key,
)
    requires
        before.wf(),
        before.released(after, holder, outcome),
        holder != Some(key),
    ensures
        after.entries().contains_key(key) == before.entries().contains_key(key),
        after.limiter(key) == before.limiter(key),
        forall|later: Nanos| after.verdict(key, later) == before.verdict(key, later),
{
}

/// A limiter never has more permits outstanding than its budget, which is
/// the configured one.
pub proof fn law_admission_bound(state: ApiLocksView, key: Key)
    requires
        state.wf(),
        state.entries().contains_key(key),
    ensures
        state.entries()[key].limit == state.config.initial_limit,
        state.entries()[key].in_flight <= state.entries()[key].limit,
{
    lemma_limiter_of(state.shards, key, shard_of(state.shards, key));
}

/// A permit on a key is granted only while its limiter has a slot free,
/// and takes exactly one slot.
pub proof fn law_grant_takes_one_slot(
    before: ApiLocksView,
    after: ApiLocksView,
    key: Key,
    waited: Nanos,
    pending: bool,
    result: Result<Admission, ApiLockError>,
)
    requires
        before.wf(),
        before.admitted(after, key, waited, pending, result),
        result matches Ok(Admission::Granted(permit)) && permit@ == Some(key),
    ensures
        before.limiter(key).in_flight < before.limiter(key).limit,
        after.entries().contains_key(key),
        after.entries()[key].in_flight == before.limiter(key).in_flight + 1,
        after.entries()[key].limit == before.limiter(key).limit,
{
}

/// A slot is taken for as long as its permit is out: once the permit has
/// come back, the limiter has as many slots taken as before the permit was
/// granted, and has heard the verdict that came with it.
pub proof fn law_release_returns_the_slot(
    before: ApiLocksView,
    held: ApiLocksView,
    after: ApiLocksView,
    key: Key,
    waited: Nanos,
    pending: bool,
    result: Result<Admission, ApiLockError>,
    outcome: Outcome,
)
    requires
        before.wf(),
        before.admitted(held, key, waited, pending, result),
        result matches Ok(Admission::Granted(permit)) && permit@ == Some(key),
        held.released(after, Some(key), outcome),
    ensures
        held.entries().contains_key(key),
        held.entries()[key].in_flight == before.limiter(key).in_flight + 1,
        after.entries().contains_key(key),
        after.entries()[key].in_flight == before.limiter(key).in_flight,
        after.entries()[key].limit == before.limiter(key).limit,
        after.entries()[key].last_outcome == Some(outcome),
{
}

/// With admission control off, a request never waits and never fails: it
/// is answered at once with a permit that claims no slot, and leaves no
/// trace.
pub proof fn law_disabled_never_waits(
    before: ApiLocksView,
    after: ApiLocksView,
    key: Key,
    waited: Nanos,
    pending: bool,
    result: Result<Admission, ApiLockError>,
)
    requires
        before.disabled(),
        before.admitted(after, key, waited, pending, result),
    ensures
        result matches Ok(Admission::Granted(permit)) && permit@ is None,
        after == before,
{
}

/// A key has one limiter: asking for it again gives the same limiter and
/// changes nothing.
pub proof fn law_one_limiter_per_key(
    before: ApiLocksView,
    once: ApiLocksView,
    twice: ApiLocksView,
    key: Key,
)
    requires
        before.wf(),
        before.resolved(once, key),
        once.resolved(twice, key),
    ensures
        once.entries().contains_key(key),
        once.limiter(key) == before.limiter(key),
        twice.limiter(key) == once.limiter(key),
        twice == once,
{
}

/// A request that has waited out the configured time on a key without a
/// free slot fails with a timeout, and the time it waited is recorded. It
/// leaves no trace in the registry: a request that was counted as waiting
/// is counted no longer, and one that asked for the first time changes
/// nothing.
pub proof fn law_timeout_is_recorded(
    before: ApiLocksView,
    after: ApiLocksView,
    key: Key,
    waited: Nanos,
    pending: bool,
    result: Result<Admission, ApiLockError>,
)
    requires
        before.wf(),
        !before.disabled(),
        before.limiter(key).in_flight >= before.limiter(key).limit,
        waited >= before.timeout,
        before.admitted(after, key, waited, pending, result),
    ensures
        result == Err::<Admission, ApiLockError>(ApiLockError::TimeoutError),
        after.metrics == before.metrics.acquired(waited),
        after.entries() == before.entries().insert(key, before.asked(key, pending)),
        !pending ==> after.shards == before.shards,
        pending ==> after.limiter(key) == before.limiter(key).resumed(),
{
}

/// A request that is told to wait is counted by the limiter of its key,
/// which is therefore not idle, and gets a lease for that key.
pub proof fn law_waiting_is_recorded(
    before: ApiLocksView,
    after: ApiLocksView,
    key: Key,
    waited: Nanos,
    result: Result<Admission, ApiLockError>,
)
    requires
        before.wf(),
        before.admitted(after, key, waited, false, result),
        result matches Ok(Admission::Wait { .. }),
    ensures
        result matches Ok(Admission::Wait { remaining, lease }) && lease@ == key && remaining
            == before.timeout - waited,
        after.entries().contains_key(key),
        after.entries()[key] == before.limiter(key).queued(),
        after.entries()[key].waiting > 0,
        !after.entries()[key].idle(),
{
}

/// A request stays counted for as long as it waits: one that comes back
/// with its lease and is told to wait again leaves the count as it found
/// it, unless the count was lost.
pub proof fn law_waiting_stays_recorded(
    before: ApiLocksView,
    after: ApiLocksView,
    key: Key,
    waited: Nanos,
    result: Result<Admission, ApiLockError>,
)
    requires
        before.wf(),
        before.admitted(after, key, waited, true, result),
        result matches Ok(Admission::Wait { .. }),
    ensures
        after.entries().contains_key(key),
        after.entries()[key].waiting > 0,
        before.limiter(key).waiting > 0 ==> after.entries() == before.entries(),
{
    if before.limiter(key).waiting > 0 {
        assert(before.limiter(key).resumed().queued() == before.limiter(key));
        assert(after.entries() =~= before.entries());
    }
}

/// The count of a waiting request goes when the request is granted, when
/// it times out, and when it gives up.
pub proof fn law_lease_goes_back(
    before: ApiLocksView,
    after: ApiLocksView,
    key: Key,
    waited: Nanos,
    result: Result<Admission, ApiLockError>,
    gave_up: bool,
)
    requires
        before.wf(),
        before.entries().contains_key(key),
        before.entries()[key].waiting > 0,
        if gave_up {
            before.abandoned(after, key)
        } else {
            before.admitted(after, key, waited, true, result) && !(result matches Ok(
                Admission::Wait { .. },
            ))
        },
        gave_up || !before.disabled(),
    ensures
        after.entries().contains_key(key),
        after.entries()[key].waiting == before.entries()[key].waiting - 1,
{
}

/// `trace` is what the reclamation worker makes of a controller that
/// nothing else touches: each state follows from the one before by one
/// turn of the worker, which is handed the shard of `cursors` at the same
/// index and hands on the next.
pub open spec fn worker_run(trace: Seq<ApiLocksView>, cursors: Seq<usize>) -> bool {
    &&& trace.len() > 0
    &&& trace.len() == cursors.len()
    &&& forall|turn: int|
        0 <= turn < trace.len() - 1 ==> #[trigger] trace[turn].worked(
            trace[turn + 1],
            cursors[turn],
            Some(cursors[turn + 1]),
        )
}

/// The worker takes the shards in turn: after `turn` turns the registry is
/// the one it began with, swept `turn` times round from the first shard.
proof fn lemma_worker_run(trace: Seq<ApiLocksView>, cursors: Seq<usize>, turn: nat)
    requires
        worker_run(trace, cursors),
        trace[0].wf(),
        !trace[0].disabled(),
        turn < trace.len(),
    ensures
        trace[turn as int].config == trace[0].config,
        trace[turn as int].shards == swept_round(
            trace[0].shards,
            turn_of(cursors[0], trace[0].shards.len()) as nat,
            turn,
        ),
        turn_of(cursors[turn as int], trace[0].shards.len()) == visited(
            turn_of(cursors[0], trace[0].shards.len()) as nat,
            turn,
            trace[0].shards.len(),
        ),
    decreases turn,
{
    let count = trace[0].shards.len();
    let start = turn_of(cursors[0], count) as nat;
    if turn == 0 {
        vstd::arithmetic::div_mod::lemma_mod_twice(cursors[0] as int, count as int);
    } else {
        let earlier = (turn - 1) as nat;
        lemma_worker_run(trace, cursors, earlier);
        lemma_swept_round(trace[0].shards, start, earlier);
        assert(trace[earlier as int].worked(
            trace[earlier as int + 1],
            cursors[earlier as int],
            Some(cursors[earlier as int + 1]),
        ));
        let here = turn_of(cursors[earlier as int], count);
        assert(cursors[turn as int] == next_shard(here, count));
        vstd::arithmetic::div_mod::lemma_mod_twice((here + 1) as int, count as int);
        vstd::arithmetic::div_mod::lemma_add_mod_noop(
            (start + earlier) as int,
            1,
            count as int,
        );
        vstd::arithmetic::div_mod::lemma_small_mod(1, count);
    }
}

/// While the worker alone touches the controller, the count of limiters
/// that left the registry grows by one for every entry that has left it,
/// and no limiter is counted as registered.
pub proof fn law_evictions_are_counted(trace: Seq<ApiLocksView>, cursors: Seq<usize>, turn: int)
    requires
        worker_run(trace, cursors),
        trace[0].wf(),
        0 <= turn < trace.len(),
    ensures
        trace[turn].entries().len() <= trace[0].entries().len(),
        trace[turn].metrics.semaphores_unregistered == saturated(
            trace[0].metrics.semaphores_unregistered + (trace[0].entries().len()
                - trace[turn].entries().len()),
        ),
        trace[turn].metrics.semaphores_registered == trace[0].metrics.semaphores_registered,
    decreases turn,
{
    if turn > 0 {
        let earlier = turn - 1;
        law_evictions_are_counted(trace, cursors, earlier);
        assert(trace[earlier].worked(
            trace[earlier + 1],
            cursors[earlier],
            Some(cursors[earlier + 1]),
        ));
        if !trace[0].disabled() {
            let count = trace[0].shards.len();
            let start = turn_of(cursors[0], count) as nat;
            lemma_worker_run(trace, cursors, earlier as nat);
            lemma_swept_round(trace[0].shards, start, earlier as nat);
            let here = turn_of(cursors[earlier], count) as int;
            lemma_swept_len(trace[earlier].shards, here);
        } else {
            lemma_stays_disabled(trace, cursors, earlier as nat);
        }
    }
}

/// With admission control off the worker leaves every state as it is.
proof fn lemma_stays_disabled(trace: Seq<ApiLocksView>, cursors: Seq<usize>, turn: nat)
    requires
        worker_run(trace, cursors),
        trace[0].disabled(),
        turn < trace.len(),
    ensures
        trace[turn as int] == trace[0],
    decreases turn,
{
    if turn > 0 {
        let earlier = (turn - 1) as int;
        lemma_stays_disabled(trace, cursors, earlier as nat);
        assert(trace[earlier].worked(
            trace[earlier + 1],
            cursors[earlier],
            Some(cursors[earlier + 1]),
        ));
    }
}

/// A limiter that nobody holds a permit of or waits for is gone once the
/// worker has had a turn for every shard and nothing else has touched the
/// controller in the meantime. Limiters with a permit outstanding or a
/// request waiting are all still there, as they were.
pub proof fn law_epoch_evicts_idle(trace: Seq<ApiLocksView>, cursors: Seq<usize>)
    requires
        worker_run(trace, cursors),
        trace[0].wf(),
        !trace[0].disabled(),
        trace.len() > trace[0].shards.len(),
    ensures
        trace.last().entries() == trace[0].entries().remove_keys(idle_entries(trace[0].shards)),
        forall|key: Key|
            trace[0].entries().contains_key(key) && trace[0].entries()[key].idle()
                ==> !trace.last().entries().contains_key(key),
        trace.last().metrics.semaphores_unregistered == saturated(
            trace[0].metrics.semaphores_unregistered + idle_entries(trace[0].shards).len(),
        ),
{
    let first = trace[0].shards;
    let count = first.len();
    let start = turn_of(cursors[0], count) as nat;
    let turns = (trace.len() - 1) as nat;
    let last = trace.last().shards;
    lemma_worker_run(trace, cursors, turns);
    lemma_swept_round(first, start, turns);
    assert forall|i: int| 0 <= i < count implies #[trigger] last[i] == first[i].remove_keys(
        idle_keys(first[i]),
    ) by {
        lemma_round_visits_all(start, count, i);
        let tick = choose|tick: nat| tick < count && #[trigger] visited(start, tick, count) == i;
        assert(tick < turns);
        assert(swept_by(start, turns, count, i));
    }
    let kept = entries(first).remove_keys(idle_entries(first));
    assert forall|key: Key| #[trigger] entries(last).contains_key(key) <==> kept.contains_key(
        key,
    ) by {
        if holds(last, key) {
            let i = shard_of(last, key);
            assert(first[i].contains_key(key));
            lemma_limiter_of(first, key, i);
        }
        if kept.contains_key(key) {
            let i = shard_of(first, key);
            lemma_limiter_of(first, key, i);
            assert(last[i].contains_key(key));
        }
    }
    assert forall|key: Key| #[trigger] entries(last).contains_key(key) implies entries(last)[key]
        == kept[key] by {
        let i = shard_of(last, key);
        assert(first[i].contains_key(key));
        lemma_limiter_of(first, key, i);
        lemma_limiter_of(last, key, i);
    }
    assert(entries(last) =~= kept);
    law_evictions_are_counted(trace, cursors, trace.len() - 1);
    let idle = idle_entries(first);
    lemma_entries_finite(first);
    vstd::set_lib::lemma_set_subset_finite(entries(first).dom(), idle);
    vstd::set_lib::lemma_set_difference_len(entries(first).dom(), idle);
    assert(entries(first).dom().intersect(idle) =~= idle);
    assert(kept.dom() =~= entries(first).dom().difference(idle));
}

/// `after` is what a call that is not for `key` leaves of `before`: a
/// request for a permit on another key, a permit of another key that comes
/// back, another key that is given its limiter, or a request on another
/// key that gives up.
pub open spec fn quiet_for(before: ApiLocksView, after: ApiLocksView, key: Key) -> bool {
    ||| exists|other: Key, waited: Nanos, pending: bool, result: Result<Admission, ApiLockError>|
        other != key && #[trigger] before.admitted(after, other, waited, pending, result)
    ||| exists|holder: Option<Key>, outcome: Outcome|
        holder != Some(key) && #[trigger] before.released(after, holder, outcome)
    ||| exists|other: Key| other != key && #[trigger] before.resolved(after, other)
    ||| exists|other: Key| other != key && #[trigger] before.abandoned(after, other)
}

/// `trace` is a run of a controller in which no call is made for `key`.
/// Step by step, as `turns` says, either the reclamation worker has a
/// turn, for which it is handed the shard of `cursors` at that index and
/// hands on the next, or a call is made that is not for `key`, and the
/// shard whose turn is next stays the same.
pub open spec fn quiet_run(
    trace: Seq<ApiLocksView>,
    cursors: Seq<usize>,
    turns: Seq<bool>,
    key: Key,
) -> bool {
    &&& trace.len() > 0
    &&& trace.len() == cursors.len()
    &&& turns.len() == trace.len() - 1
    &&& forall|step: int| 0 <= step < trace.len() ==> (#[trigger] trace[step]).wf()
    &&& forall|step: int|
        0 <= step < trace.len() - 1 ==> if #[trigger] turns[step] {
            trace[step].worked(trace[step + 1], cursors[step], Some(cursors[step + 1]))
        } else {
            cursors[step + 1] == cursors[step] && quiet_for(trace[step], trace[step + 1], key)
        }
}

/// The number of turns the worker has had in the first `steps` steps.
pub open spec fn turns_in(turns: Seq<bool>, steps: int) -> nat
    decreases steps,
{
    if steps <= 0 {
        0
    } else {
        turns_in(turns, steps - 1) + if turns[steps - 1] {
            1nat
        } else {
            0nat
        }
    }
}

/// A call that is not for a key leaves that key in its shard, bound to
/// what it was bound to, and leaves what the controller was made with.
proof fn lemma_quiet_step(before: ApiLocksView, after: ApiLocksView, key: Key)
    requires
        before.wf(),
        quiet_for(before, after, key),
    ensures
        after.config == before.config,
        after.shards.len() == before.shards.len(),
        forall|i: int|
            0 <= i < before.shards.len() ==> (#[trigger] after.shards[i]).contains_key(key)
                == before.shards[i].contains_key(key) && after.shards[i][key]
                == before.shards[i][key],
{
    if exists|other: Key, waited: Nanos, pending: bool, result: Result<Admission, ApiLockError>|
        other != key && #[trigger] before.admitted(after, other, waited, pending, result) {
        let (other, waited, pending, result) = choose|
            other: Key,
            waited: Nanos,
            pending: bool,
            result: Result<Admission, ApiLockError>,
        | other != key && #[trigger] before.admitted(after, other, waited, pending, result);
        match before.verdict(other, waited) {
            Verdict::Bypass => {},
            Verdict::Grant => {
                lemma_stored_leaves_others(
                    before.shards,
                    after.shards,
                    other,
                    before.asked(other, pending).taken(),
                    key,
                );
            },
            Verdict::Timeout => {
                lemma_stored_leaves_others(
                    before.shards,
                    after.shards,
                    other,
                    before.asked(other, pending),
                    key,
                );
            },
            Verdict::Wait(_) => {
                lemma_stored_leaves_others(
                    before.shards,
                    after.shards,
                    other,
                    before.asked(other, pending).queued(),
                    key,
                );
            },
        }
    } else if exists|holder: Option<Key>, outcome: Outcome|
        holder != Some(key) && #[trigger] before.released(after, holder, outcome) {
        let (holder, outcome) = choose|holder: Option<Key>, outcome: Outcome|
            holder != Some(key) && #[trigger] before.released(after, holder, outcome);
        if let Some(other) = holder {
            if before.entries().contains_key(other) {
                lemma_stored_leaves_others(
                    before.shards,
                    after.shards,
                    other,
                    before.limiter(other).released(outcome),
                    key,
                );
            }
        }
    } else if exists|other: Key| other != key && #[trigger] before.resolved(after, other) {
        let other = choose|other: Key| other != key && #[trigger] before.resolved(after, other);
        if !before.entries().contains_key(other) {
            lemma_stored_leaves_others(
                before.shards,
                after.shards,
                other,
                DynamicLimiter::fresh(before.config),
                key,
            );
        }
    } else {
        let other = choose|other: Key| other != key && #[trigger] before.abandoned(after, other);
        if before.entries().contains_key(other) {
            lemma_stored_leaves_others(
                before.shards,
                after.shards,
                other,
                before.limiter(other).resumed(),
                key,
            );
        }
    }
}

/// Where a quiet run has got to after `step` steps: the worker has taken
/// the shards in turn, and the key is either gone or sits idle in its
/// shard, which the worker has not come to yet.
proof fn lemma_quiet_run(
    trace: Seq<ApiLocksView>,
    cursors: Seq<usize>,
    turns: Seq<bool>,
    key: Key,
    step: int,
)
    requires
        quiet_run(trace, cursors, turns, key),
        !trace[0].disabled(),
        trace[0].entries().contains_key(key),
        trace[0].entries()[key].idle(),
        0 <= step < trace.len(),
    ensures
        trace[step].config == trace[0].config,
        trace[step].shards.len() == trace[0].shards.len(),
        turn_of(cursors[step], trace[0].shards.len()) == visited(
            turn_of(cursors[0], trace[0].shards.len()) as nat,
            turns_in(turns, step),
            trace[0].shards.len(),
        ),
        !holds(trace[step].shards, key) || {
            &&& trace[step].shards[shard_of(trace[0].shards, key)].contains_key(key)
            &&& trace[step].shards[shard_of(trace[0].shards, key)][key].idle()
            &&& !swept_by(
                turn_of(cursors[0], trace[0].shards.len()) as nat,
                turns_in(turns, step),
                trace[0].shards.len(),
                shard_of(trace[0].shards, key),
            )
        },
    decreases step,
{
    let count = trace[0].shards.len();
    let start = turn_of(cursors[0], count) as nat;
    let home = shard_of(trace[0].shards, key);
    assert(trace[0].wf());
    lemma_limiter_of(trace[0].shards, key, home);
    if step == 0 {
        vstd::arithmetic::div_mod::lemma_mod_twice(cursors[0] as int, count as int);
    } else {
        let earlier = step - 1;
        lemma_quiet_run(trace, cursors, turns, key, earlier);
        let before = trace[earlier];
        let after = trace[earlier + 1];
        let had = turns_in(turns, earlier);
        assert(before.wf());
        assert(after.wf());
        if turns[earlier] {
            assert(before.worked(after, cursors[earlier], Some(cursors[earlier + 1])));
            let here = turn_of(cursors[earlier], count);
            assert(after.shards == swept(before.shards, here as int));
            vstd::arithmetic::div_mod::lemma_mod_twice((here + 1) as int, count as int);
            vstd::arithmetic::div_mod::lemma_add_mod_noop((start + had) as int, 1, count as int);
            vstd::arithmetic::div_mod::lemma_small_mod(1, count);
            if holds(after.shards, key) {
                let at = shard_of(after.shards, key);
                assert(before.shards[at].contains_key(key));
                assert(holds(before.shards, key));
                assert(at == home);
                if swept_by(start, had + 1, count, home) {
                    let tick = choose|tick: nat|
                        tick < had + 1 && #[trigger] visited(start, tick, count) == home;
                    if tick < had {
                        assert(swept_by(start, had, count, home));
                    }
                }
            }
        } else {
            lemma_quiet_step(before, after, key);
            if holds(after.shards, key) {
                let at = shard_of(after.shards, key);
                assert(before.shards[at].contains_key(key));
                assert(holds(before.shards, key));
                assert(at == home);
            }
        }
    }
}

/// A limiter that nobody holds a permit of or waits for is gone once the
/// worker has had a turn for every shard, whatever is asked of other keys
/// in the meantime, as long as no call is made for its own key.
pub proof fn law_quiet_key_is_evicted(
    trace: Seq<ApiLocksView>,
    cursors: Seq<usize>,
    turns: Seq<bool>,
    key: Key,
)
    requires
        quiet_run(trace, cursors, turns, key),
        !trace[0].disabled(),
        trace[0].entries().contains_key(key),
        trace[0].entries()[key].idle(),
        turns_in(turns, turns.len() as int) >= trace[0].shards.len(),
    ensures
        !trace.last().entries().contains_key(key),
{
    let count = trace[0].shards.len();
    let start = turn_of(cursors[0], count) as nat;
    let home = shard_of(trace[0].shards, key);
    let had = turns_in(turns, turns.len() as int);
    assert(trace[0].wf());
    lemma_limiter_of(trace[0].shards, key, home);
    lemma_quiet_run(trace, cursors, turns, key, trace.len() - 1);
    lemma_round_visits_all(start, count, home);
    let tick = choose|tick: nat| tick < count && #[trigger] visited(start, tick, count) == home;
    assert(tick < had);
    assert(swept_by(start, had, count, home));
}

/// A limiter that somebody holds a permit of or waits for stays in the
/// registry as it is, through any number of turns of the worker and
/// whatever is asked of other keys in the meantime, as long as no call is
/// made for its own key.
pub proof fn law_quiet_key_is_kept(
    trace: Seq<ApiLocksView>,
    cursors: Seq<usize>,
    turns: Seq<bool>,
    key: Key,
    step: int,
)
    requires
        quiet_run(trace, cursors, turns, key),
        trace[0].entries().contains_key(key),
        !trace[0].entries()[key].idle(),
        0 <= step < trace.len(),
    ensures
        trace[step].shards.len() == trace[0].shards.len(),
        trace[step].shards[shard_of(trace[0].shards, key)].contains_pair(
            key,
            trace[0].entries()[key],
        ),
        trace[step].entries().contains_pair(key, trace[0].entries()[key]),
    decreases step,
{
    let home = shard_of(trace[0].shards, key);
    assert(trace[0].wf());
    assert(trace[step].wf());
    lemma_limiter_of(trace[0].shards, key, home);
    if step > 0 {
        let earlier = step - 1;
        law_quiet_key_is_kept(trace, cursors, turns, key, earlier);
        let before = trace[earlier];
        let after = trace[earlier + 1];
        assert(before.wf());
        if turns[earlier] {
            assert(before.worked(after, cursors[earlier], Some(cursors[earlier + 1])));
            if !before.disabled() {
                let here = turn_of(cursors[earlier], before.shards.len()) as int;
                assert(after.shards == swept(before.shards, here));
                assert(!idle_keys(before.shards[home]).contains(key));
                assert(after.shards[home].contains_pair(key, trace[0].entries()[key]));
            }
        } else {
            lemma_quiet_step(before, after, key);
            assert(after.shards[home].contains_key(key));
        }
        lemma_limiter_of(trace[step].shards, key, home);
    }
}

/// A limiter that somebody refers to besides the registry stays in it as
/// it is, through any number of turns of the reclamation worker.
proof fn lemma_busy_limiter_stays(
    trace: Seq<ApiLocksView>,
    cursors: Seq<usize>,
    key: Key,
    turn: int,
)
    requires
        worker_run(trace, cursors),
        trace[0].wf(),
        trace[0].entries().contains_key(key),
        !trace[0].entries()[key].idle(),
        0 <= turn < trace.len(),
    ensures
        trace[turn].entries().contains_pair(key, trace[0].entries()[key]),
    decreases turn,
{
    if turn > 0 {
        let earlier = turn - 1;
        lemma_busy_limiter_stays(trace, cursors, key, earlier);
        assert(trace[earlier].worked(
            trace[earlier + 1],
            cursors[earlier],
            Some(cursors[earlier + 1]),
        ));
        if !trace[0].disabled() {
            let first = trace[0].shards;
            let count = first.len();
            let start = turn_of(cursors[0], count) as nat;
            lemma_worker_run(trace, cursors, turn as nat);
            lemma_swept_round(first, start, turn as nat);
            let i = shard_of(first, key);
            lemma_limiter_of(first, key, i);
            assert(!first[i][key].idle());
            assert(!idle_keys(first[i]).contains(key));
            assert(trace[turn].shards[i].contains_key(key));
            assert(trace[turn].shards[i][key] == first[i][key]);
            lemma_limiter_of(trace[turn].shards, key, i);
        } else {
            lemma_stays_disabled(trace, cursors, turn as nat);
        }
    }
}

/// A permit that has not come back keeps its limiter in the registry,
/// through any number of turns of the reclamation worker: the key stays
/// bound to the same limiter, with the permit's slot still taken.
pub proof fn law_held_permit_prevents_eviction(
    trace: Seq<ApiLocksView>,
    cursors: Seq<usize>,
    key: Key,
    turn: int,
)
    requires
        worker_run(trace, cursors),
        trace[0].wf(),
        trace[0].entries().contains_key(key),
        trace[0].entries()[key].in_flight > 0,
        0 <= turn < trace.len(),
    ensures
        trace[turn].entries().contains_pair(key, trace[0].entries()[key]),
{
    lemma_busy_limiter_stays(trace, cursors, key, turn);
}

/// A request that waits for a slot keeps its limiter in the registry,
/// through any number of turns of the reclamation worker and whether or
/// not a permit of the key is still out: the key stays bound to the same
/// limiter, which has heard what it has heard.
pub proof fn law_pending_request_prevents_eviction(
    trace: Seq<ApiLocksView>,
    cursors: Seq<usize>,
    key: Key,
    turn: int,
)
    requires
        worker_run(trace, cursors),
        trace[0].wf(),
        trace[0].entries().contains_key(key),
        trace[0].entries()[key].waiting > 0,
        0 <= turn < trace.len(),
    ensures
        trace[turn].entries().contains_pair(key, trace[0].entries()[key]),
{
    lemma_busy_limiter_stays(trace, cursors, key, turn);
}

} // verus!
