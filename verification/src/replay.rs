use vstd::prelude::*;

use crate::game_change::{
    cmd_payload, find_last_command, has_cmd, CollectionView, CommandCollection, GameChange,
};
use crate::history::{due_forward, lemma_full_forward_replay, timestamps_sorted};
use crate::tracked_id::TimeTrackedId;

verus! {

/// One live entity as the rewind pass sees it: its stable id and the current
/// payload-shaped slice of its state. The host rebuilds this lookup table
/// from the live world each tick and writes the overwritten states back.
pub struct TrackedState<T> {
    pub id: TimeTrackedId,
    pub state: T,
}

/// The state an entity ends up in after the collections in `cs` are applied
/// in order, starting from `fallback`: the payload of the last command for
/// `id`, or `fallback` when no collection mentions the id.
pub open spec fn replay_state<T>(
    cs: Seq<CollectionView<T>>,
    id: TimeTrackedId,
    fallback: T,
) -> T
    decreases cs.len(),
{
    if cs.len() == 0 {
        fallback
    } else if has_cmd(cs.last().commands, id) {
        cmd_payload(cs.last(), id)
    } else {
        replay_state(cs.drop_last(), id, fallback)
    }
}

/// Whether some collection in `cs` records a command for `id`.
pub open spec fn covered<T>(cs: Seq<CollectionView<T>>, id: TimeTrackedId) -> bool {
    exists|i: int| 0 <= i < cs.len() && has_cmd(#[trigger] cs[i].commands, id)
}

/// The payload of the last command recorded for `id` anywhere in `cs`
/// (meaningful only when `covered(cs, id)` holds).
pub open spec fn last_recorded<T>(cs: Seq<CollectionView<T>>, id: TimeTrackedId) -> T
    decreases cs.len(),
{
    if cs.len() == 0 {
        arbitrary()
    } else if has_cmd(cs.last().commands, id) {
        cmd_payload(cs.last(), id)
    } else {
        last_recorded(cs.drop_last(), id)
    }
}

/// Applies one collection atomically: every live entity the collection
/// mentions is overwritten with the recorded payload; entities the
/// collection does not mention keep their state; ids referenced by the
/// collection but absent from the live world are silently skipped — a
/// missing entity never fails the pass, and all other commands still apply.
pub fn apply_collection<T: GameChange>(
    states: &mut Vec<TrackedState<T>>,
    collection: &CommandCollection<T>,
)
    ensures
        final(states)@.len() == old(states)@.len(),
        forall|k: int|
            0 <= k < old(states)@.len() ==> #[trigger] final(states)@[k].id == old(
                states,
            )@[k].id,
        forall|k: int|
            0 <= k < old(states)@.len() ==> #[trigger] final(states)@[k].state == (if has_cmd(
                collection@.commands,
                old(states)@[k].id,
            ) {
                cmd_payload(collection@, old(states)@[k].id)
            } else {
                old(states)@[k].state
            }),
{
    let ghost states0 = states@;
    let n = states.len();
    let mut k: usize = 0;
    while k < n
        invariant
            k <= n,
            n == states0.len(),
            states@.len() == states0.len(),
            forall|m: int| k <= m < states0.len() ==> #[trigger] states@[m] == states0[m],
            forall|m: int| 0 <= m < k ==> #[trigger] states@[m].id == states0[m].id,
            forall|m: int|
                0 <= m < k ==> #[trigger] states@[m].state == (if has_cmd(
                    collection@.commands,
                    states0[m].id,
                ) {
                    cmd_payload(collection@, states0[m].id)
                } else {
                    states0[m].state
                }),
        decreases n - k,
    {
        let id = states[k].id;
        let found = find_last_command(&collection.commands, id);
        match found {
            Some(j) => {
                let payload = collection.commands[j].payload.snapshot();
                states[k] = TrackedState { id, state: payload };
            },
            None => {},
        }
        k += 1;
    }
}

/// Applies a batch of collections in the order the rewind query handed them
/// out, collection by collection. Each live entity ends up in
/// [`replay_state`] of the batch: the payload of the last command the batch
/// records for its id, or its own prior state when the batch never mentions
/// the id.
pub fn apply_collections<T: GameChange>(
    states: &mut Vec<TrackedState<T>>,
    collections: &Vec<CommandCollection<T>>,
)
    ensures
        final(states)@.len() == old(states)@.len(),
        forall|k: int|
            0 <= k < old(states)@.len() ==> #[trigger] final(states)@[k].id == old(
                states,
            )@[k].id,
        forall|k: int|
            0 <= k < old(states)@.len() ==> #[trigger] final(states)@[k].state == replay_state(
                collections@.map_values(|c: CommandCollection<T>| c@),
                old(states)@[k].id,
                old(states)@[k].state,
            ),
{
    let ghost cviews = collections@.map_values(|c: CommandCollection<T>| c@);
    let ghost states0 = states@;
    let n = collections.len();
    let mut i: usize = 0;
    while i < n
        invariant
            n == collections@.len(),
            cviews == collections@.map_values(|c: CommandCollection<T>| c@),
            i <= n,
            states@.len() == states0.len(),
            forall|k: int| 0 <= k < states0.len() ==> #[trigger] states@[k].id == states0[k].id,
            forall|k: int|
                0 <= k < states0.len() ==> #[trigger] states@[k].state == replay_state(
                    cviews.take(i as int),
                    states0[k].id,
                    states0[k].state,
                ),
        decreases n - i,
    {
        apply_collection(states, &collections[i]);
        proof {
            let pre = cviews.take(i as int);
            let post = cviews.take(i + 1);
            assert(post.drop_last() =~= pre);
            assert(post.last() == collections@[i as int]@);
            assert(collections@[i as int]@ == cviews[i as int]);
        }
        i += 1;
    }
    proof {
        assert(cviews.take(n as int) =~= cviews);
    }
}

/// Round-trip determinism of replay: applying every recorded collection in
/// chronological order lands each id the log covers at the payload of the
/// last command recorded for it — whatever the live state held before the
/// replay started. Recording a run and replaying it therefore reproduces
/// the run's final observable state.
pub proof fn lemma_round_trip<T>(cs: Seq<CollectionView<T>>, id: TimeTrackedId, fallback: T)
    requires
        covered(cs, id),
    ensures
        replay_state(cs, id, fallback) == last_recorded(cs, id),
    decreases cs.len(),
{
    if has_cmd(cs.last().commands, id) {
    } else {
        let i = choose|i: int| 0 <= i < cs.len() && has_cmd(#[trigger] cs[i].commands, id);
        assert(i < cs.len() - 1);
        assert(covered(cs.drop_last(), id)) by {
            assert(cs.drop_last()[i] == cs[i]);
        }
        lemma_round_trip(cs.drop_last(), id, fallback);
    }
}

/// Record, rewind, replay: after a rewind past the whole log, one forward
/// query up to the original end time hands the entire log back, and applying
/// it lands every id the log covers at its last recorded payload — the same
/// final observable state the original forward run produced, whatever the
/// rewind left in the live world.
pub proof fn lemma_record_rewind_replay<T>(
    log: Seq<CollectionView<T>>,
    from: crate::level_time::LevelTime,
    to: crate::level_time::LevelTime,
    id: TimeTrackedId,
    fallback: T,
)
    requires
        timestamps_sorted(log),
        forall|i: int| 0 <= i < log.len() ==> #[trigger] log[i].timestamp.millis > from.millis,
        forall|i: int| 0 <= i < log.len() ==> #[trigger] log[i].timestamp.millis <= to.millis,
        covered(log, id),
    ensures
        replay_state(due_forward(log, from, to), id, fallback) == last_recorded(log, id),
{
    lemma_full_forward_replay(log, from, to);
    lemma_round_trip(log, id, fallback);
}

/// The replayed state does not depend on the state the live world was left
/// in when the replay begins: any two fallbacks give the same result for an
/// id the log covers.
pub proof fn lemma_replay_deterministic<T>(
    cs: Seq<CollectionView<T>>,
    id: TimeTrackedId,
    fallback1: T,
    fallback2: T,
)
    requires
        covered(cs, id),
    ensures
        replay_state(cs, id, fallback1) == replay_state(cs, id, fallback2),
{
    lemma_round_trip(cs, id, fallback1);
    lemma_round_trip(cs, id, fallback2);
}

} // verus!

