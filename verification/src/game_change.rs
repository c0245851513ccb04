use vstd::prelude::*;

use crate::level_time::LevelTime;
use crate::tracked_id::TimeTrackedId;

verus! {

/// The capability every recordable state payload must satisfy.
///
/// `is_similar` is the equality-like similarity test used to suppress
/// redundant consecutive recordings for the same id; `similar_spec` is its
/// meaning at the specification level. `snapshot` produces an exact copy of
/// a payload, which is how the history hands recorded facts back out during
/// replay without giving up ownership of the log.
pub trait GameChange: Sized {
    /// What `is_similar` decides, stated for contracts.
    spec fn similar_spec(&self, other: &Self) -> bool;

    /// True when the two payloads are behaviorally indistinguishable, so
    /// that recording the second right after the first would be redundant.
    fn is_similar(&self, other: &Self) -> (r: bool)
        ensures
            r == self.similar_spec(other),
    ;

    /// An exact copy of the payload.
    fn snapshot(&self) -> (r: Self)
        ensures
            r == *self,
    ;
}

/// One recorded fact: at the timestamp of the collection that owns it,
/// the entity `id` had the state `payload`. Immutable once recorded.
pub struct Command<T> {
    pub id: TimeTrackedId,
    pub payload: T,
}

/// A group of commands that share a recording timestamp: all state changes
/// that happened "simultaneously" in simulation terms. Replay applies a
/// whole collection atomically instead of command-by-command.
pub struct CommandCollection<T> {
    pub timestamp: LevelTime,
    pub commands: Vec<Command<T>>,
}

/// The mathematical value of a [`CommandCollection`].
#[verifier::ext_equal]
pub struct CollectionView<T> {
    pub timestamp: LevelTime,
    pub commands: Seq<Command<T>>,
}

impl<T> View for CommandCollection<T> {
    type V = CollectionView<T>;

    open spec fn view(&self) -> CollectionView<T> {
        CollectionView { timestamp: self.timestamp, commands: self.commands@ }
    }
}

/// Whether some command in `cmds` concerns `id`.
pub open spec fn has_cmd<T>(cmds: Seq<Command<T>>, id: TimeTrackedId) -> bool {
    exists|k: int| 0 <= k < cmds.len() && cmds[k].id == id
}

/// The index of the last command in `cmds` that concerns `id`
/// (meaningful only when `has_cmd(cmds, id)` holds). Replay and
/// last-write-wins appending both resolve an id to this command.
pub open spec fn idx_of_id<T>(cmds: Seq<Command<T>>, id: TimeTrackedId) -> int
    decreases cmds.len(),
{
    if cmds.len() == 0 {
        0
    } else if cmds.last().id == id {
        cmds.len() - 1
    } else {
        idx_of_id(cmds.drop_last(), id)
    }
}

/// The payload the collection records for `id` (meaningful only when
/// `has_cmd(c.commands, id)` holds).
pub open spec fn cmd_payload<T>(c: CollectionView<T>, id: TimeTrackedId) -> T {
    c.commands[idx_of_id(c.commands, id)].payload
}

/// At most one command per id within one collection.
pub open spec fn collection_wf<T>(c: CollectionView<T>) -> bool {
    forall|i: int, j: int|
        0 <= i < j < c.commands.len() ==> c.commands[i].id != c.commands[j].id
}

/// `idx_of_id` picks the last command for `id`: it is in bounds, it concerns
/// `id`, and nothing after it does.
pub proof fn lemma_idx_of_id<T>(cmds: Seq<Command<T>>, id: TimeTrackedId)
    requires
        has_cmd(cmds, id),
    ensures
        0 <= idx_of_id(cmds, id) < cmds.len(),
        cmds[idx_of_id(cmds, id)].id == id,
        forall|j: int| idx_of_id(cmds, id) < j < cmds.len() ==> cmds[j].id != id,
    decreases cmds.len(),
{
    if cmds.last().id == id {
    } else {
        assert(has_cmd(cmds.drop_last(), id)) by {
            let k = choose|k: int| 0 <= k < cmds.len() && cmds[k].id == id;
            assert(cmds.drop_last()[k] == cmds[k]);
        }
        lemma_idx_of_id(cmds.drop_last(), id);
        assert(forall|j: int|
            idx_of_id(cmds, id) < j < cmds.len() - 1 ==> cmds.drop_last()[j] == cmds[j]);
    }
}

/// The index of the last command for `id` in `cmds`, or `None` when the id
/// is not mentioned.
pub fn find_last_command<T>(cmds: &Vec<Command<T>>, id: TimeTrackedId) -> (r: Option<usize>)
    ensures
        match r {
            Some(j) => has_cmd(cmds@, id) && j == idx_of_id(cmds@, id) && j < cmds@.len(),
            None => !has_cmd(cmds@, id),
        },
{
    let n = cmds.len();
    let mut k: usize = 0;
    let mut found = false;
    let mut idx: usize = 0;
    while k < n
        invariant
            k <= n,
            n == cmds@.len(),
            !found ==> forall|j: int| 0 <= j < k ==> cmds@[j].id != id,
            found ==> idx < k && cmds@[idx as int].id == id && (forall|j: int|
                idx < j < k ==> cmds@[j].id != id),
        decreases n - k,
    {
        if cmds[k].id == id {
            found = true;
            idx = k;
        }
        k += 1;
    }
    if found {
        proof {
            assert(has_cmd(cmds@, id)) by {
                assert(cmds@[idx as int].id == id);
            }
            lemma_idx_of_id(cmds@, id);
            let s = idx_of_id(cmds@, id);
            assert(s == idx as int) by {
                if s < idx {
                    assert(cmds@[idx as int].id != id);
                } else if s > idx {
                    assert(cmds@[s].id != id);
                }
            }
        }
        Some(idx)
    } else {
        None
    }
}

} // verus!
