use vstd::prelude::*;

use crate::game_change::{
    collection_wf, find_last_command, has_cmd, idx_of_id, lemma_idx_of_id, CollectionView,
    Command, CommandCollection, GameChange,
};
use crate::level_time::{InterpolationFraction, LevelTime};
use crate::time_manager::TimeManager;
use crate::tracked_id::TimeTrackedId;

verus! {

/// How a rewind query blends between recorded instants: `Discrete` applies
/// the due collections verbatim (snapshot semantics); `Linear` additionally
/// reports the fraction between the neighbouring collections around the
/// current time, so the caller can blend two payload samples.
#[derive(Clone, Copy, Debug, PartialEq, Eq, Structural)]
pub enum InterpolationType {
    Discrete,
    Linear,
}

/// Timestamps strictly increase between consecutive collections.
pub open spec fn timestamps_sorted<T>(log: Seq<CollectionView<T>>) -> bool {
    forall|i: int, j: int|
        0 <= i < j < log.len() ==> log[i].timestamp.millis < log[j].timestamp.millis
}

/// The log's invariant: strictly increasing timestamps, and at most one
/// command per id within each collection.
pub open spec fn log_wf<T>(log: Seq<CollectionView<T>>) -> bool {
    &&& timestamps_sorted(log)
    &&& forall|k: int| 0 <= k < log.len() ==> collection_wf(#[trigger] log[k])
}

/// How many collections carry a timestamp at or before `t`. On a sorted log
/// this is the first index whose timestamp lies after `t`.
pub open spec fn count_at_or_before<T>(log: Seq<CollectionView<T>>, t: LevelTime) -> int
    decreases log.len(),
{
    if log.len() == 0 {
        0
    } else if log.last().timestamp.millis <= t.millis {
        log.len() as int
    } else {
        count_at_or_before(log.drop_last(), t)
    }
}

/// The collections due when the cursor moves forward from `from` to `to`:
/// every collection whose timestamp lies in the half-open interval
/// `(from, to]`, in chronological order.
pub open spec fn due_forward<T>(
    log: Seq<CollectionView<T>>,
    from: LevelTime,
    to: LevelTime,
) -> Seq<CollectionView<T>> {
    log.subrange(count_at_or_before(log, from), count_at_or_before(log, to))
}

/// The collections due when the cursor moves backward from `from` to `to`:
/// every collection whose timestamp lies in the half-open interval
/// `(to, from]`, in reverse-chronological order.
pub open spec fn due_backward<T>(
    log: Seq<CollectionView<T>>,
    from: LevelTime,
    to: LevelTime,
) -> Seq<CollectionView<T>> {
    log.subrange(count_at_or_before(log, to), count_at_or_before(log, from)).reverse()
}

/// The total number of commands recorded across the whole log.
pub open spec fn total_commands<T>(log: Seq<CollectionView<T>>) -> int
    decreases log.len(),
{
    if log.len() == 0 {
        0
    } else {
        total_commands(log.drop_last()) + log.last().commands.len()
    }
}

/// What one `add_command` call at time `now` makes of the log. Collections
/// stamped after `now` are discarded first (they are the redo-able future
/// that a rewind has invalidated); then the command joins the collection at
/// `now`, opening it if need be, with last-write-wins per id unless the
/// payload is similar to what that collection already records for the id.
pub open spec fn spec_add_command<T: GameChange>(
    log: Seq<CollectionView<T>>,
    now: LevelTime,
    id: TimeTrackedId,
    payload: T,
) -> Seq<CollectionView<T>> {
    let kept = log.take(count_at_or_before(log, now));
    if kept.len() > 0 && kept.last().timestamp.millis == now.millis {
        let c = kept.last();
        if has_cmd(c.commands, id) {
            if payload.similar_spec(&c.commands[idx_of_id(c.commands, id)].payload) {
                kept
            } else {
                kept.update(
                    kept.len() - 1,
                    CollectionView {
                        timestamp: c.timestamp,
                        commands: c.commands.update(
                            idx_of_id(c.commands, id),
                            Command { id, payload },
                        ),
                    },
                )
            }
        } else {
            kept.update(
                kept.len() - 1,
                CollectionView {
                    timestamp: c.timestamp,
                    commands: c.commands.push(Command { id, payload }),
                },
            )
        }
    } else {
        kept.push(CollectionView { timestamp: now, commands: seq![Command { id, payload }] })
    }
}

/// `count_at_or_before` splits a sorted log exactly: everything before the
/// count lies at or before `t`, everything from the count on lies after it.
pub proof fn lemma_count_at_or_before_bounds<T>(log: Seq<CollectionView<T>>, t: LevelTime)
    requires
        timestamps_sorted(log),
    ensures
        0 <= count_at_or_before(log, t) <= log.len(),
        forall|i: int|
            0 <= i < count_at_or_before(log, t) ==> #[trigger] log[i].timestamp.millis <= t.millis,
        forall|i: int|
            count_at_or_before(log, t) <= i < log.len() ==> #[trigger] log[i].timestamp.millis
                > t.millis,
    decreases log.len(),
{
    if log.len() == 0 {
    } else if log.last().timestamp.millis <= t.millis {
        assert forall|i: int| 0 <= i < log.len() implies #[trigger] log[i].timestamp.millis
            <= t.millis by {
            if i < log.len() - 1 {
                assert(log[i].timestamp.millis < log[log.len() - 1].timestamp.millis);
            }
        }
    } else {
        assert(timestamps_sorted(log.drop_last()));
        lemma_count_at_or_before_bounds(log.drop_last(), t);
        let n = count_at_or_before(log, t);
        assert forall|i: int| 0 <= i < n implies #[trigger] log[i].timestamp.millis
            <= t.millis by {
            assert(log.drop_last()[i] == log[i]);
        }
        assert forall|i: int| n <= i < log.len() implies #[trigger] log[i].timestamp.millis
            > t.millis by {
            if i < log.len() - 1 {
                assert(log.drop_last()[i] == log[i]);
            }
        }
    }
}

/// A later query time never yields a smaller count.
pub proof fn lemma_count_at_or_before_monotone<T>(
    log: Seq<CollectionView<T>>,
    t1: LevelTime,
    t2: LevelTime,
)
    requires
        timestamps_sorted(log),
        t1.millis <= t2.millis,
    ensures
        count_at_or_before(log, t1) <= count_at_or_before(log, t2),
{
    lemma_count_at_or_before_bounds(log, t1);
    lemma_count_at_or_before_bounds(log, t2);
    let c1 = count_at_or_before(log, t1);
    let c2 = count_at_or_before(log, t2);
    if c1 > c2 {
        assert(log[c2].timestamp.millis <= t1.millis);
        assert(log[c2].timestamp.millis > t2.millis);
    }
}

/// Monotonic append: recording preserves the log's invariant — in
/// particular, collection timestamps stay strictly increasing, whatever
/// sequence of `add_command` calls built the log.
pub proof fn lemma_monotonic_append<T: GameChange>(
    log: Seq<CollectionView<T>>,
    now: LevelTime,
    id: TimeTrackedId,
    payload: T,
)
    requires
        log_wf(log),
    ensures
        log_wf(spec_add_command(log, now, id, payload)),
{
    lemma_count_at_or_before_bounds(log, now);
    let n = count_at_or_before(log, now);
    let kept = log.take(n);
    assert(timestamps_sorted(kept));
    assert(forall|k: int| 0 <= k < kept.len() ==> collection_wf(#[trigger] kept[k]));
    let result = spec_add_command(log, now, id, payload);
    if kept.len() > 0 && kept.last().timestamp.millis == now.millis {
        let c = kept.last();
        if has_cmd(c.commands, id) {
            lemma_idx_of_id(c.commands, id);
            let k = idx_of_id(c.commands, id);
            if payload.similar_spec(&c.commands[k].payload) {
            } else {
                let c2 = CollectionView {
                    timestamp: c.timestamp,
                    commands: c.commands.update(k, Command { id, payload }),
                };
                assert(collection_wf(c2)) by {
                    assert(c.commands[k].id == id);
                    assert(forall|i: int, j: int|
                        0 <= i < j < c2.commands.len() ==> c2.commands[i].id
                            != c2.commands[j].id);
                }
                assert(timestamps_sorted(result));
            }
        } else {
            let c2 = CollectionView {
                timestamp: c.timestamp,
                commands: c.commands.push(Command { id, payload }),
            };
            assert(collection_wf(c2)) by {
                assert(forall|j: int| 0 <= j < c.commands.len() ==> c.commands[j].id != id);
            }
            assert(timestamps_sorted(result));
        }
    } else {
        let c2 = CollectionView { timestamp: now, commands: seq![Command { id, payload }] };
        assert(collection_wf(c2));
        assert forall|i: int, j: int| 0 <= i < j < result.len() implies result[i].timestamp.millis
            < result[j].timestamp.millis by {
            if j < kept.len() {
            } else {
                assert(result[j].timestamp.millis == now.millis);
                if i < kept.len() - 1 {
                    assert(kept[i].timestamp.millis < kept[kept.len() - 1].timestamp.millis);
                }
            }
        }
    }
}

/// Recording leaves no collection stamped after the recording time: the
/// future a rewind discarded cannot linger in the log.
pub proof fn lemma_record_discards_future<T: GameChange>(
    log: Seq<CollectionView<T>>,
    now: LevelTime,
    id: TimeTrackedId,
    payload: T,
)
    requires
        timestamps_sorted(log),
    ensures
        forall|i: int|
            0 <= i < spec_add_command(log, now, id, payload).len()
                ==> #[trigger] spec_add_command(log, now, id, payload)[i].timestamp.millis
                <= now.millis,
{
    lemma_count_at_or_before_bounds(log, now);
}

/// Dedup idempotence: once a call has recorded payload `a` for `id` at the
/// current time, a consecutive call with a similar payload `b` is a no-op,
/// so the log gains exactly one command, not two.
pub proof fn lemma_dedup_idempotent<T: GameChange>(
    log: Seq<CollectionView<T>>,
    now: LevelTime,
    id: TimeTrackedId,
    a: T,
    b: T,
)
    requires
        log_wf(log),
        // recording happens at the present: nothing in the log lies after `now`
        count_at_or_before(log, now) == log.len(),
        // the first call actually records: `id` has no command at `now` yet
        log.len() == 0 || log.last().timestamp.millis < now.millis || !has_cmd(
            log.last().commands,
            id,
        ),
        b.similar_spec(&a),
    ensures
        spec_add_command(spec_add_command(log, now, id, a), now, id, b) == spec_add_command(
            log,
            now,
            id,
            a,
        ),
        total_commands(spec_add_command(log, now, id, a)) == total_commands(log) + 1,
{
    lemma_count_at_or_before_bounds(log, now);
    assert(log.take(log.len() as int) =~= log);
    let log1 = spec_add_command(log, now, id, a);
    if log.len() > 0 && log.last().timestamp.millis == now.millis {
        // `id` is absent from the collection at `now`: the command is appended
        let c = log.last();
        let c2 = CollectionView {
            timestamp: c.timestamp,
            commands: c.commands.push(Command { id, payload: a }),
        };
        assert(log1 == log.update(log.len() - 1, c2));
        assert(log1.last() == c2);
        assert(log1.drop_last() =~= log.drop_last());
        assert(total_commands(log1) == total_commands(log) + 1);
    } else {
        // a fresh collection at `now` is opened for the command
        let c2 = CollectionView { timestamp: now, commands: seq![Command { id, payload: a }] };
        assert(log1 == log.push(c2));
        assert(log1.drop_last() =~= log);
        assert(total_commands(log1) == total_commands(log) + 1);
    }
    // the second call finds the similar payload and leaves the log alone
    assert(log1.len() > 0 && log1.last().timestamp.millis == now.millis);
    assert(count_at_or_before(log1, now) == log1.len());
    assert(log1.take(log1.len() as int) =~= log1);
    let cmds = log1.last().commands;
    assert(cmds.last() == Command { id, payload: a });
    assert(has_cmd(cmds, id)) by {
        assert(cmds[cmds.len() - 1].id == id);
    }
    assert(idx_of_id(cmds, id) == cmds.len() - 1);
    assert(b.similar_spec(&cmds[idx_of_id(cmds, id)].payload));
}

/// Truncate on rewrite: recording `s1` at `t`, rewinding (which leaves the
/// log untouched), then recording a different `s2` at `t` leaves the log
/// with `s2` at `t` and no trace of `s1`.
pub proof fn lemma_truncate_on_rewrite<T: GameChange>(
    log: Seq<CollectionView<T>>,
    t: LevelTime,
    id: TimeTrackedId,
    s1: T,
    s2: T,
)
    requires
        log_wf(log),
        forall|i: int| 0 <= i < log.len() ==> #[trigger] log[i].timestamp.millis < t.millis,
        !s2.similar_spec(&s1),
    ensures
        spec_add_command(spec_add_command(log, t, id, s1), t, id, s2) == log.push(
            CollectionView { timestamp: t, commands: seq![Command { id, payload: s2 }] },
        ),
{
    lemma_count_at_or_before_bounds(log, t);
    assert(count_at_or_before(log, t) == log.len()) by {
        if log.len() > 0 {
            assert(log[log.len() - 1].timestamp.millis < t.millis);
        }
    }
    assert(log.take(log.len() as int) =~= log);
    let c1 = CollectionView { timestamp: t, commands: seq![Command { id, payload: s1 }] };
    let log1 = spec_add_command(log, t, id, s1);
    assert(log.len() > 0 ==> log.last().timestamp.millis != t.millis);
    assert(log1 == log.push(c1));
    assert(count_at_or_before(log1, t) == log1.len());
    assert(log1.take(log1.len() as int) =~= log1);
    let cmds = c1.commands;
    assert(cmds[0].id == id);
    assert(has_cmd(cmds, id));
    assert(idx_of_id(cmds, id) == 0);
    assert(!s2.similar_spec(&cmds[idx_of_id(cmds, id)].payload));
    let c2 = CollectionView {
        timestamp: c1.timestamp,
        commands: cmds.update(0, Command { id, payload: s2 }),
    };
    assert(c2.commands =~= seq![Command { id, payload: s2 }]);
    assert(c2 =~= CollectionView { timestamp: t, commands: seq![Command { id, payload: s2 }] });
    assert(spec_add_command(log1, t, id, s2) == log1.update(log1.len() - 1, c2));
    assert(log1.update(log1.len() - 1, c2) =~= log.push(c2));
}

/// After a rewind past the whole log, one forward query up to (or past) the
/// last recorded instant hands the entire log back in chronological order:
/// the replay sees every recorded collection exactly once.
pub proof fn lemma_full_forward_replay<T>(
    log: Seq<CollectionView<T>>,
    from: LevelTime,
    to: LevelTime,
)
    requires
        timestamps_sorted(log),
        forall|i: int| 0 <= i < log.len() ==> #[trigger] log[i].timestamp.millis > from.millis,
        forall|i: int| 0 <= i < log.len() ==> #[trigger] log[i].timestamp.millis <= to.millis,
    ensures
        due_forward(log, from, to) == log,
{
    lemma_count_at_or_before_bounds(log, from);
    lemma_count_at_or_before_bounds(log, to);
    let a = count_at_or_before(log, from);
    if a > 0 {
        assert(log[a - 1].timestamp.millis <= from.millis);
    }
    let b = count_at_or_before(log, to);
    if b < log.len() {
        assert(log[b].timestamp.millis > to.millis);
    }
    assert(log.subrange(0, log.len() as int) =~= log);
}

/// No duplicate application while the cursor advances: two consecutive
/// forward queries hand out disjoint batches of collections.
pub proof fn lemma_no_duplicate_application<T>(
    log: Seq<CollectionView<T>>,
    t0: LevelTime,
    t1: LevelTime,
    t2: LevelTime,
)
    requires
        timestamps_sorted(log),
        t0.millis <= t1.millis,
        t1.millis <= t2.millis,
    ensures
        forall|x: CollectionView<T>|
            due_forward(log, t0, t1).contains(x) ==> !due_forward(log, t1, t2).contains(x),
{
    lemma_count_at_or_before_bounds(log, t0);
    lemma_count_at_or_before_bounds(log, t1);
    lemma_count_at_or_before_bounds(log, t2);
    lemma_count_at_or_before_monotone(log, t0, t1);
    lemma_count_at_or_before_monotone(log, t1, t2);
    assert forall|x: CollectionView<T>|
        due_forward(log, t0, t1).contains(x) implies !due_forward(
        log,
        t1,
        t2,
    ).contains(x) by {
        let i = choose|i: int|
            0 <= i < due_forward(log, t0, t1).len() && due_forward(log, t0, t1)[i] == x;
        assert(x.timestamp.millis <= t1.millis);
        if due_forward(log, t1, t2).contains(x) {
            let j = choose|j: int|
                0 <= j < due_forward(log, t1, t2).len() && due_forward(log, t1, t2)[j] == x;
            assert(x.timestamp.millis > t1.millis);
        }
    }
}

/// The per-payload-type timestamped command log: an append-ordered sequence
/// of command collections with strictly increasing timestamps, plus the
/// consumed-cursor that remembers up to which time due collections were
/// already handed out, so no collection is applied twice while the cursor
/// keeps moving one way.
pub struct GameChangeHistory<T: GameChange> {
    collections: Vec<CommandCollection<T>>,
    cursor: LevelTime,
}

impl<T: GameChange> View for GameChangeHistory<T> {
    type V = Seq<CollectionView<T>>;

    closed spec fn view(&self) -> Seq<CollectionView<T>> {
        self.collections@.map_values(|c: CommandCollection<T>| c@)
    }
}

impl<T: GameChange> GameChangeHistory<T> {
    /// The log's invariant holds.
    pub open spec fn wf(self) -> bool {
        log_wf(self@)
    }

    /// Up to which time due collections were already handed out.
    pub closed spec fn consumed_up_to(self) -> LevelTime {
        self.cursor
    }

    /// An empty log with the consumed-cursor at the epoch.
    pub fn new() -> (h: Self)
        ensures
            h@ == Seq::<CollectionView<T>>::empty(),
            h.wf(),
            h.consumed_up_to().millis == 0,
    {
        let h = GameChangeHistory { collections: Vec::new(), cursor: LevelTime::zero() };
        proof {
            assert(h@ =~= Seq::<CollectionView<T>>::empty());
        }
        h
    }

    pub fn len(&self) -> (r: usize)
        ensures
            r == self@.len(),
    {
        self.collections.len()
    }

    /// Records one state change observed at the manager's current time,
    /// exactly as [`spec_add_command`] describes: collections stamped after
    /// the current time are discarded first, then the command lands in the
    /// collection at the current time — skipped entirely when that
    /// collection already holds a similar payload for the same id,
    /// overwriting the id's previous command otherwise. The live world
    /// already shows what was just recorded, so recording also marks the log
    /// as consumed up to the current time: a later due query starts from
    /// here, forward or backward.
    pub fn add_command(&mut self, time_manager: &TimeManager, id: TimeTrackedId, payload: T)
        requires
            old(self).wf(),
        ensures
            final(self).wf(),
            final(self)@ == spec_add_command(old(self)@, time_manager.time(), id, payload),
            final(self).consumed_up_to() == time_manager.time(),
    {
        let now = time_manager.level_time();
        let ghost log0 = self@;
        let ghost c0 = self.collections@;
        let ghost cur0 = self.cursor;
        let ghost n_keep = count_at_or_before(log0, now);
        proof {
            lemma_count_at_or_before_bounds(log0, now);
            lemma_monotonic_append(log0, now, id, payload);
        }
        // discard the redo-able future a rewind has invalidated
        while self.collections.len() > 0 && self.collections[self.collections.len()
            - 1].timestamp.millis > now.millis
            invariant
                timestamps_sorted(log0),
                log0 == c0.map_values(|c: CommandCollection<T>| c@),
                n_keep == count_at_or_before(log0, now),
                0 <= n_keep <= c0.len(),
                n_keep <= self.collections.len() <= c0.len(),
                self.collections@ == c0.take(self.collections.len() as int),
                self.cursor == cur0,
            decreases self.collections.len(),
        {
            let ghost len_pre = self.collections@.len() as int;
            proof {
                lemma_count_at_or_before_bounds(log0, now);
                assert(self.collections@[len_pre - 1] == c0[len_pre - 1]);
                assert(log0[len_pre - 1] == c0[len_pre - 1]@);
            }
            self.collections.pop();
            proof {
                assert(c0.take(len_pre).subrange(0, len_pre - 1) =~= c0.take(len_pre - 1));
            }
        }
        proof {
            lemma_count_at_or_before_bounds(log0, now);
            let len = self.collections.len() as int;
            if len > 0 {
                assert(self.collections@[len - 1] == c0[len - 1]);
                assert(log0[len - 1] == c0[len - 1]@);
                if len > n_keep {
                    assert(log0[len - 1].timestamp.millis > now.millis);
                }
            }
            assert(self.collections.len() == n_keep);
            assert(self@ =~= log0.take(n_keep));
        }
        let ghost kept = log0.take(n_keep);
        let len = self.collections.len();
        if len > 0 && self.collections[len - 1].timestamp.millis == now.millis {
            let popped = self.collections.pop();
            let mut last_c = popped.unwrap();
            let ghost cmds0 = last_c.commands@;
            proof {
                assert(last_c@ == kept.last());
                assert(cmds0 == kept.last().commands);
            }
            match find_last_command(&last_c.commands, id) {
                Some(j) => {
                    if payload.is_similar(&last_c.commands[j].payload) {
                        self.collections.push(last_c);
                        proof {
                            assert(self@ =~= kept);
                        }
                    } else {
                        last_c.commands[j] = Command { id, payload };
                        self.collections.push(last_c);
                        proof {
                            let c = kept.last();
                            let cv = CollectionView {
                                timestamp: c.timestamp,
                                commands: c.commands.update(
                                    idx_of_id(c.commands, id),
                                    Command { id, payload },
                                ),
                            };
                            assert(last_c@ == cv);
                            assert(self@ =~= kept.update(kept.len() - 1, cv));
                        }
                    }
                },
                None => {
                    last_c.commands.push(Command { id, payload });
                    self.collections.push(last_c);
                    proof {
                        let c = kept.last();
                        let cv = CollectionView {
                            timestamp: c.timestamp,
                            commands: c.commands.push(Command { id, payload }),
                        };
                        assert(last_c@ == cv);
                        assert(self@ =~= kept.update(kept.len() - 1, cv));
                    }
                },
            }
        } else {
            let mut commands: Vec<Command<T>> = Vec::new();
            commands.push(Command { id, payload });
            self.collections.push(CommandCollection { timestamp: now, commands });
            proof {
                let cv = CollectionView {
                    timestamp: now,
                    commands: seq![Command { id, payload }],
                };
                assert(commands@ =~= seq![Command { id, payload }]);
                assert(self@ =~= kept.push(cv));
            }
        }
        self.cursor = now;
    }

    /// The rewind (and replay) query. Hands out every collection whose
    /// timestamp lies in the half-open interval between the consumed-cursor
    /// and the manager's current time — chronological while the cursor moves
    /// forward, reverse-chronological while it runs backward past them — and
    /// advances the cursor to the current time. No collections due is an
    /// empty batch, never an error. Under linear interpolation it also
    /// reports the blend position between the two collections that bracket
    /// the current time, when both exist.
    pub fn take_commands_to_apply(
        &mut self,
        time_manager: &TimeManager,
        interpolation: InterpolationType,
    ) -> (r: (Vec<CommandCollection<T>>, Option<InterpolationFraction>))
        requires
            old(self).wf(),
        ensures
            final(self).wf(),
            final(self)@ == old(self)@,
            final(self).consumed_up_to() == time_manager.time(),
            r.0@.map_values(|c: CommandCollection<T>| c@) == (if old(
                self,
            ).consumed_up_to().millis <= time_manager.time().millis {
                due_forward(old(self)@, old(self).consumed_up_to(), time_manager.time())
            } else {
                due_backward(old(self)@, old(self).consumed_up_to(), time_manager.time())
            }),
            (match r.1 {
                Some(f) => {
                    let b = count_at_or_before(old(self)@, time_manager.time());
                    &&& interpolation == InterpolationType::Linear
                    &&& 0 < b < old(self)@.len()
                    &&& f.numerator == time_manager.time().millis - old(
                        self,
                    )@[b - 1].timestamp.millis
                    &&& f.denominator == old(self)@[b].timestamp.millis - old(
                        self,
                    )@[b - 1].timestamp.millis
                    &&& f.wf()
                },
                None => interpolation == InterpolationType::Discrete || count_at_or_before(
                    old(self)@,
                    time_manager.time(),
                ) == 0 || count_at_or_before(old(self)@, time_manager.time()) == old(
                    self,
                )@.len(),
            }),
    {
        let now = time_manager.level_time();
        let cursor = self.cursor;
        let ghost log0 = self@;
        let mut due: Vec<CommandCollection<T>> = Vec::new();
        if cursor.millis <= now.millis {
            let a = self.first_index_after(cursor);
            let b = self.first_index_after(now);
            proof {
                lemma_count_at_or_before_monotone(log0, cursor, now);
                lemma_count_at_or_before_bounds(log0, now);
            }
            let mut k = a;
            while k < b
                invariant
                    self@ == log0,
                    timestamps_sorted(log0),
                    self.collections@.len() == log0.len(),
                    a <= k <= b <= self.collections.len(),
                    due@.len() == k - a,
                    forall|m: int|
                        0 <= m < due@.len() ==> #[trigger] due@[m]@ == log0[a + m],
                decreases b - k,
            {
                let c = snapshot_collection(&self.collections[k]);
                proof {
                    assert(self.collections@[k as int]@ == log0[k as int]);
                }
                due.push(c);
                k += 1;
            }
            proof {
                assert(due@.map_values(|c: CommandCollection<T>| c@) =~= due_forward(
                    log0,
                    cursor,
                    now,
                ));
            }
        } else {
            let a = self.first_index_after(now);
            let b = self.first_index_after(cursor);
            proof {
                lemma_count_at_or_before_monotone(log0, now, cursor);
                lemma_count_at_or_before_bounds(log0, cursor);
            }
            let mut k = b;
            while k > a
                invariant
                    self@ == log0,
                    timestamps_sorted(log0),
                    self.collections@.len() == log0.len(),
                    a <= k <= b <= self.collections.len(),
                    due@.len() == b - k,
                    forall|m: int|
                        0 <= m < due@.len() ==> #[trigger] due@[m]@ == log0[b - 1 - m],
                decreases k,
            {
                k = k - 1;
                let c = snapshot_collection(&self.collections[k]);
                proof {
                    assert(self.collections@[k as int]@ == log0[k as int]);
                }
                due.push(c);
            }
            proof {
                let sub = log0.subrange(
                    count_at_or_before(log0, now),
                    count_at_or_before(log0, cursor),
                );
                assert forall|m: int| 0 <= m < sub.len() implies #[trigger] sub.reverse()[m]
                    == log0[b - 1 - m] by {
                    assert(sub.reverse()[m] == sub[sub.len() - 1 - m]);
                }
                assert(due@.map_values(|c: CommandCollection<T>| c@) =~= due_backward(
                    log0,
                    cursor,
                    now,
                ));
            }
        }
        let frac = match interpolation {
            InterpolationType::Discrete => None,
            InterpolationType::Linear => {
                let bnd = self.first_index_after(now);
                if 0 < bnd && bnd < self.collections.len() {
                    proof {
                        lemma_count_at_or_before_bounds(log0, now);
                        assert(self.collections@[bnd - 1]@ == log0[bnd - 1]);
                        assert(self.collections@[bnd as int]@ == log0[bnd as int]);
                        assert(log0[bnd - 1].timestamp.millis <= now.millis);
                        assert(log0[bnd as int].timestamp.millis > now.millis);
                        assert(log0[bnd - 1].timestamp.millis < log0[bnd as int].timestamp.millis);
                    }
                    let lo = self.collections[bnd - 1].timestamp;
                    let hi = self.collections[bnd].timestamp;
                    Some(LevelTime::interpolation_fraction(lo, hi, now))
                } else {
                    None
                }
            },
        };
        self.cursor = now;
        (due, frac)
    }

    /// The first index whose collection is stamped after `t`.
    fn first_index_after(&self, t: LevelTime) -> (r: usize)
        requires
            timestamps_sorted(self@),
        ensures
            r == count_at_or_before(self@, t),
            r <= self@.len(),
    {
        let n = self.collections.len();
        proof {
            lemma_count_at_or_before_bounds(self@, t);
        }
        let mut k: usize = 0;
        while k < n && self.collections[k].timestamp.millis <= t.millis
            invariant
                timestamps_sorted(self@),
                n == self.collections.len(),
                self@.len() == n,
                k <= n,
                k <= count_at_or_before(self@, t),
            decreases n - k,
        {
            proof {
                lemma_count_at_or_before_bounds(self@, t);
                assert(self@[k as int] == self.collections@[k as int]@);
            }
            k += 1;
        }
        proof {
            lemma_count_at_or_before_bounds(self@, t);
            let c = count_at_or_before(self@, t);
            if k < n {
                assert(self@[k as int] == self.collections@[k as int]@);
                assert(self@[k as int].timestamp.millis > t.millis);
            }
            assert(k == c);
        }
        k
    }

}

/// An exact copy of a collection, built from payload snapshots, so the log
/// keeps the original for later replays.
fn snapshot_collection<T: GameChange>(c: &CommandCollection<T>) -> (r: CommandCollection<T>)
    ensures
        r@ == c@,
{
    let mut commands: Vec<Command<T>> = Vec::new();
    let mut i: usize = 0;
    while i < c.commands.len()
        invariant
            i <= c.commands.len(),
            commands@.len() == i,
            forall|m: int| 0 <= m < i ==> #[trigger] commands@[m] == c.commands@[m],
        decreases c.commands.len() - i,
    {
        let cmd = &c.commands[i];
        commands.push(Command { id: cmd.id, payload: cmd.payload.snapshot() });
        i += 1;
    }
    proof {
        assert(commands@ =~= c.commands@);
    }
    CommandCollection { timestamp: c.timestamp, commands }
}

/// No duplicate application while the cursor runs backward: two consecutive
/// rewind queries hand out disjoint batches of collections.
pub proof fn lemma_no_duplicate_rewind<T>(
    log: Seq<CollectionView<T>>,
    t0: LevelTime,
    t1: LevelTime,
    t2: LevelTime,
)
    requires
        timestamps_sorted(log),
        t1.millis <= t0.millis,
        t2.millis <= t1.millis,
    ensures
        forall|x: CollectionView<T>|
            due_backward(log, t0, t1).contains(x) ==> !due_backward(log, t1, t2).contains(x),
{
    lemma_count_at_or_before_bounds(log, t0);
    lemma_count_at_or_before_bounds(log, t1);
    lemma_count_at_or_before_bounds(log, t2);
    lemma_count_at_or_before_monotone(log, t2, t1);
    lemma_count_at_or_before_monotone(log, t1, t0);
    assert forall|x: CollectionView<T>|
        due_backward(log, t0, t1).contains(x) implies !due_backward(
        log,
        t1,
        t2,
    ).contains(x) by {
        let i = choose|i: int|
            0 <= i < due_backward(log, t0, t1).len() && due_backward(log, t0, t1)[i] == x;
        let s1 = log.subrange(count_at_or_before(log, t1), count_at_or_before(log, t0));
        assert(s1.reverse()[i] == s1[s1.len() - 1 - i]);
        assert(x.timestamp.millis > t1.millis);
        if due_backward(log, t1, t2).contains(x) {
            let j = choose|j: int|
                0 <= j < due_backward(log, t1, t2).len() && due_backward(log, t1, t2)[j] == x;
            let s2 = log.subrange(count_at_or_before(log, t2), count_at_or_before(log, t1));
            assert(s2.reverse()[j] == s2[s2.len() - 1 - j]);
            assert(x.timestamp.millis <= t1.millis);
        }
    }
}

} // verus!
