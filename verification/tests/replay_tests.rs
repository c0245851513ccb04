use time_rewind::animation_change::PlayingAnimationChange;
use time_rewind::game_change::{Command, CommandCollection};
use time_rewind::history::{GameChangeHistory, InterpolationType};
use time_rewind::level_time::LevelTime;
use time_rewind::replay::{apply_collection, apply_collections, TrackedState};
use time_rewind::time_manager::TimeManager;
use time_rewind::tracked_id::TimeTrackedId;

fn change(id: u64, end_millis: u64, reverse: bool) -> PlayingAnimationChange {
    PlayingAnimationChange {
        id: TimeTrackedId::new(id),
        end_time: LevelTime::from_millis(end_millis),
        reverse,
    }
}

#[test]
fn apply_overwrites_mentioned_entities_only() {
    let mut states = vec![
        TrackedState { id: TimeTrackedId::new(1), state: change(1, 10, false) },
        TrackedState { id: TimeTrackedId::new(2), state: change(2, 20, false) },
    ];
    let collection = CommandCollection {
        timestamp: LevelTime::from_millis(500),
        commands: vec![Command { id: TimeTrackedId::new(1), payload: change(1, 99, true) }],
    };
    apply_collection(&mut states, &collection);
    assert_eq!(states[0].state, change(1, 99, true));
    assert_eq!(states[1].state, change(2, 20, false));
}

#[test]
fn missing_entity_is_skipped_others_still_apply() {
    // a command for an id absent from the live world never fails the pass
    let mut states = vec![TrackedState { id: TimeTrackedId::new(1), state: change(1, 10, false) }];
    let collection = CommandCollection {
        timestamp: LevelTime::from_millis(500),
        commands: vec![
            Command { id: TimeTrackedId::new(99), payload: change(99, 1, true) },
            Command { id: TimeTrackedId::new(1), payload: change(1, 42, false) },
        ],
    };
    apply_collection(&mut states, &collection);
    assert_eq!(states.len(), 1);
    assert_eq!(states[0].id, TimeTrackedId::new(1));
    assert_eq!(states[0].state, change(1, 42, false));
}

#[test]
fn round_trip_record_rewind_replay() {
    // record three distinct states, rewind to the epoch, replay forward to
    // the original end time: the final observable state matches the forward run
    let mut tm = TimeManager::new();
    let mut h = GameChangeHistory::new();
    let id = TimeTrackedId::new(7);
    let mut live = vec![TrackedState { id, state: change(7, 0, false) }];
    for step in 1..=3u64 {
        tm.tick(1000);
        let s = change(7, step * 1000, step % 2 == 0);
        h.add_command(&tm, id, s);
        live[0].state = s;
    }
    let end_state = live[0].state;
    // rewind to the epoch, applying each due batch
    tm.start_rewind(LevelTime::zero());
    while tm.is_rewinding() {
        tm.tick(700);
        let (batch, _) = h.take_commands_to_apply(&tm, InterpolationType::Discrete);
        apply_collections(&mut live, &batch);
    }
    assert_eq!(tm.level_time_millis(), 0);
    // after the full rewind the earliest recorded state shows
    assert_eq!(live[0].state, change(7, 1000, false));
    // replay forward to the original end time
    tm.tick(3000);
    let (batch, _) = h.take_commands_to_apply(&tm, InterpolationType::Discrete);
    assert_eq!(batch.len(), 3);
    apply_collections(&mut live, &batch);
    assert_eq!(live[0].state, end_state);
}

#[test]
fn replay_is_deterministic_whatever_the_live_state() {
    let mut tm = TimeManager::new();
    let mut h = GameChangeHistory::new();
    let id = TimeTrackedId::new(7);
    tm.tick(1000);
    h.add_command(&tm, id, change(7, 123, true));
    tm.start_rewind(LevelTime::zero());
    tm.tick(1000);
    let (batch, _) = h.take_commands_to_apply(&tm, InterpolationType::Discrete);

    let mut live_a = vec![TrackedState { id, state: change(7, 777, false) }];
    let mut live_b = vec![TrackedState { id, state: change(7, 888, true) }];
    apply_collections(&mut live_a, &batch);
    apply_collections(&mut live_b, &batch);
    assert_eq!(live_a[0].state, live_b[0].state);
    assert_eq!(live_a[0].state, change(7, 123, true));
}

#[test]
fn worked_example_entity_seven() {
    // record {id=7, end_time=1.0s} at 1.0s and {id=7, end_time=2.0s} at 2.0s,
    // rewind toward 0: the 2.0s collection applies first, then the 1.0s one,
    // and entity 7 ends at the first recorded state
    let mut tm = TimeManager::new();
    let mut h = GameChangeHistory::new();
    let id = TimeTrackedId::new(7);
    tm.tick(1000);
    h.add_command(&tm, id, change(7, 1000, false));
    tm.tick(1000);
    h.add_command(&tm, id, change(7, 2000, false));

    let mut live = vec![TrackedState { id, state: change(7, 2000, false) }];
    tm.start_rewind(LevelTime::zero());
    tm.tick(500);
    let (batch, _) = h.take_commands_to_apply(&tm, InterpolationType::Discrete);
    assert_eq!(batch.len(), 1);
    assert_eq!(batch[0].timestamp, LevelTime::from_millis(2000));
    apply_collections(&mut live, &batch);
    assert_eq!(live[0].state, change(7, 2000, false));

    tm.tick(2000);
    let (batch, _) = h.take_commands_to_apply(&tm, InterpolationType::Discrete);
    assert_eq!(batch.len(), 1);
    assert_eq!(batch[0].timestamp, LevelTime::from_millis(1000));
    apply_collections(&mut live, &batch);
    assert_eq!(live[0].state, change(7, 1000, false));
    assert_eq!(live[0].state.end_time, LevelTime::from_millis(1000));
    assert!(!live[0].state.reverse);
}

#[test]
fn last_write_wins_within_a_collection() {
    // two commands for the same id in one collection: the later one applies
    let mut states = vec![TrackedState { id: TimeTrackedId::new(1), state: change(1, 0, false) }];
    let collection = CommandCollection {
        timestamp: LevelTime::from_millis(500),
        commands: vec![
            Command { id: TimeTrackedId::new(1), payload: change(1, 11, false) },
            Command { id: TimeTrackedId::new(1), payload: change(1, 22, false) },
        ],
    };
    apply_collection(&mut states, &collection);
    assert_eq!(states[0].state, change(1, 22, false));
}
