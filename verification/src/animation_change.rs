use vstd::prelude::*;

use crate::game_change::GameChange;
use crate::level_time::LevelTime;
use crate::tracked_id::TimeTrackedId;

verus! {

/// The recordable state of a playing animation: which entity it belongs to,
/// when the playback ends, and whether it runs in reverse. The concrete
/// payload type the animation systems hand to their history.
#[derive(Clone, Copy, Debug, PartialEq, Eq, Structural)]
pub struct PlayingAnimationChange {
    pub id: TimeTrackedId,
    pub end_time: LevelTime,
    pub reverse: bool,
}

impl GameChange for PlayingAnimationChange {
    /// Two animation states are similar exactly when nothing about them
    /// differs: replaying either produces the same playback.
    open spec fn similar_spec(&self, other: &Self) -> bool {
        *self == *other
    }

    fn is_similar(&self, other: &Self) -> (r: bool) {
        *self == *other
    }

    fn snapshot(&self) -> (r: Self) {
        *self
    }
}

} // verus!
