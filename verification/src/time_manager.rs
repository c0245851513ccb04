use vstd::prelude::*;

use crate::level_time::LevelTime;

verus! {

/// The playback direction of the level clock.
#[derive(Clone, Copy, Debug, PartialEq, Eq, Structural)]
pub enum TimeMode {
    Playing,
    Rewinding,
}

/// The process-wide clock and mode controller: the current level time, the
/// playback direction, and the target a rewind runs toward. Created once at
/// level start, reset on level reload, ticked every frame by the scheduler,
/// and flipped between modes by an external trigger. It is an explicit
/// context object handed to every system invocation.
pub struct TimeManager {
    level_time: LevelTime,
    mode: TimeMode,
    rewind_target: LevelTime,
}

impl TimeManager {
    /// The current level time.
    pub closed spec fn time(self) -> LevelTime {
        self.level_time
    }

    /// The current playback direction.
    pub closed spec fn current_mode(self) -> TimeMode {
        self.mode
    }

    /// Where the running rewind stops (meaningful while rewinding).
    pub closed spec fn target(self) -> LevelTime {
        self.rewind_target
    }

    /// A rewind never aims past the present: while rewinding, the target
    /// lies at or before the current time.
    pub open spec fn wf(self) -> bool {
        self.current_mode() == TimeMode::Rewinding ==> self.target().millis
            <= self.time().millis
    }

    /// A fresh clock at the level's epoch, playing forward.
    pub fn new() -> (r: TimeManager)
        ensures
            r.wf(),
            r.time().millis == 0,
            r.current_mode() == TimeMode::Playing,
    {
        TimeManager {
            level_time: LevelTime::zero(),
            mode: TimeMode::Playing,
            rewind_target: LevelTime::zero(),
        }
    }

    /// Back to the epoch, playing forward, as on level reload.
    pub fn reset(&mut self)
        ensures
            final(self).wf(),
            final(self).time().millis == 0,
            final(self).current_mode() == TimeMode::Playing,
    {
        self.level_time = LevelTime::zero();
        self.mode = TimeMode::Playing;
        self.rewind_target = LevelTime::zero();
    }

    /// One frame step of `delta_millis`. Playing forward the clock advances
    /// by the delta; rewinding it runs backward by the delta (a rewind speed
    /// other than one is folded into the delta by the caller) and stops at
    /// the target, switching back to playing the moment the target is
    /// reached. The clock never drops below the level's epoch.
    pub fn tick(&mut self, delta_millis: u64)
        requires
            old(self).wf(),
            old(self).current_mode() == TimeMode::Playing ==> old(self).time().millis
                + delta_millis <= u64::MAX,
        ensures
            final(self).wf(),
            old(self).current_mode() == TimeMode::Playing ==> {
                &&& final(self).time().millis == old(self).time().millis + delta_millis
                &&& final(self).current_mode() == TimeMode::Playing
            },
            old(self).current_mode() == TimeMode::Rewinding ==> {
                &&& final(self).target() == old(self).target()
                &&& if old(self).time().millis - old(self).target().millis
                    > delta_millis as int {
                    final(self).time().millis == old(self).time().millis - delta_millis
                        && final(self).current_mode() == TimeMode::Rewinding
                } else {
                    final(self).time() == old(self).target() && final(self).current_mode()
                        == TimeMode::Playing
                }
            },
    {
        match self.mode {
            TimeMode::Playing => {
                self.level_time = self.level_time.plus_millis(delta_millis);
            },
            TimeMode::Rewinding => {
                let remaining = self.level_time.duration_millis_since(&self.rewind_target);
                if remaining > delta_millis {
                    self.level_time = self.level_time.minus_millis_saturating(delta_millis);
                } else {
                    self.level_time = self.rewind_target;
                    self.mode = TimeMode::Playing;
                }
            },
        }
    }

    /// The external trigger that starts a rewind toward `target`. A target
    /// at or past the present has nothing to run backward to, so it leaves
    /// the manager untouched.
    pub fn start_rewind(&mut self, target: LevelTime)
        requires
            old(self).wf(),
        ensures
            final(self).wf(),
            target.millis < old(self).time().millis ==> {
                &&& final(self).current_mode() == TimeMode::Rewinding
                &&& final(self).target() == target
                &&& final(self).time() == old(self).time()
            },
            target.millis >= old(self).time().millis ==> *final(self) == *old(self),
    {
        if target.millis < self.level_time.millis {
            self.mode = TimeMode::Rewinding;
            self.rewind_target = target;
        }
    }

    /// The trigger's release: playback resumes forward from wherever the
    /// rewind had brought the clock.
    pub fn stop_rewind(&mut self)
        requires
            old(self).wf(),
        ensures
            final(self).wf(),
            final(self).current_mode() == TimeMode::Playing,
            final(self).time() == old(self).time(),
    {
        self.mode = TimeMode::Playing;
    }

    pub fn level_time(&self) -> (r: LevelTime)
        ensures
            r == self.time(),
    {
        self.level_time
    }

    pub fn level_time_millis(&self) -> (r: u64)
        ensures
            r == self.time().millis,
    {
        self.level_time.millis
    }

    pub fn mode(&self) -> (r: TimeMode)
        ensures
            r == self.current_mode(),
    {
        self.mode
    }

    pub fn is_playing(&self) -> (r: bool)
        ensures
            r == (self.current_mode() == TimeMode::Playing),
    {
        match self.mode {
            TimeMode::Playing => true,
            TimeMode::Rewinding => false,
        }
    }

    pub fn is_rewinding(&self) -> (r: bool)
        ensures
            r == (self.current_mode() == TimeMode::Rewinding),
    {
        match self.mode {
            TimeMode::Playing => false,
            TimeMode::Rewinding => true,
        }
    }
}

} // verus!
