use vstd::prelude::*;

verus! {

/// Elapsed simulation time within a level, counted in whole milliseconds
/// since the level's epoch (time zero). A totally ordered scalar: it never
/// goes below the epoch, increases while playing forward and decreases only
/// while rewinding.
#[derive(Clone, Copy, Debug, PartialEq, Eq, Structural, Hash)]
pub struct LevelTime {
    pub millis: u64,
}

/// A normalized interpolation position inside a time interval, kept as an
/// exact rational `numerator / denominator` clamped to `[0, 1]`
/// (`numerator <= denominator`, `denominator > 0`). Callers that blend two
/// payload samples turn it into whatever scalar their math uses.
#[derive(Clone, Copy, Debug, PartialEq, Eq, Structural)]
pub struct InterpolationFraction {
    pub numerator: u64,
    pub denominator: u64,
}

impl InterpolationFraction {
    /// The fraction denotes a position in `[0, 1]`.
    pub open spec fn wf(self) -> bool {
        self.denominator > 0 && self.numerator <= self.denominator
    }
}

impl LevelTime {
    /// The level's epoch.
    pub fn zero() -> (r: LevelTime)
        ensures
            r.millis == 0,
    {
        LevelTime { millis: 0 }
    }

    pub fn from_millis(millis: u64) -> (r: LevelTime)
        ensures
            r.millis == millis,
    {
        LevelTime { millis }
    }

    pub fn as_millis(&self) -> (r: u64)
        ensures
            r == self.millis,
    {
        self.millis
    }

    pub fn is_before(&self, other: &LevelTime) -> (r: bool)
        ensures
            r == (self.millis < other.millis),
    {
        self.millis < other.millis
    }

    pub fn is_at_or_before(&self, other: &LevelTime) -> (r: bool)
        ensures
            r == (self.millis <= other.millis),
    {
        self.millis <= other.millis
    }

    /// One delta step forward.
    pub fn plus_millis(&self, delta: u64) -> (r: LevelTime)
        requires
            self.millis + delta <= u64::MAX,
        ensures
            r.millis == self.millis + delta,
    {
        LevelTime { millis: self.millis + delta }
    }

    /// One delta step backward, stopping at the epoch.
    pub fn minus_millis_saturating(&self, delta: u64) -> (r: LevelTime)
        ensures
            r.millis == if delta <= self.millis {
                self.millis - delta
            } else {
                0
            },
    {
        if delta <= self.millis {
            LevelTime { millis: self.millis - delta }
        } else {
            LevelTime { millis: 0 }
        }
    }

    /// Subtraction yielding a duration in milliseconds.
    pub fn duration_millis_since(&self, earlier: &LevelTime) -> (r: u64)
        requires
            earlier.millis <= self.millis,
        ensures
            r == self.millis - earlier.millis,
    {
        self.millis - earlier.millis
    }

    /// The normalized interpolation position `(t - lo) / (hi - lo)` clamped
    /// to `[0, 1]`, for smooth playback between two recorded instants.
    pub fn interpolation_fraction(lo: LevelTime, hi: LevelTime, t: LevelTime) -> (r:
        InterpolationFraction)
        requires
            lo.millis < hi.millis,
        ensures
            r.denominator == hi.millis - lo.millis,
            r.numerator == if t.millis <= lo.millis {
                0
            } else if t.millis >= hi.millis {
                hi.millis - lo.millis
            } else {
                t.millis - lo.millis
            },
            r.wf(),
    {
        let denominator = hi.millis - lo.millis;
        let numerator = if t.millis <= lo.millis {
            0
        } else if t.millis >= hi.millis {
            denominator
        } else {
            t.millis - lo.millis
        };
        InterpolationFraction { numerator, denominator }
    }
}

} // verus!
