use vstd::prelude::*;

verus! {

/// A resource version: whole seconds and the nanoseconds past that second.
#[derive(Clone, Copy, Debug, PartialEq, Eq, Structural)]
pub struct TaiTime {
    pub seconds: u64,
    pub nanoseconds: u32,
}

pub const NANOS_PER_SECOND: u32 = 1_000_000_000;

/// Relies on std's `SystemTime::elapsed` on `UNIX_EPOCH`: the time past the epoch,
/// read as whole seconds and the nanoseconds below one second; `None` where the
/// clock reads before the epoch.
#[verifier::external_body]
fn clock_reading() -> (r: Option<(u64, u32)>)
    ensures
        r matches Some(t) ==> t.1 < NANOS_PER_SECOND,
{
    match std::time::UNIX_EPOCH.elapsed() {
        Ok(d) => Some((d.as_secs(), d.subsec_nanos())),
        Err(_) => None,
    }
}

impl TaiTime {
    /// Nanoseconds are below one second.
    pub open spec fn wf(self) -> bool {
        self.nanoseconds < NANOS_PER_SECOND
    }

    /// Total order of versions: by seconds, then by nanoseconds.
    pub open spec fn le(self, other: TaiTime) -> bool {
        self.seconds < other.seconds || (self.seconds == other.seconds && self.nanoseconds
            <= other.nanoseconds)
    }

    pub open spec fn lt(self, other: TaiTime) -> bool {
        self.le(other) && self != other
    }

    /// A version from its two components, where the nanoseconds are below one second.
    pub fn new(seconds: u64, nanoseconds: u32) -> (r: Option<TaiTime>)
        ensures
            r is Some <==> nanoseconds < NANOS_PER_SECOND,
            r matches Some(t) ==> t.seconds == seconds && t.nanoseconds == nanoseconds,
    {
        if nanoseconds < NANOS_PER_SECOND {
            Some(TaiTime { seconds, nanoseconds })
        } else {
            None
        }
    }

    /// The version for a clock reading: the reading itself, or the epoch `0:0`
    /// where the clock could not be read past the epoch.
    pub fn from_reading(reading: Option<(u64, u32)>) -> (r: TaiTime)
        requires
            reading matches Some(t) ==> t.1 < NANOS_PER_SECOND,
        ensures
            r.wf(),
            reading matches Some(t) ==> r.seconds == t.0 && r.nanoseconds == t.1,
            reading is None ==> r == (TaiTime { seconds: 0, nanoseconds: 0 }),
    {
        match reading {
            Some((seconds, nanoseconds)) => TaiTime { seconds, nanoseconds },
            None => TaiTime { seconds: 0, nanoseconds: 0 },
        }
    }

    /// The time now, as the clock reads it; the epoch where it reads before that.
    pub fn now() -> (r: TaiTime)
        ensures
            r.wf(),
    {
        TaiTime::from_reading(clock_reading())
    }

    /// The version that follows `self` when the clock reads `now`.
    pub open spec fn after(self, now: TaiTime) -> TaiTime {
        if self.lt(now) {
            now
        } else {
            self
        }
    }

    /// Whether `self` comes strictly before `other`.
    pub fn is_before(&self, other: &TaiTime) -> (r: bool)
        ensures
            r == self.lt(*other),
    {
        self.seconds < other.seconds || (self.seconds == other.seconds && self.nanoseconds
            < other.nanoseconds)
    }

    /// The version that follows `self` when the clock reads `now`: the reading where
    /// it is later, else `self`, so that a version never moves back.
    pub fn advanced_to(&self, now: TaiTime) -> (r: TaiTime)
        ensures
            r == self.after(now),
            self.le(r),
            self.lt(now) ==> self.lt(r),
    {
        if self.is_before(&now) {
            now
        } else {
            *self
        }
    }

    /// A fresh version for a resource whose current version is `self`.
    pub fn bump(&self) -> (r: TaiTime)
        requires
            self.wf(),
        ensures
            r.wf(),
            self.le(r),
    {
        self.advanced_to(TaiTime::now())
    }
}

/// A source of versions that never moves back, even where the clock does.
pub struct TimeSource {
    last: TaiTime,
}

impl TimeSource {
    /// The latest version handed out, or the epoch before the first.
    pub closed spec fn last(&self) -> TaiTime {
        self.last
    }

    #[verifier::type_invariant]
    spec fn wf(self) -> bool {
        self.last.wf()
    }

    pub fn new() -> (r: TimeSource)
        ensures
            r.last() == (TaiTime { seconds: 0, nanoseconds: 0 }),
    {
        TimeSource { last: TaiTime { seconds: 0, nanoseconds: 0 } }
    }

    /// The version for a reading `now`: the reading where it is later than every
    /// version handed out so far, else the latest of those again.
    pub fn stamp_at(&mut self, now: TaiTime) -> (r: TaiTime)
        requires
            now.wf(),
        ensures
            r == old(self).last().after(now),
            r.wf(),
            old(self).last().le(r),
            old(self).last().lt(now) ==> old(self).last().lt(r),
            final(self).last() == r,
    {
        proof {
            use_type_invariant(&*self);
        }
        let r = self.last.advanced_to(now);
        self.last = r;
        r
    }

    /// A version for the clock's present reading, never before an earlier one.
    pub fn stamp(&mut self) -> (r: TaiTime)
        ensures
            r.wf(),
            old(self).last().le(r),
            final(self).last() == r,
    {
        self.stamp_at(TaiTime::now())
    }
}

} // verus!
