//! Instants and lengths of time, counted in seconds and nanoseconds.

use crate::calendar::{
    civil_of, lemma_civil_of, lemma_instant_determines, Civil, MAX_SECS, MIN_SECS,
};
use vstd::prelude::*;

verus! {

/// Nanoseconds in a second.
pub const NANOS_PER_SEC: u32 = 1_000_000_000;

/// An instant in UTC: whole seconds from 1970-01-01T00:00:00, and the
/// nanoseconds that follow them.
#[derive(Clone, Copy, Debug, PartialEq, Eq, PartialOrd, Ord, Hash, Structural)]
pub struct Timestamp {
    pub secs: i64,
    pub nanos: u32,
}

/// A length of time that is not negative, in nanoseconds.
#[derive(Clone, Copy, Debug, PartialEq, Eq, PartialOrd, Ord, Hash, Structural)]
pub struct Duration {
    pub nanos: u128,
}

/// A length of time with a sign, in nanoseconds.
#[derive(Clone, Copy, Debug, PartialEq, Eq, PartialOrd, Ord, Hash, Structural)]
pub struct SignedDuration {
    pub nanos: i128,
}

/// The system clock: `chrono::Utc::now`, read off as the seconds since the
/// epoch (`timestamp`) and the nanoseconds behind them
/// (`timestamp_subsec_nanos`). Nothing is claimed of the reading. As
/// `Utc::now` does, it panics where the system clock stands before 1970.
#[verifier::external_body]
fn system_clock() -> (reading: (i64, u32)) {
    let now = chrono::Utc::now();
    (now.timestamp(), now.timestamp_subsec_nanos())
}

impl Duration {
    /// A length of `secs` seconds and `nanos` nanoseconds.
    pub fn new(secs: u64, nanos: u32) -> (r: Duration)
        ensures
            r.nanos == secs * 1_000_000_000 + nanos,
    {
        Duration { nanos: (secs as u128) * 1_000_000_000 + (nanos as u128) }
    }

    /// A length of whole seconds.
    pub fn from_secs(secs: u64) -> (r: Duration)
        ensures
            r.nanos == secs * 1_000_000_000,
    {
        Duration { nanos: (secs as u128) * 1_000_000_000 }
    }

    /// A length of whole milliseconds.
    pub fn from_millis(millis: u64) -> (r: Duration)
        ensures
            r.nanos == millis * 1_000_000,
    {
        Duration { nanos: (millis as u128) * 1_000_000 }
    }
}

impl SignedDuration {
    /// The same length without a sign, where it is not negative.
    pub open spec fn unsigned(self) -> Option<Duration> {
        if self.nanos < 0 {
            None
        } else {
            Some(Duration { nanos: self.nanos as u128 })
        }
    }

    /// A length of `secs` seconds and `nanos` nanoseconds, added up with
    /// their signs.
    pub fn new(secs: i64, nanos: i32) -> (r: SignedDuration)
        ensures
            r.nanos == secs * 1_000_000_000 + nanos,
    {
        SignedDuration { nanos: (secs as i128) * 1_000_000_000 + (nanos as i128) }
    }

    /// The same length without a sign; `None` for a negative length.
    pub fn to_unsigned(&self) -> (r: Option<Duration>)
        ensures
            r == self.unsigned(),
    {
        if self.nanos < 0 {
            None
        } else {
            Some(Duration { nanos: self.nanos as u128 })
        }
    }
}

impl Timestamp {
    /// The instant lies in the supported range, and the nanoseconds stay
    /// below one second.
    pub open spec fn wf(self) -> bool {
        MIN_SECS <= self.secs <= MAX_SECS && self.nanos < NANOS_PER_SEC
    }

    /// Nanoseconds from the epoch to this instant.
    pub open spec fn nanos_since_epoch(self) -> int {
        self.secs * 1_000_000_000 + self.nanos
    }

    /// Whether this instant lies before `other`.
    pub open spec fn before(self, other: Timestamp) -> bool {
        self.nanos_since_epoch() < other.nanos_since_epoch()
    }

    /// The date and time of day of the second that this instant lies in.
    pub open spec fn civil(self) -> Civil {
        civil_of(self.secs as int)
    }

    /// The instant that lies `nanos` nanoseconds behind this one, where the
    /// supported range holds it.
    pub open spec fn plus_nanos(self, nanos: int) -> Option<Timestamp> {
        let sum = self.nanos_since_epoch() + nanos;
        let secs = sum / 1_000_000_000;
        if secs <= MAX_SECS {
            Some(Timestamp { secs: secs as i64, nanos: (sum % 1_000_000_000) as u32 })
        } else {
            None
        }
    }

    /// The instant that lies `d` behind this one, where the supported range
    /// holds it.
    pub open spec fn plus(self, d: Duration) -> Option<Timestamp> {
        self.plus_nanos(d.nanos as int)
    }

    /// The instant of the supported range that is nearest to the given
    /// seconds and nanoseconds.
    pub open spec fn nearest(secs: i64, nanos: u32) -> Timestamp {
        Timestamp {
            secs: if secs < MIN_SECS {
                MIN_SECS
            } else if secs > MAX_SECS {
                MAX_SECS
            } else {
                secs
            },
            nanos: if nanos < NANOS_PER_SEC {
                nanos
            } else {
                (NANOS_PER_SEC - 1) as u32
            },
        }
    }

    /// The instant `secs` seconds and `nanos` nanoseconds from the epoch,
    /// where the supported range holds it and `nanos` stays below one second.
    pub fn new(secs: i64, nanos: u32) -> (r: Option<Timestamp>)
        ensures
            r == if MIN_SECS <= secs <= MAX_SECS && nanos < NANOS_PER_SEC {
                Some(Timestamp { secs, nanos })
            } else {
                None
            },
            r matches Some(t) ==> t.wf(),
    {
        if MIN_SECS <= secs && secs <= MAX_SECS && nanos < NANOS_PER_SEC {
            Some(Timestamp { secs, nanos })
        } else {
            None
        }
    }

    /// The instant of the supported range that is nearest to the given
    /// seconds and nanoseconds.
    pub fn saturating(secs: i64, nanos: u32) -> (r: Timestamp)
        ensures
            r == Timestamp::nearest(secs, nanos),
            r.wf(),
    {
        let secs: i64 = if secs < MIN_SECS {
            MIN_SECS
        } else if secs > MAX_SECS {
            MAX_SECS
        } else {
            secs
        };
        let nanos: u32 = if nanos < NANOS_PER_SEC {
            nanos
        } else {
            NANOS_PER_SEC - 1
        };
        Timestamp { secs, nanos }
    }

    /// The present instant, as the system clock gives it. A reading that is
    /// no instant of the supported range is taken as the nearest one.
    pub fn now() -> (r: Timestamp)
        ensures
            r.wf(),
    {
        let (secs, nanos) = system_clock();
        Timestamp::saturating(secs, nanos)
    }

    /// Whether the fields name an instant of the supported range.
    pub fn is_valid(&self) -> (r: bool)
        ensures
            r == self.wf(),
    {
        MIN_SECS <= self.secs && self.secs <= MAX_SECS && self.nanos < NANOS_PER_SEC
    }

    /// The first instant of the second that `c` names; `None` where `c` is no
    /// date and time of the supported range.
    pub fn from_civil(c: &Civil) -> (r: Option<Timestamp>)
        ensures
            r == if c.wf() {
                Some(Timestamp { secs: c.instant() as i64, nanos: 0 })
            } else {
                None
            },
            r matches Some(t) ==> t.wf() && t.civil() == *c,
    {
        if c.is_valid() {
            let secs = c.to_secs();
            proof {
                lemma_civil_of(secs as int);
                lemma_instant_determines(civil_of(secs as int), *c);
            }
            Some(Timestamp { secs, nanos: 0 })
        } else {
            None
        }
    }

    /// The date and time of day of the second that this instant lies in.
    pub fn to_civil(&self) -> (c: Civil)
        requires
            self.wf(),
        ensures
            c == self.civil(),
            c.wf(),
            c.instant() == self.secs,
    {
        Civil::from_secs(self.secs)
    }

    /// Whether this instant lies before `other`.
    pub fn is_before(&self, other: &Timestamp) -> (r: bool)
        requires
            self.wf(),
            other.wf(),
        ensures
            r == self.before(*other),
    {
        self.secs < other.secs || (self.secs == other.secs && self.nanos < other.nanos)
    }

    /// The instant that lies `d` behind this one; `None` where it lies
    /// beyond the supported range.
    pub fn checked_add(&self, d: &Duration) -> (r: Option<Timestamp>)
        requires
            self.wf(),
        ensures
            r == self.plus(*d),
            r matches Some(t) ==> t.wf() && t.nanos_since_epoch() == self.nanos_since_epoch()
                + d.nanos,
            r is None <==> self.nanos_since_epoch() + d.nanos >= (MAX_SECS + 1) * 1_000_000_000,
    {
        let whole: u128 = d.nanos / 1_000_000_000;
        let rest: u128 = d.nanos % 1_000_000_000;
        if whole > (MAX_SECS - MIN_SECS) as u128 {
            return None;
        }
        let nanos_sum: u32 = self.nanos + rest as u32;
        let (carry, nanos): (i64, u32) = if nanos_sum >= NANOS_PER_SEC {
            (1, nanos_sum - NANOS_PER_SEC)
        } else {
            (0, nanos_sum)
        };
        let secs: i64 = self.secs + whole as i64 + carry;
        assert(self.nanos_since_epoch() + d.nanos == secs * 1_000_000_000 + nanos);
        if secs <= MAX_SECS {
            Some(Timestamp { secs, nanos })
        } else {
            None
        }
    }
}

} // verus!
