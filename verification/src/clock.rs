//! The moment at which an entry starts or ends, as far as the log and the
//! names of its files show it. The library reads no clock: its caller hands
//! it a reading.

use vstd::prelude::*;

verus! {

/// A reading of the calendar and the clock: the year, the ISO week of the
/// year, the month, the day of the month, the hour and the minute.
#[derive(Clone, Copy, Debug, PartialEq, Eq)]
pub struct Reading {
    pub year: i32,
    pub week: u32,
    pub month: u32,
    pub day: u32,
    pub hour: u32,
    pub minute: u32,
}

impl Reading {
    /// Whether every field lies within its range: there are weeks 1 to 53,
    /// months 1 to 12, days 1 to 31, hours 0 to 23 and minutes 0 to 59. Any
    /// year is a year.
    pub open spec fn valid(self) -> bool {
        &&& 1 <= self.week <= 53
        &&& 1 <= self.month <= 12
        &&& 1 <= self.day <= 31
        &&& self.hour <= 23
        &&& self.minute <= 59
    }
}

/// A moment of local time: a reading whose fields all lie within their
/// ranges.
#[derive(Clone, Copy, Debug, PartialEq, Eq)]
pub struct Moment {
    reading: Reading,
}

impl View for Moment {
    type V = Reading;

    closed spec fn view(&self) -> Reading {
        self.reading
    }
}

impl Moment {
    #[verifier::type_invariant]
    spec fn holds(self) -> bool {
        self.reading.valid()
    }

    /// The moment that `reading` shows, if the reading is valid.
    pub fn new(reading: Reading) -> (r: Option<Moment>)
        ensures
            r is Some <==> reading.valid(),
            r matches Some(m) ==> m@ == reading,
    {
        if 1 <= reading.week && reading.week <= 53 && 1 <= reading.month && reading.month <= 12
            && 1 <= reading.day && reading.day <= 31 && reading.hour <= 23 && reading.minute
            <= 59 {
            Some(Moment { reading })
        } else {
            None
        }
    }

    /// The reading that the moment holds.
    pub fn reading(&self) -> (r: Reading)
        ensures
            r == self@,
            r.valid(),
    {
        proof {
            use_type_invariant(self);
        }
        self.reading
    }
}

} // verus!
