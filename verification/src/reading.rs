//! Marks for moments that were read from the machine.
//!
//! What the machine's clock shows, and what its time zone gives, is no function
//! of anything that the library holds, so it cannot be defined here. Each mark is
//! therefore defined by no more than what holds of every such reading, and the
//! definition is kept from the other modules. These get a mark only from the
//! functions that read the clock or ask the time zone; they cannot put it on a
//! moment that they made up.
use vstd::prelude::*;

use crate::calendar;
use crate::clock;
use crate::clock::{LocalTime, NANOS_PER_SECOND};

verus! {

/// Marks a moment that was read from the machine's clock.
pub closed spec fn shown_by_clock(time: LocalTime) -> bool {
    time.valid() && time.utc >= 0 && time.nanos < NANOS_PER_SECOND
}

/// Marks a moment whose offset was given by the machine's time zone.
pub closed spec fn given_by_zone(time: LocalTime) -> bool {
    clock::valid_offset(time.offset as int)
}

/// Marks a second of a day for which the machine's time zone was asked and gave no
/// single moment.
pub closed spec fn refused_by_zone(day: int, second: int) -> bool {
    calendar::in_calendar(day) && 0 <= second < 86400
}

/// Whether a day is the local date of a moment that was read from the machine's
/// clock.
pub open spec fn is_today(day: int) -> bool {
    exists|now: LocalTime| #[trigger] shown_by_clock(now) && now.valid() && now.day() == day
}

} // verus!
