//! Assembly of the computed daylight instants.
//!
//! The solar-position stage of a daylight calculation yields, for one UTC
//! day, the offsets in whole seconds from that day's UTC midnight to morning
//! civil twilight, sunrise, solar noon, sunset, and evening civil twilight,
//! together with the day length. [`assemble_daylight`] anchors those offsets
//! at the midnight timestamp and establishes the ordering invariant of the
//! result.

use vstd::prelude::*;

verus! {

/// The result of a daylight calculation: five UTC instants as seconds since
/// the Unix epoch, and the length of the day in seconds.
#[derive(Clone, Copy, Debug, PartialEq, Eq, Structural)]
pub struct Daylight {
    pub twilight_morning: i64,
    pub sunrise: i64,
    pub noon: i64,
    pub sunset: i64,
    pub twilight_evening: i64,
    pub daylength_seconds: i64,
}

impl Daylight {
    /// The invariant of every assembled result: morning twilight, sunrise,
    /// noon, sunset, and evening twilight occur in this order, and the day
    /// length is never negative.
    pub open spec fn wf(self) -> bool {
        &&& self.twilight_morning <= self.sunrise <= self.noon <= self.sunset
            <= self.twilight_evening
        &&& 0 <= self.daylength_seconds
    }
}

/// Anchors the five day-fraction offsets at the UTC midnight of the computed
/// day. The offsets must arrive ordered, as the hour-angle clamp of the
/// solar stage guarantees; the assembled result then satisfies the ordering
/// invariant [`Daylight::wf`].
pub fn assemble_daylight(
    midnight: i64,
    twilight_morning_offset: i64,
    sunrise_offset: i64,
    noon_offset: i64,
    sunset_offset: i64,
    twilight_evening_offset: i64,
    daylength_seconds: i64,
) -> (d: Daylight)
    requires
        twilight_morning_offset <= sunrise_offset <= noon_offset <= sunset_offset
            <= twilight_evening_offset,
        0 <= daylength_seconds,
        i64::MIN <= midnight + twilight_morning_offset,
        midnight + twilight_evening_offset <= i64::MAX,
    ensures
        d.twilight_morning == midnight + twilight_morning_offset,
        d.sunrise == midnight + sunrise_offset,
        d.noon == midnight + noon_offset,
        d.sunset == midnight + sunset_offset,
        d.twilight_evening == midnight + twilight_evening_offset,
        d.daylength_seconds == daylength_seconds,
        d.wf(),
{
    Daylight {
        twilight_morning: midnight + twilight_morning_offset,
        sunrise: midnight + sunrise_offset,
        noon: midnight + noon_offset,
        sunset: midnight + sunset_offset,
        twilight_evening: midnight + twilight_evening_offset,
        daylength_seconds,
    }
}

/// Determinism law: the assembled result is a function of the midnight and
/// the offsets alone, so two results assembled from equal inputs are equal.
pub proof fn lemma_assembly_deterministic(
    a: Daylight,
    b: Daylight,
    midnight: i64,
    twilight_morning_offset: i64,
    sunrise_offset: i64,
    noon_offset: i64,
    sunset_offset: i64,
    twilight_evening_offset: i64,
    daylength_seconds: i64,
)
    requires
        a.twilight_morning == midnight + twilight_morning_offset,
        a.sunrise == midnight + sunrise_offset,
        a.noon == midnight + noon_offset,
        a.sunset == midnight + sunset_offset,
        a.twilight_evening == midnight + twilight_evening_offset,
        a.daylength_seconds == daylength_seconds,
        b.twilight_morning == midnight + twilight_morning_offset,
        b.sunrise == midnight + sunrise_offset,
        b.noon == midnight + noon_offset,
        b.sunset == midnight + sunset_offset,
        b.twilight_evening == midnight + twilight_evening_offset,
        b.daylength_seconds == daylength_seconds,
    ensures
        a == b,
{
}

} // verus!
