//! Calendar and time-assembly core of a daylight calculator.
//!
//! A daylight calculator turns a civil calendar moment and a pair of
//! geographic coordinates into the UTC instants of morning civil twilight,
//! sunrise, solar noon, sunset, and evening civil twilight, together with
//! the day length. The spherical-astronomy part of that pipeline works in
//! floating point and lives with the caller; this crate holds the exact
//! integer parts and proves them correct:
//!
//! - [`CalendarMoment`]: a civil date and time of day with a UTC offset,
//!   converted to seconds since the Unix epoch, to the UTC midnight that
//!   anchors the day's instants, and to seconds since the 2000-01-01 epoch
//!   of the solar series.
//! - [`Daylight`]: the assembled result, five instants and a day length in
//!   whole seconds, with the proved invariant that the instants are ordered
//!   and the day length is never negative.

mod calendar;
mod daylight;

pub use calendar::CalendarMoment;
pub use calendar::MAX_YEAR;
pub use calendar::MIN_YEAR;
pub use calendar::SECONDS_PER_DAY;
pub use calendar::days_before_month;
pub use calendar::days_before_year;
pub use calendar::days_in_month;
pub use calendar::days_in_year;
pub use calendar::is_leap_year;
pub use calendar::lemma_day_number_closed_form;
pub use calendar::lemma_days_before_month_bounds;
pub use calendar::lemma_days_before_year_bounds;
pub use calendar::lemma_days_before_year_monotone;
pub use calendar::lemma_timestamp_deterministic;
pub use calendar::lemma_timestamp_positive;
pub use calendar::lemma_utc_midnight_brackets;
pub use calendar::spec_day_number;
pub use calendar::spec_day_number_closed;
pub use calendar::spec_days_before_month;
pub use calendar::spec_days_before_year;
pub use calendar::spec_days_in_month;
pub use calendar::spec_days_in_year;
pub use calendar::spec_epoch_2000_timestamp;
pub use calendar::spec_is_leap_year;
pub use calendar::spec_unix_day_number;
pub use calendar::spec_year_day_total;
pub use calendar::unix_day_number;
pub use daylight::Daylight;
pub use daylight::assemble_daylight;
pub use daylight::lemma_assembly_deterministic;
