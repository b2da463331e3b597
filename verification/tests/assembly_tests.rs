use daylight::CalendarMoment;
use daylight::Daylight;
use daylight::assemble_daylight;

fn utc_midnight(year: i64, month: u8, day: u8) -> i64 {
    CalendarMoment::new(year, month, day, 0, 0, 0, 0)
        .expect("the test dates are valid")
        .utc_midnight_timestamp()
}

fn assert_ordered(d: &Daylight) {
    assert!(d.twilight_morning <= d.sunrise);
    assert!(d.sunrise <= d.noon);
    assert!(d.noon <= d.sunset);
    assert!(d.sunset <= d.twilight_evening);
    assert!(d.daylength_seconds >= 0);
}

// The offsets below are the whole-second distances from the UTC midnight of
// the computed day to each instant, as the floating-point solar stage of a
// daylight calculator produces them for the named place and date.

#[test]
fn assemble_apeldoorn_20150327() {
    let midnight = utc_midnight(2015, 3, 27);
    assert_eq!(midnight, 1427414400);
    let d = assemble_daylight(midnight, 17729, 19366, 42087, 64807, 66444, 45440);
    assert_eq!(d.twilight_morning, 1427432129);
    assert_eq!(d.sunrise, 1427433766);
    assert_eq!(d.noon, 1427456487);
    assert_eq!(d.sunset, 1427479207);
    assert_eq!(d.twilight_evening, 1427480844);
    assert_eq!(d.daylength_seconds, 45440);
    assert_ordered(&d);
}

#[test]
fn assemble_tokyo_20150327() {
    let midnight = utc_midnight(2015, 3, 27);
    // East of Greenwich the morning instants fall before the UTC midnight of
    // the civil date, so their offsets are negative.
    let d = assemble_daylight(midnight, -13051, -12156, 10060, 32277, 33173, 44433);
    assert_eq!(d.twilight_morning, 1427401349);
    assert_eq!(d.sunrise, 1427402244);
    assert_eq!(d.noon, 1427424460);
    assert_eq!(d.sunset, 1427446677);
    assert_eq!(d.twilight_evening, 1427447573);
    assert_eq!(d.daylength_seconds, 44433);
    assert_ordered(&d);
}

#[test]
fn assemble_avarua_20150327() {
    let midnight = utc_midnight(2015, 3, 27);
    let d = assemble_daylight(midnight, 59890, 60369, 81789, 103208, 103688, 42839);
    assert_eq!(d.twilight_morning, 1427474290);
    assert_eq!(d.sunrise, 1427474769);
    assert_eq!(d.noon, 1427496189);
    assert_eq!(d.sunset, 1427517608);
    assert_eq!(d.twilight_evening, 1427518088);
    assert_eq!(d.daylength_seconds, 42839);
    assert_ordered(&d);
}

#[test]
fn assemble_longyearbyen_midsummer() {
    let midnight = utc_midnight(2015, 6, 21);
    assert_eq!(midnight, 1434844800);
    // Continuous polar daylight: the twilight instants coincide with sunrise
    // and sunset, and the clamped day length is a full day.
    let d = assemble_daylight(midnight, -3645, -3645, 39554, 82754, 82754, 86400);
    assert_eq!(d.twilight_morning, d.sunrise);
    assert_eq!(d.sunrise, 1434841155);
    assert_eq!(d.noon, 1434884354);
    assert_eq!(d.sunset, 1434927554);
    assert_eq!(d.twilight_evening, d.sunset);
    assert_eq!(d.daylength_seconds, 86400);
    assert_eq!(d.sunset - d.sunrise, 86399);
    assert_ordered(&d);
}

#[test]
fn assemble_longyearbyen_midwinter() {
    let midnight = utc_midnight(2015, 12, 21);
    assert_eq!(midnight, 1450656000);
    // Polar night: all five instants collapse to the same timestamp and the
    // day length collapses to zero.
    let d = assemble_daylight(midnight, 39334, 39334, 39334, 39334, 39334, 0);
    assert_eq!(d.twilight_morning, 1450695334);
    assert_eq!(d.sunrise, 1450695334);
    assert_eq!(d.noon, 1450695334);
    assert_eq!(d.sunset, 1450695334);
    assert_eq!(d.twilight_evening, 1450695334);
    assert_eq!(d.daylength_seconds, 0);
    assert_ordered(&d);
}

#[test]
fn assembled_results_keep_the_ordering() {
    let d = assemble_daylight(0, -7200, -3600, 0, 3600, 7200, 7200);
    assert_ordered(&d);
    let flat = assemble_daylight(-86400, 0, 0, 0, 0, 0, 0);
    assert_ordered(&flat);
    assert_eq!(flat.sunrise, -86400);
}

#[test]
fn identical_inputs_identical_assembly() {
    let a = assemble_daylight(1427414400, 17729, 19366, 42087, 64807, 66444, 45440);
    let b = assemble_daylight(1427414400, 17729, 19366, 42087, 64807, 66444, 45440);
    assert_eq!(a, b);
}
