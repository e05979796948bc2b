//! The viewer's picture of how fresh and how well sampled each cell is.

use vstd::prelude::*;
use crate::chance::unix_seconds;
use crate::ppm::Pixel;

verus! {

/// The blue level of a cell's confidence colour: 255 for a cell updated now
/// (or in the future), 25 less for each second of age, and 0 from about ten
/// seconds on.
pub open spec fn freshness_level(now: int, latest: int) -> u8 {
    let age = if now - latest < 0 { 0 } else { now - latest };
    let scaled = if age * 25 > 255 { 255 } else { age * 25 };
    (255 - scaled) as u8
}

/// The green level of a cell's confidence colour: ten per update, up to 255.
pub open spec fn coverage_level(updates: int) -> u8 {
    if updates * 10 > 255 { 255 } else { (updates * 10) as u8 }
}

/// The confidence colour of a cell last updated at `latest` and updated
/// `updates` times, seen at time `now` (seconds since the Unix epoch): no red,
/// green for how often it was updated, blue for how recently.
pub fn confidence_color(now: i64, latest: i64, updates: u32) -> (p: Pixel)
    requires
        age_fits(now, latest),
        updates * 10 <= u32::MAX,
    ensures
        p == confidence_spec(now, latest, updates),
{
    let mut age: i64 = now - latest;
    if age < 0 {
        age = 0;
    }
    age = age * 25;
    if age > 255 {
        age = 255;
    }
    age = 255 - age;
    let mut n: u32 = updates;
    n = n * 10;
    if n > 255 {
        n = 255;
    }
    Pixel { red: 0, green: n as u8, blue: age as u8 }
}

/// The confidence colour of a cell seen at time `now`, or `None` where the
/// arithmetic on the age or on the count would overflow.
pub fn confidence_color_at(now: i64, latest: i64, updates: u32) -> (r: Option<Pixel>)
    ensures
        r == confidence_at_spec(now, latest, updates),
{
    if updates > 429_496_729u32 {
        return None;
    }
    if latest >= 0 && now < i64::MIN + latest {
        return None;
    }
    if latest < 0 && now > i64::MAX + latest {
        return None;
    }
    if now - latest > i64::MAX / 25 {
        return None;
    }
    Some(confidence_color(now, latest, updates))
}

/// The confidence colour of a cell as of the current time, or `None` where the
/// arithmetic on the age or on the count would overflow.
pub fn confidence_color_now(latest: i64, updates: u32) -> (r: Option<Pixel>)
    ensures
        updates * 10 > u32::MAX ==> r is None,
        exists|now: i64| r == #[trigger] confidence_at_spec(now, latest, updates),
{
    let now = unix_seconds();
    confidence_color_at(now, latest, updates)
}

/// What [`confidence_color_at`] gives: the confidence colour where neither the
/// age nor the count overflows, `None` otherwise.
pub open spec fn confidence_at_spec(now: i64, latest: i64, updates: u32) -> Option<Pixel> {
    if age_fits(now, latest) && updates * 10 <= u32::MAX {
        Some(confidence_spec(now, latest, updates))
    } else {
        None
    }
}

/// The age of a cell last updated at `latest`, seen at `now`, and that age
/// times 25, both fit in an `i64`.
pub open spec fn age_fits(now: i64, latest: i64) -> bool {
    &&& i64::MIN <= now - latest <= i64::MAX
    &&& (now - latest) * 25 <= i64::MAX
}

/// The confidence colour that [`confidence_color`] gives.
pub open spec fn confidence_spec(now: i64, latest: i64, updates: u32) -> Pixel {
    Pixel {
        red: 0,
        green: coverage_level(updates as int),
        blue: freshness_level(now as int, latest as int),
    }
}

} // verus!
