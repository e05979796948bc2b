//! The outside sources of chance and time that the explorer draws on: the
//! thread-local generator of `rand` and the clock of `time`.

use rand::distributions::{Alphanumeric, DistString};
use rand::seq::SliceRandom;
use rand::Rng;
use vstd::prelude::*;

verus! {

/// An ASCII letter or digit: the characters that `rand`'s `Alphanumeric`
/// distribution draws from.
pub open spec fn is_alphanumeric(c: char) -> bool {
    ('A' <= c && c <= 'Z') || ('a' <= c && c <= 'z') || ('0' <= c && c <= '9')
}

/// Calls `rand::Rng::gen_range` with `low..high` on `rand::thread_rng()`.
/// rand documents a value drawn from the half-open range, and a panic when the
/// range is empty, which `requires` leaves out. Which value comes is chance.
#[verifier::external_body]
pub(crate) fn uniform_i16(low: i16, high: i16) -> (r: i16)
    requires
        low < high,
    ensures
        low <= r < high,
{
    rand::thread_rng().gen_range(low..high)
}

/// Calls `rand::Rng::gen_range` with `low..high` on `rand::thread_rng()`, as
/// [`uniform_i16`] does, for `u16` values.
#[verifier::external_body]
pub(crate) fn uniform_u16(low: u16, high: u16) -> (r: u16)
    requires
        low < high,
    ensures
        low <= r < high,
{
    rand::thread_rng().gen_range(low..high)
}

/// Calls `rand::seq::SliceRandom::choose` on `rand::thread_rng()`: by its
/// source, `None` for an empty slice and otherwise an element of the slice,
/// at an index drawn by chance.
#[verifier::external_body]
pub(crate) fn choose_word(words: &[&'static str]) -> (r: Option<&'static str>)
    ensures
        r is None <==> words@.len() == 0,
        r matches Some(w) ==> words@.contains(w),
{
    words.choose(&mut rand::thread_rng()).copied()
}

/// Calls `rand::distributions::DistString::sample_string` for the
/// `Alphanumeric` distribution on `rand::thread_rng()`: by its source, a string
/// of `len` characters, each an ASCII letter or digit drawn by chance.
#[verifier::external_body]
pub(crate) fn alphanumeric_string(len: usize) -> (s: String)
    ensures
        s@.len() == len,
        forall|i: int| 0 <= i < len ==> #[trigger] is_alphanumeric(s@[i]),
{
    Alphanumeric.sample_string(&mut rand::thread_rng(), len)
}

/// Calls `time::now().to_timespec()` and gives its `sec` field, the current
/// time in seconds since the Unix epoch. Nothing is stated of the value: it is
/// whatever the clock reads.
#[verifier::external_body]
pub(crate) fn unix_seconds() -> i64 {
    time::now().to_timespec().sec
}

} // verus!
