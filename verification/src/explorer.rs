//! The explorer's measurements: the colour of the pixel under the explorer,
//! blurred by random noise, and now and then a gibberish warning.

use vstd::prelude::*;
use vstd::string::StringExecFns;
use crate::chance::{
    alphanumeric_string, choose_word, is_alphanumeric, uniform_i16, uniform_u16, unix_seconds,
};
use crate::ppm::{Image, Pixel};

verus! {

/// The words that gibberish warnings are made of.
pub const WORDS: [&'static str; 20] = [
    "syntax",
    "personality",
    "rhymist",
    "shopwalker",
    "gooseskin",
    "overtask",
    "churme",
    "heathen",
    "economiser",
    "radium",
    "attainable",
    "nonius",
    "knaggy",
    "inframedian",
    "tamperer",
    "disentitle",
    "horary",
    "morsure",
    "bonnaz",
    "alien",
];

/// The diagnostic that an observation carries.
#[derive(Debug, PartialEq, Eq)]
pub enum Diagnostic {
    /// Nothing to report.
    Clear,
    /// A warning text.
    Warning(String),
}

/// What an explorer reports of one measurement, but for its position.
#[derive(Debug)]
pub struct Observation {
    /// Seconds since the Unix epoch.
    pub timestamp: i64,
    pub red: u8,
    pub green: u8,
    pub blue: u8,
    pub diagnostic: Diagnostic,
}

/// `v` held to the range of a byte: 0 below it, 255 above it.
pub open spec fn clamp_byte(v: int) -> u8 {
    if v < 0 {
        0
    } else if v > 255 {
        255
    } else {
        v as u8
    }
}

/// `y` is a value that fudging `x` can give: `x` plus an error in `-60..60`,
/// held to the range of a byte.
pub open spec fn is_fudged(x: u8, y: u8) -> bool {
    &&& (if x >= 60 { x - 60 } else { 0 }) <= y
    &&& y <= (if x <= 196 { x + 59 } else { 255 })
}

/// Adds `error` to `x` and holds the sum to the range of a byte.
pub fn fudge_by(x: u8, error: i16) -> (y: u8)
    requires
        i16::MIN <= x + error <= i16::MAX,
    ensures
        y == clamp_byte(x + error),
{
    let y: i16 = x as i16 + error;
    if y < 0 {
        return 0;
    }
    if y > 255 {
        return 255;
    }
    y as u8
}

/// Blurs a colour channel: adds a random error in `-60..60` and holds the sum
/// to the range of a byte.
pub fn fudge(x: u8) -> (y: u8)
    ensures
        is_fudged(x, y),
{
    let error = uniform_i16(-60, 60);
    fudge_by(x, error)
}

/// The text of a gibberish warning: a word, a space, a run of letters, a
/// space, and a word.
pub open spec fn warning_text(first: Seq<char>, letters: Seq<char>, second: Seq<char>) -> Seq<
    char,
> {
    first + seq![' '] + letters + seq![' '] + second
}

/// `w` is a gibberish warning: two words of [`WORDS`] around eight ASCII
/// letters and digits.
pub open spec fn is_gibberish(w: Seq<char>) -> bool {
    exists|first: &str, letters: Seq<char>, second: &str|
        {
            &&& WORDS@.contains(first)
            &&& WORDS@.contains(second)
            &&& letters.len() == 8
            &&& forall|i: int| 0 <= i < 8 ==> #[trigger] is_alphanumeric(letters[i])
            &&& w == #[trigger] warning_text(first@, letters, second@)
        }
}

/// The text of a gibberish warning made of the given pieces.
pub fn compose_warning(first: &str, letters: &str, second: &str) -> (w: String)
    ensures
        w@ == warning_text(first@, letters@, second@),
{
    let mut w = String::from_str(first);
    w.append(" ");
    w.append(letters);
    w.append(" ");
    w.append(second);
    proof {
        reveal_strlit(" ");
        assert(w@ =~= warning_text(first@, letters@, second@));
    }
    w
}

/// Whether a roll in `0..3000` calls for a warning: on two of the three
/// thousand values.
pub fn warns(roll: u16) -> (w: bool)
    ensures
        w == (roll < 2),
{
    roll < 2
}

/// The diagnostic `after` is what the draws give, from the diagnostic
/// `before`: a warning made of `first`, `letters` and `second` when the roll
/// calls for one and both words were drawn, `before` unchanged otherwise.
pub open spec fn diagnostic_after(
    before: Diagnostic,
    after: Diagnostic,
    roll: u16,
    first: Option<&str>,
    letters: Seq<char>,
    second: Option<&str>,
) -> bool {
    match (first, second) {
        (Some(a), Some(b)) => if roll < 2 {
            after matches Diagnostic::Warning(w) && w@ == warning_text(a@, letters, b@)
        } else {
            after == before
        },
        _ => after == before,
    }
}

/// The draws that [`add_diagnostic`] can make: a roll in `0..3000`, two words
/// of [`WORDS`] and eight ASCII letters and digits.
pub open spec fn possible_draws(roll: u16, first: &str, letters: Seq<char>, second: &str) -> bool {
    &&& roll < 3000
    &&& WORDS@.contains(first)
    &&& WORDS@.contains(second)
    &&& letters.len() == 8
    &&& forall|i: int| 0 <= i < 8 ==> #[trigger] is_alphanumeric(letters[i])
}

/// Sets the diagnostic of `obs` from the drawn values: to the warning made of
/// `first`, `letters` and `second` when the roll is below 2 and both words were
/// drawn; otherwise `obs` stays as it is. Nothing else changes.
pub fn apply_draws(
    obs: &mut Observation,
    roll: u16,
    first: Option<&'static str>,
    letters: &str,
    second: Option<&'static str>,
)
    ensures
        final(obs).timestamp == old(obs).timestamp,
        final(obs).red == old(obs).red,
        final(obs).green == old(obs).green,
        final(obs).blue == old(obs).blue,
        diagnostic_after(old(obs).diagnostic, final(obs).diagnostic, roll, first, letters@, second),
{
    if warns(roll) {
        match (first, second) {
            (Some(a), Some(b)) => {
                obs.diagnostic = Diagnostic::Warning(compose_warning(a, letters, b));
            },
            _ => {},
        }
    }
}

/// With a chance of two in three thousand, sets the diagnostic of `obs` to a
/// gibberish warning; otherwise leaves it as it is. Nothing else changes.
/// What it sets follows from the values drawn, as [`apply_draws`] states.
pub fn add_diagnostic(obs: &mut Observation)
    ensures
        final(obs).timestamp == old(obs).timestamp,
        final(obs).red == old(obs).red,
        final(obs).green == old(obs).green,
        final(obs).blue == old(obs).blue,
        final(obs).diagnostic == old(obs).diagnostic || (final(obs).diagnostic matches Diagnostic::Warning(w) && is_gibberish(w@)),
        exists|roll: u16, first: &str, letters: Seq<char>, second: &str|
            possible_draws(roll, first, letters, second) && #[trigger] diagnostic_after(
                old(obs).diagnostic,
                final(obs).diagnostic,
                roll,
                Some(first),
                letters,
                Some(second),
            ),
{
    let ghost before = old(obs).diagnostic;
    let roll = uniform_u16(0, 3000);
    let words: &[&'static str] = WORDS.as_slice();
    if warns(roll) {
        let first = choose_word(words);
        let letters = alphanumeric_string(8);
        let second = choose_word(words);
        apply_draws(obs, roll, first, letters.as_str(), second);
        proof {
            let a = first.unwrap();
            let b = second.unwrap();
            assert(possible_draws(roll, a, letters@, b));
            assert(diagnostic_after(before, obs.diagnostic, roll, Some(a), letters@, Some(b)));
            assert(obs.diagnostic matches Diagnostic::Warning(w) && w@ == warning_text(
                a@,
                letters@,
                b@,
            ));
        }
    } else {
        proof {
            let a = WORDS@[0];
            let letters = Seq::new(8, |i: int| 'a');
            assert(WORDS@.contains(a));
            assert(is_alphanumeric(letters[0]));
            assert(possible_draws(roll, a, letters, a));
            assert(diagnostic_after(before, obs.diagnostic, roll, Some(a), letters, Some(a)));
        }
    }
}

impl Image {
    /// The measurement at column `x` of row `y` taken at time `now`, with the
    /// given errors added to the red, green and blue channels of the pixel
    /// there (each sum held to the range of a byte), and no diagnostic.
    pub fn measurement_at(
        &self,
        x: u32,
        y: u32,
        now: i64,
        red_error: i16,
        green_error: i16,
        blue_error: i16,
    ) -> (obs: Observation)
        requires
            x < self@.0,
            y < self@.1,
            red_error <= i16::MAX - 255,
            green_error <= i16::MAX - 255,
            blue_error <= i16::MAX - 255,
        ensures
            obs.timestamp == now,
            obs.red == clamp_byte(self@.2[y * self@.0 + x].red + red_error),
            obs.green == clamp_byte(self@.2[y * self@.0 + x].green + green_error),
            obs.blue == clamp_byte(self@.2[y * self@.0 + x].blue + blue_error),
            obs.diagnostic == Diagnostic::Clear,
    {
        let pixel: Pixel = self.get_pixel(x, y);
        Observation {
            timestamp: now,
            red: fudge_by(pixel.red, red_error),
            green: fudge_by(pixel.green, green_error),
            blue: fudge_by(pixel.blue, blue_error),
            diagnostic: Diagnostic::Clear,
        }
    }

    /// A measurement at column `x` of row `y`: the current time, each colour
    /// channel of the pixel there fudged, and possibly a gibberish warning.
    /// What it holds follows from the clock and the values drawn, as
    /// [`Image::measurement_at`] and [`apply_draws`] state.
    pub fn take_measurement(&self, x: u32, y: u32) -> (obs: Observation)
        requires
            x < self@.0,
            y < self@.1,
        ensures
            is_fudged(self@.2[y * self@.0 + x].red, obs.red),
            is_fudged(self@.2[y * self@.0 + x].green, obs.green),
            is_fudged(self@.2[y * self@.0 + x].blue, obs.blue),
            obs.diagnostic == Diagnostic::Clear || (obs.diagnostic matches Diagnostic::Warning(w)
                && is_gibberish(w@)),
            exists|red_error: i16, green_error: i16, blue_error: i16|
                {
                    &&& -60 <= red_error < 60
                    &&& -60 <= green_error < 60
                    &&& -60 <= blue_error < 60
                    &&& obs.red == #[trigger] clamp_byte(self@.2[y * self@.0 + x].red + red_error)
                    &&& obs.green == #[trigger] clamp_byte(self@.2[y * self@.0 + x].green
                        + green_error)
                    &&& obs.blue == #[trigger] clamp_byte(self@.2[y * self@.0 + x].blue
                        + blue_error)
                },
            exists|roll: u16, first: &str, letters: Seq<char>, second: &str|
                possible_draws(roll, first, letters, second) && #[trigger] diagnostic_after(
                    Diagnostic::Clear,
                    obs.diagnostic,
                    roll,
                    Some(first),
                    letters,
                    Some(second),
                ),
    {
        let now = unix_seconds();
        let red_error = uniform_i16(-60, 60);
        let green_error = uniform_i16(-60, 60);
        let blue_error = uniform_i16(-60, 60);
        let mut obs = self.measurement_at(x, y, now, red_error, green_error, blue_error);
        add_diagnostic(&mut obs);
        obs
    }
}

} // verus!
