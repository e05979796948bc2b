use capnp_zmq::explorer::{
    add_diagnostic, apply_draws, compose_warning, fudge, fudge_by, warns, Diagnostic,
    Observation, WORDS,
};
use capnp_zmq::ppm::{check_ppm, Image};

fn blank() -> Observation {
    Observation { timestamp: 17, red: 1, green: 2, blue: 3, diagnostic: Diagnostic::Clear }
}

#[test]
fn fudge_by_adds_and_clamps() {
    assert_eq!(fudge_by(100, 20), 120);
    assert_eq!(fudge_by(100, -60), 40);
    assert_eq!(fudge_by(30, -60), 0);
    assert_eq!(fudge_by(230, 59), 255);
    assert_eq!(fudge_by(0, 0), 0);
    assert_eq!(fudge_by(255, 0), 255);
}

#[test]
fn fudge_stays_within_sixty() {
    let mut seen = std::collections::BTreeSet::new();
    for _ in 0..2000 {
        let y = fudge(100);
        assert!((40..=159).contains(&y), "{}", y);
        seen.insert(y);
    }
    assert!(seen.len() > 1);
    for _ in 0..500 {
        let low = fudge(10);
        assert!(low <= 69);
        let high = fudge(250);
        assert!(high >= 190);
    }
}

#[test]
fn fudge_reaches_the_ends_of_the_byte_range() {
    let mut zero = false;
    let mut full = false;
    for _ in 0..5000 {
        zero |= fudge(0) == 0;
        full |= fudge(255) == 255;
    }
    assert!(zero && full);
}

#[test]
fn warning_text_is_word_letters_word() {
    let w = compose_warning("radium", "Ab3dE5g7", "alien");
    assert_eq!(w, "radium Ab3dE5g7 alien");
}

fn is_gibberish(w: &str) -> bool {
    let parts: Vec<&str> = w.split(' ').collect();
    parts.len() == 3
        && WORDS.contains(&parts[0])
        && WORDS.contains(&parts[2])
        && parts[1].len() == 8
        && parts[1].chars().all(|c| c.is_ascii_alphanumeric())
}

#[test]
fn add_diagnostic_rarely_warns_and_changes_nothing_else() {
    let mut warnings = 0;
    for _ in 0..200_000 {
        let mut obs = blank();
        add_diagnostic(&mut obs);
        assert_eq!((obs.timestamp, obs.red, obs.green, obs.blue), (17, 1, 2, 3));
        match &obs.diagnostic {
            Diagnostic::Clear => {}
            Diagnostic::Warning(w) => {
                assert!(is_gibberish(w), "{:?}", w);
                warnings += 1;
            }
        }
    }
    assert!(warnings > 0);
    assert!(warnings < 2000);
}

#[test]
fn add_diagnostic_keeps_an_earlier_warning_or_replaces_it() {
    for _ in 0..1000 {
        let mut obs = blank();
        obs.diagnostic = Diagnostic::Warning("earlier".to_string());
        add_diagnostic(&mut obs);
        match &obs.diagnostic {
            Diagnostic::Clear => panic!("cleared"),
            Diagnostic::Warning(w) => assert!(w == "earlier" || is_gibberish(w)),
        }
    }
}

fn image() -> Image {
    let mut bytes = b"P6\n2 2\n255\n".to_vec();
    bytes.extend_from_slice(&[0, 0, 0, 100, 150, 200, 255, 255, 255, 10, 20, 30]);
    assert_eq!(check_ppm(&bytes), Ok(()));
    Image::from_ppm(&bytes)
}

#[test]
fn measurement_fudges_the_pixel_under_the_explorer() {
    let image = image();
    for _ in 0..300 {
        let obs = image.take_measurement(1, 0);
        assert!((40..=159).contains(&obs.red));
        assert!((90..=209).contains(&obs.green));
        assert!((140..=255).contains(&obs.blue));
        let obs = image.take_measurement(1, 1);
        assert!(obs.red <= 69 && obs.green <= 79 && obs.blue <= 89);
        if let Diagnostic::Warning(w) = &obs.diagnostic {
            assert!(is_gibberish(w));
        }
    }
}

#[test]
fn measurement_carries_the_current_time() {
    let image = image();
    let before = std::time::SystemTime::now()
        .duration_since(std::time::UNIX_EPOCH)
        .unwrap()
        .as_secs() as i64;
    let obs = image.take_measurement(0, 0);
    let after = std::time::SystemTime::now()
        .duration_since(std::time::UNIX_EPOCH)
        .unwrap()
        .as_secs() as i64;
    assert!(before <= obs.timestamp && obs.timestamp <= after);
}

#[test]
fn two_rolls_in_three_thousand_warn() {
    assert!(warns(0));
    assert!(warns(1));
    assert!(!warns(2));
    assert!(!warns(2999));
    assert_eq!((0u16..3000).filter(|r| warns(*r)).count(), 2);
}

#[test]
fn draws_below_two_set_the_warning() {
    let mut obs = blank();
    apply_draws(&mut obs, 1, Some("syntax"), "Ab3dEf7h", Some("alien"));
    assert_eq!(obs.diagnostic, Diagnostic::Warning("syntax Ab3dEf7h alien".to_string()));
    assert_eq!((obs.timestamp, obs.red, obs.green, obs.blue), (17, 1, 2, 3));
    let mut obs = blank();
    apply_draws(&mut obs, 0, Some("radium"), "zzzzzzzz", Some("radium"));
    assert_eq!(obs.diagnostic, Diagnostic::Warning("radium zzzzzzzz radium".to_string()));
}

#[test]
fn draws_from_two_on_leave_the_observation() {
    let mut obs = blank();
    apply_draws(&mut obs, 2, Some("syntax"), "Ab3dEf7h", Some("alien"));
    assert_eq!(obs.diagnostic, Diagnostic::Clear);
    let mut obs = blank();
    obs.diagnostic = Diagnostic::Warning("kept".to_string());
    apply_draws(&mut obs, 2999, Some("syntax"), "Ab3dEf7h", Some("alien"));
    assert_eq!(obs.diagnostic, Diagnostic::Warning("kept".to_string()));
}

#[test]
fn draws_without_words_leave_the_observation() {
    let mut obs = blank();
    apply_draws(&mut obs, 0, None, "Ab3dEf7h", Some("alien"));
    assert_eq!(obs.diagnostic, Diagnostic::Clear);
    apply_draws(&mut obs, 1, Some("alien"), "Ab3dEf7h", None);
    assert_eq!(obs.diagnostic, Diagnostic::Clear);
}

#[test]
fn measurement_at_adds_the_given_errors() {
    let image = image();
    let obs = image.measurement_at(1, 0, 1234, -60, 59, 100);
    assert_eq!(obs.timestamp, 1234);
    assert_eq!((obs.red, obs.green, obs.blue), (40, 209, 255));
    assert_eq!(obs.diagnostic, Diagnostic::Clear);
    let obs = image.measurement_at(0, 1, -5, 3, -1, 0);
    assert_eq!((obs.timestamp, obs.red, obs.green, obs.blue), (-5, 255, 254, 255));
    let obs = image.measurement_at(1, 1, 0, -20, -20, -31);
    assert_eq!((obs.red, obs.green, obs.blue), (0, 0, 0));
}
