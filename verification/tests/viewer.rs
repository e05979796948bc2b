use capnp_zmq::ppm::Pixel;
use capnp_zmq::viewer::{confidence_color, confidence_color_at, confidence_color_now};

fn now() -> i64 {
    std::time::SystemTime::now().duration_since(std::time::UNIX_EPOCH).unwrap().as_secs() as i64
}

#[test]
fn fresh_and_rarely_updated_cell() {
    assert_eq!(confidence_color(1000, 1000, 3), Pixel { red: 0, green: 30, blue: 255 });
}

#[test]
fn each_second_of_age_takes_25() {
    assert_eq!(confidence_color(1004, 1000, 0), Pixel { red: 0, green: 0, blue: 155 });
    assert_eq!(confidence_color(1010, 1000, 0), Pixel { red: 0, green: 0, blue: 5 });
    assert_eq!(confidence_color(1011, 1000, 0), Pixel { red: 0, green: 0, blue: 0 });
    assert_eq!(confidence_color(i64::MAX / 25, 0, 0).blue, 0);
}

#[test]
fn future_updates_count_as_fresh() {
    assert_eq!(confidence_color(1000, 5000, 1).blue, 255);
    assert_eq!(confidence_color(-5, i64::MAX - 10, 1).blue, 255);
}

#[test]
fn updates_saturate_at_255() {
    assert_eq!(confidence_color(0, 0, 25).green, 250);
    assert_eq!(confidence_color(0, 0, 26).green, 255);
    assert_eq!(confidence_color(0, 0, 429_496_729).green, 255);
}

#[test]
fn confidence_now_uses_the_clock() {
    let p = confidence_color_now(now() + 100, 2).expect("fits");
    assert_eq!(p, Pixel { red: 0, green: 20, blue: 255 });
    let p = confidence_color_now(0, 1).expect("fits");
    assert_eq!(p, Pixel { red: 0, green: 10, blue: 0 });
}

#[test]
fn confidence_now_refuses_overflow() {
    assert_eq!(confidence_color_now(0, 429_496_730), None);
    assert_eq!(confidence_color_now(i64::MIN, 0), None);
    assert_eq!(confidence_color_now(-i64::MAX / 25, 0), None);
}

#[test]
fn confidence_at_gives_the_colour_where_nothing_overflows() {
    assert_eq!(confidence_color_at(1004, 1000, 2), Some(Pixel { red: 0, green: 20, blue: 155 }));
    assert_eq!(confidence_color_at(0, 100, 429_496_729), Some(Pixel { red: 0, green: 255, blue: 255 }));
    assert_eq!(confidence_color_at(i64::MAX / 25, 0, 0), Some(Pixel { red: 0, green: 0, blue: 0 }));
}

#[test]
fn confidence_at_refuses_overflow() {
    assert_eq!(confidence_color_at(0, 0, 429_496_730), None);
    assert_eq!(confidence_color_at(i64::MAX / 25 + 1, 0, 0), None);
    assert_eq!(confidence_color_at(0, i64::MIN, 0), None);
    assert_eq!(confidence_color_at(i64::MIN, 1, 0), None);
}
