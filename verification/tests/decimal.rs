use capnp_zmq::decimal::{read_u32, write_u32};

#[test]
fn reads_plain_numbers() {
    assert_eq!(read_u32(b"0"), Some(0));
    assert_eq!(read_u32(b"120"), Some(120));
    assert_eq!(read_u32(b"007"), Some(7));
    assert_eq!(read_u32(b"4294967295"), Some(u32::MAX));
}

#[test]
fn reads_a_leading_plus() {
    assert_eq!(read_u32(b"+42"), Some(42));
}

#[test]
fn refuses_what_from_str_refuses() {
    assert_eq!(read_u32(b""), None);
    assert_eq!(read_u32(b"+"), None);
    assert_eq!(read_u32(b"-1"), None);
    assert_eq!(read_u32(b"12a"), None);
    assert_eq!(read_u32(b" 12"), None);
    assert_eq!(read_u32(b"4294967296"), None);
    assert_eq!(read_u32(b"99999999999999999999"), None);
}

#[test]
fn agrees_with_from_str() {
    for text in ["0", "+0", "1", "65535", "4294967295", "4294967296", "+", "", "1 ", "x", "00"] {
        assert_eq!(read_u32(text.as_bytes()), text.parse::<u32>().ok(), "{:?}", text);
    }
}

#[test]
fn writes_as_display_does() {
    for n in [0u32, 9, 10, 305, 4294967295] {
        let mut out = b"x".to_vec();
        write_u32(n, &mut out);
        assert_eq!(out, format!("x{}", n).into_bytes());
    }
}

#[test]
fn written_numbers_read_back() {
    for n in [0u32, 7, 120, 99999, u32::MAX] {
        let mut out = Vec::new();
        write_u32(n, &mut out);
        assert_eq!(read_u32(&out), Some(n));
    }
}
