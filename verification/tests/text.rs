use parlyx_streamer::text::{decimal_text, from_chars, is_white_space, to_chars};

#[test]
fn decimal_text_matches_display() {
    for n in [0u64, 7, 9, 10, 42, 99, 100, 12345, u32::MAX as u64, u64::MAX] {
        assert_eq!(decimal_text(n), n.to_string());
    }
}

#[test]
fn white_space_matches_unicode() {
    for code in 0..=0x10FFFFu32 {
        if let Some(c) = char::from_u32(code) {
            assert_eq!(is_white_space(c), c.is_whitespace(), "{:x}", code);
        }
    }
}

#[test]
fn chars_round_trip() {
    let s = "zażółć \u{1F600} data:";
    assert_eq!(from_chars(&to_chars(s)), s);
    assert_eq!(to_chars("ab"), vec!['a', 'b']);
    assert_eq!(from_chars(&[]), "");
}
