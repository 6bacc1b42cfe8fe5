use vedavid_connector::text::{
    is_white_space, magnitude, render, render_signed, same, trim, up_to, up_to_last,
};

#[test]
fn white_space_is_what_unicode_says() {
    for c in '\u{0}'..=char::MAX {
        assert_eq!(is_white_space(c), c.is_whitespace(), "{:?}", c);
    }
}

#[test]
fn trimming_is_that_of_strings() {
    for s in ["", " ", "a", " a b\n", "\u{2003}x\u{3000}", "\u{200b}x", "\t\r\n", "\u{1f600} "] {
        assert_eq!(trim(s), s.trim(), "{:?}", s);
    }
}

#[test]
fn numbers_render_in_decimal() {
    for n in [0u64, 7, 10, 99, 100, 12_345_678_900, u64::MAX] {
        assert_eq!(render(n), n.to_string());
    }
    for n in [0i64, -1, 42, i64::MIN, i64::MAX] {
        assert_eq!(render_signed(n), n.to_string());
        assert_eq!(magnitude(n), n.unsigned_abs());
    }
}

#[test]
fn texts_are_compared_and_cut() {
    assert!(same("a", "a") && !same("a", "b") && !same("a", ""));
    assert_eq!(up_to("relay.example:8443", ':'), "relay.example");
    assert_eq!(up_to("relay", ':'), "relay");
    assert_eq!(up_to(":x", ':'), "");
    assert_eq!(up_to_last("a:b:c", ':'), "a:b");
    assert_eq!(up_to_last("abc", ':'), "abc");
    assert_eq!(up_to_last("a:", ':'), "a");
    assert_eq!(up_to_last("", ':'), "");
}
