use codex_gauge::text::{decimal_text, decode, join, to_wide, trim, white_space};

#[test]
fn integers_are_written_in_decimal() {
    let numbers = [0, 7, 10, 99, 100, 12345, -1, -60, i64::MAX, i64::MIN];
    for n in numbers {
        assert_eq!(decimal_text(n), format!("{n}"));
    }
}

#[test]
fn pieces_are_joined_in_order() {
    assert_eq!(join("a", "", "bc"), "abc");
}

#[test]
fn white_space_is_the_unicode_property() {
    for n in 0..=0x10FFFFu32 {
        if let Some(c) = char::from_u32(n) {
            assert_eq!(white_space(c), c.is_whitespace(), "{n:#x}");
        }
    }
}

#[test]
fn texts_are_trimmed_on_both_sides() {
    let texts = [
        "",
        " ",
        "\r\n",
        "x",
        "  {\"a\": 1}\r\n",
        "\u{a0}\u{3000}nihongo \u{65e5}\u{672c}\u{2028}",
        "a b",
        "\u{b}\u{c}",
    ];
    for s in texts {
        assert_eq!(trim(s), s.trim());
        assert_eq!(trim(trim(s)), trim(s));
    }
}

#[test]
fn wide_text_is_zero_terminated_utf16() {
    let texts = ["", "Codex", "\u{e9}\u{65e5}", "\u{1F600}\u{10FFFF}\u{FFFF}x"];
    for s in texts {
        let want: Vec<u16> = s.encode_utf16().chain(Some(0)).collect();
        assert_eq!(to_wide(s), want);
        let back = String::from_utf16(&to_wide(s)[..want.len() - 1]);
        assert_eq!(back.ok(), Some(s.to_string()));
    }
}

#[test]
fn utf8_is_decoded() {
    for s in ["", "Codex", "\u{e9}\u{65e5}\u{1F600}\u{10FFFF}"] {
        assert_eq!(decode(s.as_bytes().to_vec()), Some(s.to_string()));
    }
    assert_eq!(decode(vec![0x61, 0x80]), None);
    assert_eq!(decode(vec![0xF4, 0x90, 0x80, 0x80]), None);
}
