use ree_save_core::text::{is_white_space, trim};

#[test]
fn white_space_is_unicode_white_space() {
    for u in 0..=0x3100u32 {
        if let Some(c) = char::from_u32(u) {
            assert_eq!(is_white_space(c), c.is_whitespace(), "U+{:04X}", u);
        }
    }
    for c in ['\u{feff}', '\u{10000}', '\u{e000}'] {
        assert_eq!(is_white_space(c), c.is_whitespace());
    }
}

#[test]
fn trim_matches_str_trim() {
    let samples = [
        "", " ", "  a  ", "\tdata\n", "\u{3000}x\u{3000}", "\u{a0}a b\u{85}", "no", " \u{2009}\u{200a} ",
        "\u{200b}z\u{200b}", "é ", " ü",
    ];
    for s in samples {
        assert_eq!(trim(s), s.trim(), "{:?}", s);
    }
}
