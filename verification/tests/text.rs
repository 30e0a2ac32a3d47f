use bind_args::text::{char_is_whitespace, find_char, str_is_blank, trim};

#[test]
fn trim_removes_surrounding_whitespace() {
    assert_eq!(trim("  a b\t\n"), "a b");
    assert_eq!(trim(" \t"), "");
    assert_eq!(trim(""), "");
    assert_eq!(trim("x"), "x");
    assert_eq!(trim("\u{3000}x\u{a0}"), "x");
}

#[test]
fn trim_agrees_with_the_standard_library() {
    let samples = [
        "", " ", "a", " a", "a ", "\ta b\n", "\u{85}q\u{2028}", "\u{1680}\u{2000}z\u{200a}\u{205f}",
        "\u{200b}", "\u{180e}x", "é ", " --x=y ",
    ];
    for s in samples {
        assert_eq!(trim(s), s.trim());
    }
}

#[test]
fn whitespace_is_the_unicode_property() {
    let mut c = 0u32;
    while c <= 0x3100 {
        if let Some(ch) = char::from_u32(c) {
            assert_eq!(char_is_whitespace(ch), ch.is_whitespace());
        }
        c += 1;
    }
    assert!(!char_is_whitespace('\u{feff}'));
    assert!(!char_is_whitespace('\u{10ffff}'));
}

#[test]
fn blank_strings() {
    assert!(str_is_blank(""));
    assert!(str_is_blank(" \t\n"));
    assert!(!str_is_blank(" a "));
}

#[test]
fn find_char_gives_the_first_occurrence() {
    assert_eq!(find_char("a=b=c", '='), Some(1));
    assert_eq!(find_char("=", '='), Some(0));
    assert_eq!(find_char("abc", '='), None);
    assert_eq!(find_char("", '='), None);
    assert_eq!(find_char("éé=", '='), Some(2));
}
