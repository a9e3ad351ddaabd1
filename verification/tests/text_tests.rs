use ova_verify::text::{
    find_char, lowered_range, scan_back, scan_forward, to_chars, CharClass,
};

#[test]
fn to_chars_keeps_every_character() {
    assert_eq!(to_chars(""), Vec::<char>::new());
    assert_eq!(to_chars("a(b)"), vec!['a', '(', 'b', ')']);
    assert_eq!(to_chars("\u{e9}\u{1f4be}z"), vec!['\u{e9}', '\u{1f4be}', 'z']);
}

#[test]
fn character_classes() {
    for c in "0123456789abcdefABCDEF".chars() {
        assert!(CharClass::HexDigit.contains(c));
        assert!(!CharClass::Space.contains(c));
        assert!(!CharClass::Separator.contains(c));
    }
    for c in "gGxX/:@`= ()\u{e9}".chars() {
        assert!(!CharClass::HexDigit.contains(c));
    }
    for c in " \t\n\r\u{b}\u{c}".chars() {
        assert!(CharClass::Space.contains(c));
        assert!(CharClass::Separator.contains(c));
    }
    assert!(CharClass::Separator.contains('='));
    assert!(!CharClass::Space.contains('='));
    assert!(!CharClass::Space.contains('\u{a0}'));
    assert!(!CharClass::Separator.contains(')'));
}

#[test]
fn find_char_gives_the_first_occurrence() {
    let chars = to_chars("ab(cd(e");
    assert_eq!(find_char(&chars, '(', 0), 2);
    assert_eq!(find_char(&chars, '(', 2), 2);
    assert_eq!(find_char(&chars, '(', 3), 5);
    assert_eq!(find_char(&chars, '(', 6), 7);
    assert_eq!(find_char(&chars, 'x', 0), 7);
    assert_eq!(find_char(&chars, 'a', 7), 7);
}

#[test]
fn scan_back_walks_over_the_trailing_run() {
    let chars = to_chars("x)= 0a1b  ");
    assert_eq!(scan_back(&chars, 10, CharClass::Space), 8);
    assert_eq!(scan_back(&chars, 8, CharClass::HexDigit), 4);
    assert_eq!(scan_back(&chars, 4, CharClass::Separator), 2);
    assert_eq!(scan_back(&chars, 2, CharClass::Separator), 2);
    assert_eq!(scan_back(&chars, 0, CharClass::Space), 0);
    assert_eq!(scan_back(&to_chars("   "), 3, CharClass::Space), 0);
}

#[test]
fn scan_forward_walks_over_the_leading_run() {
    let chars = to_chars("  SHA1 ");
    assert_eq!(scan_forward(&chars, 0, 7, CharClass::Space), 2);
    assert_eq!(scan_forward(&chars, 0, 1, CharClass::Space), 1);
    assert_eq!(scan_forward(&chars, 2, 7, CharClass::Space), 2);
    assert_eq!(scan_forward(&chars, 6, 7, CharClass::Space), 7);
    assert_eq!(scan_forward(&chars, 7, 7, CharClass::Space), 7);
}

#[test]
fn lowered_range_lowers_hex_digits_only() {
    let line = "xA-F0G\u{c9}af";
    let chars = to_chars(line);
    assert_eq!(lowered_range(line, &chars, 0, chars.len()), "xa-f0G\u{c9}af");
    assert_eq!(lowered_range(line, &chars, 1, 4), "a-f");
    assert_eq!(lowered_range(line, &chars, 4, 7), "0G\u{c9}");
    assert_eq!(lowered_range(line, &chars, 3, 3), "");
    assert_eq!(lowered_range(line, &chars, 7, 9), "af");
}
