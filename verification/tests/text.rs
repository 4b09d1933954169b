use fixepub::text::bytes_eq;
use fixepub::text::find;
use fixepub::text::occurs_at;
use fixepub::text::replace_all;
use fixepub::text::str_eq;
use fixepub::text::str_slice;
use fixepub::text::trim_start;

#[test]
fn white_space_is_what_the_standard_library_trims() {
    for code in 0..=0x10ffffu32 {
        if let Some(c) = char::from_u32(code) {
            let text = format!("{}x{}", c, c);
            assert_eq!(trim_start(text.as_bytes()), text.trim_start().as_bytes(), "U+{:04X}", code);
        }
    }
}

#[test]
fn all_leading_white_space_is_trimmed() {
    let text = " \t\n\u{b}\u{c}\r\u{85}\u{a0}\u{1680}\u{2000}\u{200a}\u{2028}\u{2029}\u{202f}\u{205f}\u{3000}<a> \n";
    assert_eq!(trim_start(text.as_bytes()), b"<a> \n");
    assert_eq!(trim_start(b""), b"");
    assert_eq!(trim_start(b" \n "), b"");
    assert_eq!(trim_start(b"a "), b"a ");
    assert_eq!(trim_start(b"\xc2"), b"\xc2");
    assert_eq!(trim_start(b" \xe2\x80"), b"\xe2\x80");
    assert_eq!(trim_start(b"\xe2\x80\x8b "), b"\xe2\x80\x8b ");
    assert_eq!(trim_start(b"\x85 "), b"\x85 ");
}

#[test]
fn occurrences_are_found_from_the_left() {
    assert_eq!(find(b"abcabc", b"bc", 0), Some(1));
    assert_eq!(find(b"abcabc", b"bc", 1), Some(1));
    assert_eq!(find(b"abcabc", b"bc", 2), Some(4));
    assert_eq!(find(b"abcabc", b"bc", 5), None);
    assert_eq!(find(b"abcabc", b"", 6), Some(6));
    assert_eq!(find(b"abcabc", b"", 7), None);
    assert_eq!(find(b"", b"a", 0), None);
    assert_eq!(find(b"ab", b"abc", 0), None);
    assert!(occurs_at(b"abc", b"bc", 1));
    assert!(!occurs_at(b"abc", b"bc", 2));
    assert!(!occurs_at(b"abc", b"", 4));
    assert!(occurs_at(b"abc", b"", 3));
}

#[test]
fn replacing_agrees_with_the_standard_library() {
    let alphabet = ["a", "b", "ab", "#", "\u{e9}", "\u{4e2d}", "\u{1f600}"];
    let mut seed: u64 = 0x9e3779b97f4a7c15;
    let mut next = move |bound: usize| {
        seed ^= seed << 13;
        seed ^= seed >> 7;
        seed ^= seed << 17;
        (seed % bound as u64) as usize
    };
    for _ in 0..20000 {
        let mut hay = String::new();
        for _ in 0..next(12) {
            hay.push_str(alphabet[next(alphabet.len())]);
        }
        let mut from = String::new();
        for _ in 0..next(3) {
            from.push_str(alphabet[next(alphabet.len())]);
        }
        let to = alphabet[next(alphabet.len())];
        let expected = hay.replace(&from, to);
        assert_eq!(
            replace_all(hay.as_bytes(), from.as_bytes(), to.as_bytes()),
            expected.as_bytes(),
            "{:?} {:?} {:?}",
            hay,
            from,
            to
        );
        assert_eq!(find(hay.as_bytes(), from.as_bytes(), 0), hay.find(&from));
    }
}

#[test]
fn occurrences_are_replaced_without_overlap() {
    assert_eq!(replace_all(b"aaaa", b"aa", b"a"), b"aa");
    assert_eq!(replace_all(b"aaa", b"aa", b"b"), b"ba");
    assert_eq!(replace_all(b"abab", b"ab", b"abab"), b"abababab");
    assert_eq!(replace_all(b"abc", b"abcd", b"x"), b"abc");
    assert_eq!(replace_all(b"abc", b"abc", b""), b"");
    assert_eq!(replace_all(b"", b"", b"xy"), b"xy");
}

#[test]
fn texts_are_compared_by_their_bytes() {
    assert!(bytes_eq(b"", b""));
    assert!(bytes_eq(b"ab", b"ab"));
    assert!(!bytes_eq(b"ab", b"abc"));
    assert!(!bytes_eq(b"ab", b"ac"));
    assert!(str_eq("\u{e9}", "\u{e9}"));
    assert!(!str_eq("\u{e9}", "e\u{301}"));
}

#[test]
fn a_text_is_cut_between_characters() {
    let text = "a/\u{e9}.\u{4e2d}";
    assert_eq!(str_slice(text, 0, text.len()), text);
    assert_eq!(str_slice(text, 2, 4), "\u{e9}");
    assert_eq!(str_slice(text, 5, 8), "\u{4e2d}");
    assert_eq!(str_slice(text, 8, 8), "");
}
