use pac_windows::text::{
    begins_with_char, chars_of, contains_text, decimal_text, hex_list_text, join_texts, push_chars,
    push_decimal, push_left_aligned, push_repeated, push_right_aligned, same_text,
    signed_decimal_text, split_text, trim, trim_end_nuls,
};

fn owned(parts: &[&str]) -> Vec<String> {
    parts.iter().map(|p| p.to_string()).collect()
}

#[test]
fn decimals_are_written_as_the_formatter_does() {
    for n in [0u128, 7, 9, 10, 99, 100, 1000, 18446744073709551615, u128::MAX] {
        assert_eq!(decimal_text(n), format!("{}", n));
    }
    for v in [0i64, 1, -1, 10, -10, i64::MAX, i64::MIN] {
        assert_eq!(signed_decimal_text(v), format!("{}", v));
    }
}

#[test]
fn decimal_is_appended() {
    let mut out = String::from("n=");
    push_decimal(&mut out, 405);
    assert_eq!(out, "n=405");
}

#[test]
fn characters_come_out_one_by_one() {
    let chars = chars_of("a\u{e9}\u{1F600}");
    assert_eq!(chars, vec!['a', '\u{e9}', '\u{1F600}']);
    let mut out = String::from(">");
    push_chars(&mut out, &chars, 1, 3);
    assert_eq!(out, ">\u{e9}\u{1F600}");
}

#[test]
fn texts_are_compared_by_characters() {
    assert!(same_text("dram", "dram"));
    assert!(!same_text("dram", "DRAM"));
    assert!(same_text("", ""));
}

#[test]
fn bytes_are_listed_as_the_formatter_does() {
    let empty: [u8; 0] = [];
    assert_eq!(hex_list_text(&empty), "[]");
    assert_eq!(hex_list_text(&[0x0a]), "[0a]");
    let data = [0u8, 1, 0x10, 0x7f, 0x9a, 0xff];
    assert_eq!(hex_list_text(&data), "[00, 01, 10, 7f, 9a, ff]");
    assert_eq!(hex_list_text(&data), format!("{:02x?}", data));
}

#[test]
fn padding_is_that_of_the_formatter() {
    for s in ["", "a", "12345678", "123456789", "\u{e9}t\u{e9}"] {
        let mut left = String::new();
        push_left_aligned(&mut left, s, 8);
        assert_eq!(left, format!("{:<8}", s));
        let mut right = String::new();
        push_right_aligned(&mut right, s, 8);
        assert_eq!(right, format!("{:>8}", s));
    }
    let mut rule = String::new();
    push_repeated(&mut rule, '-', 5);
    assert_eq!(rule, "-----");
}

#[test]
fn joining_and_splitting_undo_each_other() {
    let parts = owned(&["vcccore", "", "dram"]);
    assert_eq!(join_texts(&parts, ","), "vcccore,,dram");
    assert_eq!(split_text("vcccore,,dram", ','), parts);
    assert_eq!(split_text("", ','), owned(&[""]));
    assert_eq!(split_text(",", ','), owned(&["", ""]));
    assert_eq!(join_texts(&Vec::new(), ","), "");
}

#[test]
fn split_of_a_concatenation() {
    let mut pieces = split_text("a,b", ',');
    pieces.extend(split_text("c,", ','));
    assert_eq!(split_text("a,b,c,", ','), pieces);
}

#[test]
fn substrings_are_found_everywhere() {
    assert!(contains_text("acpi#mchp1940#2", "mchp1940"));
    assert!(contains_text("mchp1940", "mchp1940"));
    assert!(contains_text("abc", ""));
    assert!(contains_text("", ""));
    assert!(contains_text("abc", "bc"));
    assert!(!contains_text("abc", "abcd"));
    assert!(!contains_text("abc", "ac"));
    assert!(!contains_text("", "a"));
}

#[test]
fn first_character_decides() {
    assert!(begins_with_char("{DA73}", '{'));
    assert!(!begins_with_char("DA73}", '{'));
    assert!(!begins_with_char("", '{'));
}

#[test]
fn nuls_at_the_end_go() {
    assert_eq!(trim_end_nuls("ab\0\0"), "ab");
    assert_eq!(trim_end_nuls("a\0b\0"), "a\0b");
    assert_eq!(trim_end_nuls("\0\0"), "");
    assert_eq!(trim_end_nuls("ab"), "ab");
}

#[test]
fn white_space_at_the_ends_goes() {
    let samples = [
        "",
        " ",
        "a",
        "  a b\t\r\n",
        "\u{85}\u{a0}x\u{1680}\u{2000}\u{200a}",
        "\u{2028}\u{2029}y\u{202f}\u{205f}\u{3000}",
        "\u{b}\u{c}z",
        "\u{200b}w\u{feff}",
        "\0 v \0",
    ];
    for s in samples {
        assert_eq!(trim(s), s.trim());
    }
    assert_eq!(trim(" DRAM "), "DRAM");
}

#[test]
fn white_space_is_that_of_the_standard_library() {
    for code in 0..0x3100u32 {
        if let Some(c) = char::from_u32(code) {
            let s = c.to_string();
            assert_eq!(trim(&s), s.trim());
        }
    }
}
