use pac_windows::blob::{binary_sid_to_string, bytes_to_string, is_binary_sid};

#[test]
fn sid_of_a_domain_user() {
    let data = [1u8, 2, 0, 0, 0, 0, 0, 5, 21, 0, 0, 0, 0xF4, 1, 0, 0];
    assert!(is_binary_sid(&data));
    assert_eq!(binary_sid_to_string(&data), "S-1-5-21-500");
}

#[test]
fn sid_without_sub_authorities() {
    let data = [1u8, 0, 0, 0, 0, 0, 0, 5];
    assert!(is_binary_sid(&data));
    assert_eq!(binary_sid_to_string(&data), "S-1-5");
}

#[test]
fn sid_authority_is_big_endian() {
    let data = [1u8, 1, 1, 2, 3, 4, 5, 6, 0xFF, 0xFF, 0xFF, 0xFF];
    assert_eq!(binary_sid_to_string(&data), "S-1-1108152157446-4294967295");
}

#[test]
fn sid_form_is_checked() {
    assert!(!is_binary_sid(&[1, 0, 0, 0, 0, 0, 5]));
    assert!(!is_binary_sid(&[2, 0, 0, 0, 0, 0, 0, 5]));
    assert!(!is_binary_sid(&[1, 1, 0, 0, 0, 0, 0, 5]));
    let mut sixteen = vec![1u8, 16, 0, 0, 0, 0, 0, 5];
    sixteen.extend(vec![0u8; 64]);
    assert!(!is_binary_sid(&sixteen));
    let mut fifteen = vec![1u8, 15, 0, 0, 0, 0, 0, 5];
    fifteen.extend(vec![0u8; 61]);
    assert!(is_binary_sid(&fifteen));
}

#[test]
fn cut_off_sid_keeps_what_is_whole() {
    assert_eq!(binary_sid_to_string(&[1, 2, 0, 0, 0, 0, 0, 5]), "S-1-5");
    let data = [1u8, 3, 0, 0, 0, 0, 0, 5, 18, 0, 0, 0, 1, 2, 3];
    assert_eq!(binary_sid_to_string(&data), "S-1-5-18");
    assert_eq!(binary_sid_to_string(&[1, 0, 0, 0, 0, 0, 5]), "");
}

#[test]
fn equal_sid_texts_come_from_equal_sids() {
    let a = [1u8, 1, 0, 0, 0, 0, 0, 5, 18, 0, 0, 0];
    let b = [1u8, 1, 0, 0, 0, 0, 0, 5, 18, 0, 0, 0, 0xEE];
    let c = [1u8, 1, 0, 0, 0, 0, 0, 5, 19, 0, 0, 0];
    assert_eq!(binary_sid_to_string(&a), binary_sid_to_string(&b));
    assert_ne!(binary_sid_to_string(&a), binary_sid_to_string(&c));
}

#[test]
fn utf16_is_detected() {
    assert_eq!(bytes_to_string(b"a\0b\0\0\0"), "ab");
    assert_eq!(bytes_to_string(b"ab\0\0"), "ab");
    assert_eq!(bytes_to_string(b"A\0p\0p\0I\0d\0"), "AppId");
}

#[test]
fn latin_utf16_reads_back() {
    let data: Vec<u8> = "B\u{fc}ro".encode_utf16().flat_map(|u| u.to_le_bytes()).collect();
    assert_eq!(bytes_to_string(&data), "B\u{fc}ro");
}

#[test]
fn utf16_needs_a_visible_character() {
    assert_eq!(bytes_to_string(b" \0 \0"), " \0 ");
    assert_eq!(bytes_to_string(b"\x7f\0"), "\x7f");
    assert_eq!(bytes_to_string(b"a\0b"), "a\0b");
    assert_eq!(bytes_to_string(b"\0\0"), "");
}

#[test]
fn wide_characters_are_no_utf16_here() {
    // Every second byte has to be zero, so a euro sign makes the bytes UTF-8.
    assert_eq!(bytes_to_string(&[0x41, 0x00, 0xAC, 0x20]), "A\0\u{fffd} ");
}

#[test]
fn utf8_reads_back() {
    assert_eq!(bytes_to_string("caf\u{e9}".as_bytes()), "caf\u{e9}");
    assert_eq!(bytes_to_string(b""), "");
    assert_eq!(bytes_to_string(b"x"), "x");
}

#[test]
fn invalid_utf8_is_replaced() {
    assert_eq!(bytes_to_string(&[0x41, 0xFF, 0x42]), "A\u{fffd}B");
}

#[test]
fn only_zero_bytes_give_nothing() {
    for n in 0..9usize {
        let mut data = vec![0u8; n];
        assert_eq!(bytes_to_string(&data), "");
        for i in 0..n {
            for b in [1u8, 0x41, 0x80, 0xFF] {
                data[i] = b;
                assert_ne!(bytes_to_string(&data), "");
            }
            data[i] = 0;
        }
    }
}

#[test]
fn invalid_bytes_leave_a_mark() {
    for data in [vec![0x80u8], vec![0xC0, 0x80], vec![0xED, 0xA0, 0x80], vec![0xE2, 0x82]] {
        assert!(bytes_to_string(&data).contains('\u{fffd}'));
    }
}
