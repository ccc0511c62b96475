use pac_windows::bytes::{
    read_le16, read_le32, read_le64, to_low32, to_signed16, to_signed32, to_signed64,
};
use pac_windows::utf16::{decode_lossy, read_field_text, read_units, to_wide};

fn le_bytes(units: &[u16]) -> Vec<u8> {
    units.iter().flat_map(|u| u.to_le_bytes()).collect()
}

#[test]
fn wide_text_ends_in_zero() {
    assert_eq!(to_wide(""), vec![0]);
    assert_eq!(to_wide("0"), vec![0x30, 0]);
    assert_eq!(to_wide("a\u{20ac}"), vec![0x61, 0x20ac, 0]);
}

#[test]
fn wide_text_agrees_with_the_encoder() {
    for s in ["", "pac_srum", "\u{1F600}x", "\u{ffff}\u{10000}\u{10ffff}", "d\u{fc}rfen"] {
        let mut expected: Vec<u16> = s.encode_utf16().collect();
        expected.push(0);
        assert_eq!(to_wide(s), expected);
    }
}

#[test]
fn every_text_survives_encoding() {
    for s in ["", "SRUDB.dat", "\u{1F600}\u{10ffff}", "a\0b"] {
        let units: Vec<u16> = s.encode_utf16().collect();
        assert_eq!(decode_lossy(&units), s);
    }
}

#[test]
fn lone_surrogates_are_replaced() {
    assert_eq!(decode_lossy(&vec![0xD83D]), "\u{fffd}");
    assert_eq!(decode_lossy(&vec![0xDE00, 0x41]), "\u{fffd}A");
    assert_eq!(decode_lossy(&vec![0xD83D, 0x41]), "\u{fffd}A");
    assert_eq!(decode_lossy(&vec![0xD83D, 0xD83D, 0xDE00]), "\u{fffd}\u{1F600}");
}

#[test]
fn lossy_decoding_agrees_with_the_decoder() {
    let samples: [&[u16]; 5] = [
        &[0xD800, 0xDC00, 0xDBFF, 0xDFFF],
        &[0xDC00, 0xD800],
        &[0xD7FF, 0xE000, 0xFFFF, 0],
        &[0xD800, 0xD800, 0xDC00, 0xDC00],
        &[0x41, 0xDBFF],
    ];
    for units in samples {
        assert_eq!(decode_lossy(&units.to_vec()), String::from_utf16_lossy(units));
    }
}

#[test]
fn padded_field_gives_its_text() {
    let mut data = vec![0xAAu8, 0xBB];
    data.extend(le_bytes(&[0x4D, 0x69, 0x63, 0, 0, 0]));
    data.push(0xCC);
    assert_eq!(read_units(&data, 2, 3), vec![0x4D, 0x69, 0x63]);
    assert_eq!(read_field_text(&data, 2, 6), "Mic");
    assert_eq!(read_field_text(&data, 2, 0), "");
}

#[test]
fn integers_are_little_endian() {
    let data = [0x01u8, 0x02, 0x03, 0x04, 0x05, 0x06, 0x07, 0x88, 0x99];
    assert_eq!(read_le16(&data, 1), 0x0302);
    assert_eq!(read_le32(&data, 0), 0x04030201);
    assert_eq!(read_le64(&data, 1), 0x9988070605040302);
}

#[test]
fn signs_are_twos_complement() {
    assert_eq!(to_signed16(0x7FFF), i16::MAX);
    assert_eq!(to_signed16(0x8000), i16::MIN);
    assert_eq!(to_signed32(0xFFFF_FFFF), -1);
    assert_eq!(to_signed32(0x8000_0000), i32::MIN);
    assert_eq!(to_signed64(u64::MAX), -1);
    assert_eq!(to_signed64(0x7FFF_FFFF_FFFF_FFFF), i64::MAX);
}

#[test]
fn low_bits_undo_the_sign() {
    for v in [0u32, 1, 0x7FFF_FFFF, 0x8000_0000, 0xFFFF_FFFF] {
        assert_eq!(to_low32(to_signed32(v) as i64), v);
    }
    assert_eq!(to_low32(0x1_0000_0005), 5);
    assert_eq!(to_low32(i64::MIN), 0);
}
