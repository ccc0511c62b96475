//! Identifiers stored as byte blobs: security identifiers and encoded strings.

use vstd::prelude::*;
use vstd::string::*;
use vstd::utf8::*;

use crate::bytes::{bytes_value, le16, le32, numbers_hold_all_bytes, read_le32};
use crate::text::{
    decimal, decimal_injective, decimal_is_digits, decimal_reads_back, from_utf8_lossy, is_numeral,
    join, join_then_split, numeral_value, push_decimal, split, trim_end_nuls, utf8_lossy,
    without_end_nuls,
};
use crate::utf16::{
    char_units, decoded, encoded, field_text, padded_field_reads_back, read_field_text, units_at,
};

verus! {

/// Whether bytes have the form of a binary security identifier: revision 1, at most 15
/// sub-authorities, and room for all of them.
pub open spec fn has_sid_form(data: Seq<u8>) -> bool {
    &&& data.len() >= 8
    &&& data[0] == 1
    &&& data[1] <= 15
    &&& data.len() >= 8 + 4 * data[1]
}

/// Whether bytes look like a binary security identifier.
pub fn is_binary_sid(data: &[u8]) -> (res: bool)
    ensures
        res == has_sid_form(data@),
{
    if data.len() < 8 {
        return false;
    }
    let revision: u8 = data[0];
    let sub_count: usize = data[1] as usize;
    revision == 1 && sub_count <= 15 && data.len() >= 8 + sub_count * 4
}

/// The identifier authority: bytes 2 to 7, most significant first.
pub open spec fn sid_authority(data: Seq<u8>) -> nat {
    (0x100_0000_0000 * data[2] + 0x1_0000_0000 * data[3] + 0x100_0000 * data[4] + 0x1_0000 * data[5]
        + 0x100 * data[6] + data[7]) as nat
}

/// How many sub-authorities are announced and present as a whole.
pub open spec fn sid_sub_count(data: Seq<u8>) -> nat {
    if data[1] <= (data.len() - 8) / 4 {
        data[1] as nat
    } else {
        ((data.len() - 8) / 4) as nat
    }
}

/// The pieces of the text form of a security identifier.
pub open spec fn sid_parts(data: Seq<u8>) -> Seq<Seq<char>> {
    seq![seq!['S'], decimal(data[0] as nat), decimal(sid_authority(data))] + Seq::new(
        sid_sub_count(data),
        |i: int| decimal(le32(data, 8 + 4 * i) as nat),
    )
}

/// The text form of a security identifier, `S-1-5-21-...`; empty below eight bytes.
pub open spec fn sid_text(data: Seq<u8>) -> Seq<char> {
    if data.len() < 8 {
        Seq::empty()
    } else {
        join(sid_parts(data), seq!['-'])
    }
}

/// Converts a binary security identifier to its text form.
pub fn binary_sid_to_string(data: &[u8]) -> (res: String)
    ensures
        res@ == sid_text(data@),
{
    let len: usize = data.len();
    if len < 8 {
        return String::new();
    }
    let announced: usize = data[1] as usize;
    let present: usize = (len - 8) / 4;
    let sub_authority_count: usize = if announced <= present {
        announced
    } else {
        present
    };
    let authority: u64 = 0x100_0000_0000 * data[2] as u64 + 0x1_0000_0000 * data[3] as u64
        + 0x100_0000 * data[4] as u64 + 0x1_0000 * data[5] as u64 + 0x100 * data[6] as u64
        + data[7] as u64;

    let ghost parts = sid_parts(data@);
    let mut sid = String::new();
    sid.push('S');
    sid.push('-');
    push_decimal(&mut sid, data[0] as u128);
    sid.push('-');
    push_decimal(&mut sid, authority as u128);
    proof {
        reveal_with_fuel(join, 4);
        assert(parts.take(3) == seq![parts[0], parts[1], parts[2]]);
        assert(parts.take(3).drop_last() == parts.take(2));
        assert(parts.take(2).drop_last() == parts.take(1));
        assert(sid@ == join(parts.take(3), seq!['-']));
    }
    let mut i: usize = 0;
    while i < sub_authority_count
        invariant
            8 <= len == data@.len(),
            sub_authority_count == sid_sub_count(data@),
            parts == sid_parts(data@),
            0 <= i <= sub_authority_count,
            sid@ == join(parts.take(3 + i), seq!['-']),
        decreases sub_authority_count - i,
    {
        let sub: u32 = read_le32(data, 8 + i * 4);
        sid.push('-');
        push_decimal(&mut sid, sub as u128);
        proof {
            assert(parts[3 + i] == decimal(sub as nat));
            assert(parts.take(4 + i).drop_last() == parts.take(3 + i));
            assert(parts.take(4 + i).last() == parts[3 + i]);
        }
        i = i + 1;
    }
    assert(parts.take(3 + i) == parts);
    sid
}

/// Whether every second byte is zero and another one is a printable ASCII character, as in
/// UTF-16LE text in a Latin script.
pub open spec fn looks_utf16(data: Seq<u8>) -> bool {
    &&& data.len() >= 2
    &&& data.len() % 2 == 0
    &&& exists|i: int| 0 <= i < data.len() / 2 && 0x20 < #[trigger] data[2 * i] < 0x7F
    &&& forall|i: int| 0 <= i < data.len() / 2 ==> #[trigger] data[2 * i + 1] == 0
}

/// The text of bytes: read as UTF-16LE where they look so, as UTF-8 otherwise, without the
/// NULs at the end.
pub open spec fn blob_text(data: Seq<u8>) -> Seq<char> {
    if looks_utf16(data) {
        field_text(data, 0, (data.len() / 2) as nat)
    } else {
        without_end_nuls(utf8_lossy(data))
    }
}

fn detect_utf16(data: &[u8]) -> (res: bool)
    ensures
        res == looks_utf16(data@),
{
    let len: usize = data.len();
    if len < 2 || len % 2 != 0 {
        return false;
    }
    let half: usize = len / 2;
    let mut printable: bool = false;
    let mut i: usize = 0;
    while i < half
        invariant
            len == data@.len(),
            half == len / 2,
            len % 2 == 0,
            0 <= i <= half,
            printable == exists|k: int| 0 <= k < i && 0x20 < #[trigger] data@[2 * k] < 0x7F,
            forall|k: int| 0 <= k < i ==> #[trigger] data@[2 * k + 1] == 0,
        decreases half - i,
    {
        if data[2 * i + 1] != 0 {
            assert(data@[2 * i as int + 1] != 0);
            return false;
        }
        let low: u8 = data[2 * i];
        if low > 0x20 && low < 0x7F {
            assert(0x20 < data@[2 * i as int] < 0x7F);
            printable = true;
        }
        i = i + 1;
    }
    printable
}

/// Reads bytes as text, detecting UTF-16LE.
pub fn bytes_to_string(data: &[u8]) -> (res: String)
    ensures
        res@ == blob_text(data@),
        !looks_utf16(data@) && valid_utf8(data@) ==> res@ == without_end_nuls(decode_utf8(data@)),
        !looks_utf16(data@) && !valid_utf8(data@) ==> res@.contains('\u{fffd}'),
        res@.len() == 0 <==> forall|i: int| 0 <= i < data@.len() ==> #[trigger] data@[i] == 0,
        valid_utf8(data@) && (data@.len() % 2 != 0 || (exists|i: int|
            0 <= i < data@.len() && i % 2 != 0 && #[trigger] data@[i] != 0) || (forall|i: int|
            0 <= i < data@.len() && i % 2 == 0 ==> !(0x20 < #[trigger] data@[i] < 0x7F)))
            ==> res@ == without_end_nuls(decode_utf8(data@)),
        forall|s: Seq<char>|
            !s.contains('\0') && data@ == #[trigger] encode_utf8(s) ==> res@ == s,
{
    proof {
        if looks_utf16(data@) {
            utf16_form(data@);
        }
        assert forall|s: Seq<char>|
            !s.contains('\0') && data@ == #[trigger] encode_utf8(s) implies !looks_utf16(data@)
            && valid_utf8(data@) && without_end_nuls(decode_utf8(data@)) == s by {
            utf8_without_zero(s);
            encode_utf8_valid_utf8(s);
            encode_utf8_decode_utf8(s);
            if looks_utf16(data@) {
                assert(data@[2 * 0int + 1] == 0);
            }
            if s.len() > 0 {
                assert(s.contains(s.last()));
            }
        }
    }
    if detect_utf16(data) {
        proof {
            utf16_blob_not_empty(data@);
        }
        return read_field_text(data, 0, data.len() / 2);
    }
    let lossy = from_utf8_lossy(data);
    proof {
        if valid_utf8(data@) {
            utf8_nuls(data@);
        } else {
            end_nuls_only(lossy@, '\u{fffd}');
            if forall|i: int| 0 <= i < data@.len() ==> #[trigger] data@[i] == 0 {
                zeros_are_nuls(data@);
            }
        }
    }
    trim_end_nuls(lossy.as_str())
}

proof fn end_nuls_only(s: Seq<char>, c: char)
    requires
        s.contains(c),
        c != '\0',
    ensures
        without_end_nuls(s).contains(c),
    decreases s.len(),
{
    if s.last() == '\0' {
        let k = choose|k: int| 0 <= k < s.len() && s[k] == c;
        assert(s.drop_last()[k] == c);
        end_nuls_only(s.drop_last(), c);
    }
}

proof fn nuls_leave_nothing(s: Seq<char>)
    ensures
        without_end_nuls(s).len() == 0 <==> forall|i: int| 0 <= i < s.len() ==> s[i] == '\0',
    decreases s.len(),
{
    if s.len() > 0 {
        let init = s.drop_last();
        nuls_leave_nothing(init);
        assert(forall|i: int| 0 <= i < init.len() ==> init[i] == s[i]);
        assert(s.last() == s[s.len() - 1]);
        if s.last() == '\0' && without_end_nuls(s).len() == 0 {
            assert forall|i: int| 0 <= i < s.len() implies s[i] == '\0' by {
                if i < init.len() {
                    assert(init[i] == '\0');
                }
            }
        }
    }
}

proof fn nuls_encoded(n: nat)
    ensures
        encode_utf8(Seq::new(n, |i: int| '\0')) == Seq::new(n, |i: int| 0u8),
    decreases n,
{
    let nuls = Seq::new(n, |i: int| '\0');
    if n > 0 {
        nuls_encoded((n - 1) as nat);
        assert(nuls.drop_first() =~= Seq::new((n - 1) as nat, |i: int| '\0'));
        assert((0u32 & 0x7F) as u8 == 0) by (bit_vector);
        assert(encode_scalar(0) =~= seq![0u8]);
        assert(encode_utf8(nuls) =~= Seq::new(n, |i: int| 0u8));
    } else {
        assert(encode_utf8(nuls) =~= Seq::new(n, |i: int| 0u8));
    }
}

proof fn zeros_are_nuls(data: Seq<u8>)
    requires
        forall|i: int| 0 <= i < data.len() ==> #[trigger] data[i] == 0,
    ensures
        valid_utf8(data),
        decode_utf8(data) == Seq::new(data.len(), |i: int| '\0'),
{
    let nuls = Seq::new(data.len(), |i: int| '\0');
    nuls_encoded(data.len());
    assert(data =~= encode_utf8(nuls));
    encode_utf8_valid_utf8(nuls);
    encode_utf8_decode_utf8(nuls);
}

proof fn utf8_nuls(data: Seq<u8>)
    requires
        valid_utf8(data),
    ensures
        without_end_nuls(decode_utf8(data)).len() == 0 <==> forall|i: int|
            0 <= i < data.len() ==> #[trigger] data[i] == 0,
{
    let s = decode_utf8(data);
    nuls_leave_nothing(s);
    if without_end_nuls(s).len() == 0 {
        assert(s =~= Seq::new(s.len(), |i: int| '\0'));
        nuls_encoded(s.len());
        decode_utf8_encode_utf8(data);
    }
    if forall|i: int| 0 <= i < data.len() ==> #[trigger] data[i] == 0 {
        zeros_are_nuls(data);
    }
}

proof fn narrow_units_decoded(units: Seq<u16>, k: int)
    requires
        forall|i: int| 0 <= i < units.len() ==> #[trigger] units[i] < 0x100,
        0 <= k < units.len(),
    ensures
        decoded(units).contains(units[k] as char),
    decreases units.len(),
{
    let rest = units.skip(1);
    let all = decoded(units);
    assert(units[0] < 0x100);
    assert(all == seq![units[0] as char] + decoded(rest));
    if k == 0 {
        assert(all[0] == units[0] as char);
    } else {
        assert forall|i: int| 0 <= i < rest.len() implies #[trigger] rest[i] < 0x100 by {
            assert(rest[i] == units[i + 1]);
        }
        narrow_units_decoded(rest, k - 1);
        let c = units[k] as char;
        assert(rest[k - 1] == units[k]);
        let j = choose|j: int| 0 <= j < decoded(rest).len() && decoded(rest)[j] == c;
        assert(all[j + 1] == c);
    }
}

proof fn utf16_blob_not_empty(data: Seq<u8>)
    requires
        looks_utf16(data),
    ensures
        field_text(data, 0, (data.len() / 2) as nat).len() > 0,
        exists|i: int| 0 <= i < data.len() && #[trigger] data[i] != 0,
{
    let units = units_at(data, 0, (data.len() / 2) as nat);
    let k = choose|k: int| 0 <= k < data.len() / 2 && 0x20 < #[trigger] data[2 * k] < 0x7F;
    assert forall|i: int| 0 <= i < units.len() implies #[trigger] units[i] < 0x100 by {
        assert(data[2 * i + 1] == 0);
        assert(units[i] == le16(data, 0 + 2 * i));
    }
    assert(data[2 * k + 1] == 0);
    assert(units[k] == data[2 * k]);
    narrow_units_decoded(units, k);
    narrow_char(units[k]);
    end_nuls_only(decoded(units), units[k] as char);
    assert(data[2 * k] != 0);
}

proof fn narrow_char(unit: u16)
    requires
        0 < unit < 0x100,
    ensures
        unit as char != '\0',
{
}

proof fn scalar_without_zero(v: u32)
    requires
        v != 0,
    ensures
        forall|i: int| 0 <= i < encode_scalar(v).len() ==> encode_scalar(v)[i] != 0,
{
    assert(v != 0 && v <= 0x7F ==> (v & 0x7F) as u8 != 0) by (bit_vector);
    assert(0xC0 | ((v >> 6) & 0x1F) as u8 != 0) by (bit_vector);
    assert(0xE0 | ((v >> 12) & 0x0F) as u8 != 0) by (bit_vector);
    assert(0xF0 | ((v >> 18) & 0x7) as u8 != 0) by (bit_vector);
    assert(0x80 | (v & 0x3F) as u8 != 0) by (bit_vector);
    assert(0x80 | ((v >> 6) & 0x3F) as u8 != 0) by (bit_vector);
    assert(0x80 | ((v >> 12) & 0x3F) as u8 != 0) by (bit_vector);
}

proof fn char_without_zero(c: char)
    requires
        c != '\0',
    ensures
        c as u32 != 0,
{
}

proof fn utf8_without_zero(s: Seq<char>)
    requires
        !s.contains('\0'),
    ensures
        forall|i: int| 0 <= i < encode_utf8(s).len() ==> encode_utf8(s)[i] != 0,
    decreases s.len(),
{
    if s.len() > 0 {
        let rest = s.drop_first();
        assert(s.contains(s[0]));
        assert(!rest.contains('\0')) by {
            if rest.contains('\0') {
                let k = choose|k: int| 0 <= k < rest.len() && rest[k] == '\0';
                assert(s[k + 1] == '\0');
            }
        }
        char_without_zero(s[0]);
        scalar_without_zero(s[0] as u32);
        utf8_without_zero(rest);
        let head = encode_scalar(s[0] as u32);
        assert(encode_utf8(s) == head + encode_utf8(rest));
        assert forall|i: int| 0 <= i < encode_utf8(s).len() implies encode_utf8(s)[i] != 0 by {
            if i < head.len() {
                assert(head[i] != 0);
            } else {
                assert(encode_utf8(rest)[i - head.len()] != 0);
            }
        }
    }
}

proof fn latin_char_units(c: char)
    requires
        c < '\u{100}',
    ensures
        c as u32 == c as int,
        (c as u32) < 0x100,
        char_units(c) == seq![c as u32 as u16],
        char_units(c)[0] == c as u32,
{
}

proof fn encoded_latin(s: Seq<char>)
    requires
        forall|i: int| 0 <= i < s.len() ==> #[trigger] s[i] < '\u{100}',
    ensures
        encoded(s).len() == s.len(),
        forall|i: int| 0 <= i < s.len() ==> #[trigger] encoded(s)[i] == s[i] as u32,
    decreases s.len(),
{
    if s.len() > 0 {
        let init = s.drop_last();
        assert forall|i: int| 0 <= i < init.len() implies #[trigger] init[i] < '\u{100}' by {
            assert(init[i] == s[i]);
        }
        encoded_latin(init);
        assert(s.last() == s[s.len() - 1]);
        latin_char_units(s.last());
        assert forall|i: int| 0 <= i < s.len() implies #[trigger] encoded(s)[i] == s[i] as u32 by {
            if i < init.len() {
                assert(encoded(init)[i] == init[i] as u32);
            }
        }
    }
}

/// A text of Latin-1 characters stored as UTF-16LE reads back, if it holds a visible ASCII
/// character and does not end in NUL.
pub proof fn utf16_blob_reads_back(data: Seq<u8>, s: Seq<char>)
    requires
        data.len() == 2 * encoded(s).len(),
        units_at(data, 0, encoded(s).len()) == encoded(s),
        forall|i: int| 0 <= i < s.len() ==> #[trigger] s[i] < '\u{100}',
        exists|i: int| 0 <= i < s.len() && '\u{20}' < #[trigger] s[i] < '\u{7f}',
        s.last() != '\0',
    ensures
        blob_text(data) == s,
{
    encoded_latin(s);
    let units = units_at(data, 0, encoded(s).len());
    assert forall|i: int| 0 <= i < data.len() / 2 implies #[trigger] data[2 * i + 1] == 0 && data[2
        * i] == s[i] as u32 by {
        assert(units[i] == le16(data, 0 + 2 * i));
        assert(encoded(s)[i] == s[i] as u32);
        assert(s[i] < '\u{100}');
        latin_char_units(s[i]);
        assert(data[2 * i] + 0x100 * data[2 * i + 1] <= 0xFFFF);
    }
    let k = choose|i: int| 0 <= i < s.len() && '\u{20}' < #[trigger] s[i] < '\u{7f}';
    latin_char_units(s[k]);
    assert(data[2 * k + 1] == 0);
    assert(0x20 < data[2 * k] < 0x7F);
    assert(looks_utf16(data));
    assert(encoded(s) + Seq::new(0, |i: int| 0u16) == encoded(s));
    padded_field_reads_back(data, 0, encoded(s).len(), s);
}

proof fn low_byte_injective(a: int, above_a: int, b: int, above_b: int)
    requires
        0 <= a < 0x100,
        0 <= b < 0x100,
        a + 0x100 * above_a == b + 0x100 * above_b,
    ensures
        a == b,
        above_a == above_b,
{
}

proof fn three_bytes_injective(a0: u8, a1: u8, a2: u8, b0: u8, b1: u8, b2: u8)
    requires
        a0 + 0x100 * a1 + 0x1_0000 * a2 == b0 + 0x100 * b1 + 0x1_0000 * b2,
    ensures
        a0 == b0,
        a1 == b1,
        a2 == b2,
{
    low_byte_injective(a0 as int, a1 + 0x100 * a2, b0 as int, b1 + 0x100 * b2);
    low_byte_injective(a1 as int, a2 as int, b1 as int, b2 as int);
}

proof fn le32_injective(a: Seq<u8>, b: Seq<u8>, at: int)
    requires
        le32(a, at) == le32(b, at),
    ensures
        a[at] == b[at],
        a[at + 1] == b[at + 1],
        a[at + 2] == b[at + 2],
        a[at + 3] == b[at + 3],
{
    let above_a = a[at + 1] + 0x100 * a[at + 2] + 0x1_0000 * a[at + 3];
    let above_b = b[at + 1] + 0x100 * b[at + 2] + 0x1_0000 * b[at + 3];
    assert(le32(a, at) == a[at] + 0x100 * above_a);
    assert(le32(b, at) == b[at] + 0x100 * above_b);
    low_byte_injective(a[at] as int, above_a, b[at] as int, above_b);
    three_bytes_injective(a[at + 1], a[at + 2], a[at + 3], b[at + 1], b[at + 2], b[at + 3]);
}

proof fn halves_injective(low_a: int, high_a: int, low_b: int, high_b: int)
    requires
        0 <= low_a < 0x100_0000,
        0 <= low_b < 0x100_0000,
        low_a + 0x100_0000 * high_a == low_b + 0x100_0000 * high_b,
    ensures
        low_a == low_b,
        high_a == high_b,
{
}

proof fn sid_authority_injective(a: Seq<u8>, b: Seq<u8>)
    requires
        sid_authority(a) == sid_authority(b),
    ensures
        forall|i: int| 2 <= i < 8 ==> #[trigger] a[i] == b[i],
{
    halves_injective(
        a[7] + 0x100 * a[6] + 0x1_0000 * a[5],
        a[4] + 0x100 * a[3] + 0x1_0000 * a[2],
        b[7] + 0x100 * b[6] + 0x1_0000 * b[5],
        b[4] + 0x100 * b[3] + 0x1_0000 * b[2],
    );
    three_bytes_injective(a[7], a[6], a[5], b[7], b[6], b[5]);
    three_bytes_injective(a[4], a[3], a[2], b[4], b[3], b[2]);
}

proof fn decimal_without_dash(n: nat)
    ensures
        !decimal(n).contains('-'),
{
    decimal_is_digits(n);
}

proof fn sid_parts_without_dash(data: Seq<u8>)
    ensures
        forall|i: int| 0 <= i < sid_parts(data).len() ==> !(#[trigger] sid_parts(data)[i]).contains(
            '-',
        ),
{
    let parts = sid_parts(data);
    assert forall|i: int| 0 <= i < parts.len() implies !(#[trigger] parts[i]).contains('-') by {
        if i == 0 {
            assert(parts[0] == seq!['S']);
        } else if i == 1 {
            decimal_without_dash(data[0] as nat);
        } else if i == 2 {
            decimal_without_dash(sid_authority(data));
        } else {
            decimal_without_dash(le32(data, 8 + 4 * (i - 3)) as nat);
        }
    }
}

/// Security identifiers with the same text are the same: they agree in every byte that the
/// identifier takes up.
pub proof fn sid_text_injective(a: Seq<u8>, b: Seq<u8>)
    requires
        has_sid_form(a),
        has_sid_form(b),
        sid_text(a) == sid_text(b),
    ensures
        a[1] == b[1],
        a.take(8 + 4 * a[1]) == b.take(8 + 4 * a[1]),
{
    sid_parts_without_dash(a);
    sid_parts_without_dash(b);
    join_then_split(sid_parts(a), '-');
    join_then_split(sid_parts(b), '-');
    let pa = sid_parts(a);
    let pb = sid_parts(b);
    assert(pa == pb);
    assert(pa.len() == 3 + a[1]);
    assert(pb.len() == 3 + b[1]);
    assert(pa[2] == decimal(sid_authority(a)));
    assert(pb[2] == decimal(sid_authority(b)));
    decimal_injective(sid_authority(a), sid_authority(b));
    sid_authority_injective(a, b);
    assert forall|i: int| 0 <= i < 8 + 4 * a[1] implies a[i] == b[i] by {
        if i >= 8 {
            let k = (i - 8) / 4;
            assert(pa[3 + k] == decimal(le32(a, 8 + 4 * k) as nat));
            assert(pb[3 + k] == decimal(le32(b, 8 + 4 * k) as nat));
            decimal_injective(le32(a, 8 + 4 * k) as nat, le32(b, 8 + 4 * k) as nat);
            le32_injective(a, b, 8 + 4 * k);
        }
    }
    assert(a.take(8 + 4 * a[1]) == b.take(8 + 4 * a[1]));
}

proof fn utf16_form(data: Seq<u8>)
    requires
        looks_utf16(data),
    ensures
        data.len() % 2 == 0,
        forall|i: int| 0 <= i < data.len() && i % 2 != 0 ==> #[trigger] data[i] == 0,
        exists|i: int| 0 <= i < data.len() && i % 2 == 0 && 0x20 < #[trigger] data[i] < 0x7F,
{
    assert forall|i: int| 0 <= i < data.len() && i % 2 != 0 implies #[trigger] data[i] == 0 by {
        let k = i / 2;
        assert(i == 2 * k + 1);
        assert(data[2 * k + 1] == 0);
    }
    let k = choose|k: int| 0 <= k < data.len() / 2 && 0x20 < #[trigger] data[2 * k] < 0x7F;
    assert(0x20 < data[2 * k] < 0x7F && (2 * k) % 2 == 0);
}

/// The number that the bytes from `from` up to `to` make up, the first one counting most.
pub open spec fn big_endian_value(data: Seq<u8>, from: int, to: int) -> int
    decreases to - from,
{
    if from >= to {
        0
    } else {
        0x100 * big_endian_value(data, from, to - 1) + data[to - 1]
    }
}

/// The text of a security identifier is read back, whatever its length: between dashes stand
/// `S`, the revision, the authority in six bytes, and then each sub-authority in four bytes, as
/// many as are announced and present. Below eight bytes there is no text.
pub proof fn sid_text_reads_back(data: Seq<u8>)
    ensures
        data.len() < 8 ==> sid_text(data).len() == 0,
        data.len() >= 8 ==> {
            let parts = split(sid_text(data), '-');
            let count = parts.len() - 3;
            &&& count >= 0
            &&& count <= data[1] && 8 + 4 * count <= data.len()
            &&& count == data[1] || 8 + 4 * (count + 1) > data.len()
            &&& parts[0] == seq!['S']
            &&& is_numeral(parts[1]) && numeral_value(parts[1]) == data[0]
            &&& is_numeral(parts[2]) && numeral_value(parts[2]) == big_endian_value(data, 2, 8)
            &&& forall|i: int|
                0 <= i < count ==> is_numeral(#[trigger] parts[3 + i]) && numeral_value(
                    parts[3 + i],
                ) == bytes_value(data, 8 + 4 * i, 12 + 4 * i)
        },
{
    if data.len() >= 8 {
        let parts = sid_parts(data);
        sid_parts_without_dash(data);
        join_then_split(parts, '-');
        assert(split(sid_text(data), '-') == parts);
        decimal_reads_back(data[0] as nat);
        decimal_reads_back(sid_authority(data));
        assert(sid_authority(data) == big_endian_value(data, 2, 8)) by {
            reveal_with_fuel(big_endian_value, 7);
        }
        assert forall|i: int| 0 <= i < parts.len() - 3 implies is_numeral(#[trigger] parts[3 + i])
            && numeral_value(parts[3 + i]) == bytes_value(data, 8 + 4 * i, 12 + 4 * i) by {
            assert(parts[3 + i] == decimal(le32(data, 8 + 4 * i) as nat));
            decimal_reads_back(le32(data, 8 + 4 * i) as nat);
            numbers_hold_all_bytes(data, 8 + 4 * i);
        }
    }
}

/// Bytes have the form of a security identifier if and only if they are of revision 1, announce
/// at most 15 sub-authorities, and their text tells every one that is announced.
pub proof fn sid_form_is_complete(data: Seq<u8>)
    ensures
        has_sid_form(data) <==> data.len() >= 8 && data[0] == 1 && data[1] <= 15 && split(
            sid_text(data),
            '-',
        ).len() == 3 + data[1],
{
    sid_text_reads_back(data);
}

} // verus!
