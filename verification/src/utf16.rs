//! UTF-16: strings as sequences of 16-bit units, and back.

use vstd::prelude::*;
use vstd::string::*;

use crate::bytes::{bytes_value, le16, numbers_hold_all_bytes, read_le16};
use crate::text::{chars_of, end_nuls_are_split_off, trim_end_nuls, without_end_nuls};

verus! {

/// `char::from_u32` gives the character with that scalar value, and nothing for a number that
/// is no scalar value (a surrogate, or one above 0x10FFFF).
pub assume_specification[ char::from_u32 ](i: u32) -> (res: Option<char>)
    ensures
        res is Some <==> (i < 0xD800 || 0xE000 <= i <= 0x10FFFF),
        res matches Some(c) ==> c as u32 == i,
;

/// The first unit of a surrogate pair.
pub open spec fn is_high(u: u16) -> bool {
    0xD800 <= u <= 0xDBFF
}

/// The second unit of a surrogate pair.
pub open spec fn is_low(u: u16) -> bool {
    0xDC00 <= u <= 0xDFFF
}

/// The scalar value that a surrogate pair stands for.
pub open spec fn pair_value(high: u16, low: u16) -> int {
    0x1_0000 + 0x400 * (high - 0xD800) + (low - 0xDC00)
}

/// The units of one character: one below 0x10000, a surrogate pair from there on.
pub open spec fn char_units(c: char) -> Seq<u16> {
    let v = c as u32;
    if v < 0x1_0000 {
        seq![v as u16]
    } else {
        seq![(0xD800 + (v - 0x1_0000) / 0x400) as u16, (0xDC00 + (v - 0x1_0000) % 0x400) as u16]
    }
}

/// The units of a text.
pub open spec fn encoded(s: Seq<char>) -> Seq<u16>
    decreases s.len(),
{
    if s.len() == 0 {
        Seq::empty()
    } else {
        encoded(s.drop_last()) + char_units(s.last())
    }
}

/// The text that units stand for; a surrogate that is not half of a pair reads as U+FFFD.
pub open spec fn decoded(units: Seq<u16>) -> Seq<char>
    decreases units.len(),
{
    if units.len() == 0 {
        Seq::empty()
    } else if units.len() >= 2 && is_high(units[0]) && is_low(units[1]) {
        seq![pair_value(units[0], units[1]) as char] + decoded(units.skip(2))
    } else if is_high(units[0]) || is_low(units[0]) {
        seq!['\u{fffd}'] + decoded(units.skip(1))
    } else {
        seq![units[0] as char] + decoded(units.skip(1))
    }
}

/// The units of a text with a zero unit behind them.
pub open spec fn wide(s: Seq<char>) -> Seq<u16> {
    encoded(s).push(0)
}

/// A text as zero-terminated UTF-16, the form in which system calls take names and paths.
pub fn to_wide(s: &str) -> (res: Vec<u16>)
    ensures
        res@ == wide(s@),
{
    let chars = chars_of(s);
    let mut out: Vec<u16> = Vec::new();
    let mut i: usize = 0;
    while i < chars.len()
        invariant
            0 <= i <= chars@.len(),
            chars@ == s@,
            out@ == encoded(s@.take(i as int)),
        decreases chars@.len() - i,
    {
        let v: u32 = chars[i] as u32;
        proof {
            assert(s@.take(i + 1).drop_last() == s@.take(i as int));
            assert(s@.take(i + 1).last() == s@[i as int]);
        }
        if v < 0x1_0000 {
            out.push(v as u16);
        } else {
            out.push((0xD800 + (v - 0x1_0000) / 0x400) as u16);
            out.push((0xDC00 + (v - 0x1_0000) % 0x400) as u16);
        }
        assert(out@ == encoded(s@.take(i as int)) + char_units(s@[i as int]));
        i = i + 1;
    }
    proof {
        assert(s@.take(i as int) == s@);
    }
    out.push(0);
    out
}

fn scalar(v: u32) -> (c: char)
    requires
        v < 0xD800 || 0xE000 <= v <= 0x10FFFF,
    ensures
        c as u32 == v,
{
    match char::from_u32(v) {
        Some(c) => c,
        None => '\u{fffd}',
    }
}

/// Reads units as text, with U+FFFD for a surrogate that is not half of a pair.
pub fn decode_lossy(units: &Vec<u16>) -> (res: String)
    ensures
        res@ == decoded(units@),
{
    let mut out = String::new();
    let mut i: usize = 0;
    assert(units@.skip(0) == units@);
    while i < units.len()
        invariant
            0 <= i <= units@.len(),
            out@ + decoded(units@.skip(i as int)) == decoded(units@),
        decreases units@.len() - i,
    {
        let ghost before = out@;
        let ghost rest = units@.skip(i as int);
        let u: u16 = units[i];
        if 0xD800 <= u && u <= 0xDBFF && i + 1 < units.len() && 0xDC00 <= units[i + 1]
            && units[i + 1] <= 0xDFFF {
            let v: u32 = 0x1_0000 + 0x400 * (u - 0xD800) as u32 + (units[i + 1] - 0xDC00) as u32;
            out.push(scalar(v));
            proof {
                assert(rest.skip(2) == units@.skip(i + 2));
                assert(out@ + decoded(rest.skip(2)) == before + decoded(rest));
            }
            i = i + 2;
        } else if 0xD800 <= u && u <= 0xDFFF {
            out.push('\u{fffd}');
            proof {
                assert(rest.skip(1) == units@.skip(i + 1));
                assert(out@ + decoded(rest.skip(1)) == before + decoded(rest));
            }
            i = i + 1;
        } else {
            out.push(scalar(u as u32));
            proof {
                assert(rest.skip(1) == units@.skip(i + 1));
                assert(out@ + decoded(rest.skip(1)) == before + decoded(rest));
            }
            i = i + 1;
        }
    }
    out
}

/// The `count` little-endian units that start at byte `at`.
pub open spec fn units_at(data: Seq<u8>, at: int, count: nat) -> Seq<u16> {
    Seq::new(count, |i: int| le16(data, at + 2 * i))
}

/// Reads `count` little-endian units that start at byte `at`.
pub fn read_units(data: &[u8], at: usize, count: usize) -> (res: Vec<u16>)
    requires
        at + 2 * count <= data@.len(),
    ensures
        res@ == units_at(data@, at as int, count as nat),
{
    let len: usize = data.len();
    let mut out: Vec<u16> = Vec::new();
    let mut i: usize = 0;
    while i < count
        invariant
            0 <= i <= count,
            at + 2 * count <= data@.len() == len,
            out@ == units_at(data@, at as int, i as nat),
        decreases count - i,
    {
        out.push(read_le16(data, at + 2 * i));
        i = i + 1;
    }
    out
}

/// The text of a field of `count` units at byte `at`, without the NULs that fill it up.
pub open spec fn field_text(data: Seq<u8>, at: int, count: nat) -> Seq<char> {
    without_end_nuls(decoded(units_at(data, at, count)))
}

/// Reads the text of a field of `count` units at byte `at`.
pub fn read_field_text(data: &[u8], at: usize, count: usize) -> (res: String)
    requires
        at + 2 * count <= data@.len(),
    ensures
        res@ == field_text(data@, at as int, count as nat),
{
    let units = read_units(data, at, count);
    let decoded_units = decode_lossy(&units);
    trim_end_nuls(decoded_units.as_str())
}

proof fn encoded_concat(a: Seq<char>, b: Seq<char>)
    ensures
        encoded(a + b) == encoded(a) + encoded(b),
    decreases b.len(),
{
    if b.len() == 0 {
        assert(a + b == a);
    } else {
        encoded_concat(a, b.drop_last());
        assert((a + b).drop_last() == a + b.drop_last());
        assert((a + b).last() == b.last());
    }
}

proof fn decoded_char_units(c: char, rest: Seq<u16>)
    ensures
        decoded(char_units(c) + rest) == seq![c] + decoded(rest),
{
    let all = char_units(c) + rest;
    let v = c as u32;
    if v < 0x1_0000 {
        assert(all.skip(1) == rest);
        assert(all[0] as char == c);
    } else {
        assert(all.skip(2) == rest);
        assert(pair_value(all[0], all[1]) == v);
        assert(pair_value(all[0], all[1]) as char == c);
    }
}

/// Units that start with an encoded text read as that text, then as what follows.
pub proof fn encoded_prefix_reads_back(s: Seq<char>, rest: Seq<u16>)
    ensures
        decoded(encoded(s) + rest) == s + decoded(rest),
    decreases s.len(),
{
    if s.len() == 0 {
        assert(encoded(s) + rest == rest);
    } else {
        let first = seq![s[0]];
        let tail = s.drop_first();
        assert(first + tail == s);
        encoded_concat(first, tail);
        assert(first.drop_last() == Seq::<char>::empty());
        assert(encoded(first) == char_units(s[0])) by {
            reveal_with_fuel(encoded, 2);
        }
        assert(encoded(s) + rest == char_units(s[0]) + (encoded(tail) + rest));
        decoded_char_units(s[0], encoded(tail) + rest);
        encoded_prefix_reads_back(tail, rest);
        assert(first + (tail + decoded(rest)) == s + decoded(rest));
    }
}

/// Every text survives the way to UTF-16 and back.
pub proof fn decode_encode(s: Seq<char>)
    ensures
        decoded(encoded(s)) == s,
{
    encoded_prefix_reads_back(s, Seq::empty());
    assert(encoded(s) + Seq::<u16>::empty() == encoded(s));
    assert(s + decoded(Seq::<u16>::empty()) == s);
}

proof fn char_units_nonzero(c: char)
    requires
        c != '\0',
    ensures
        forall|i: int| 0 <= i < char_units(c).len() ==> char_units(c)[i] != 0,
{
}

/// A text without NUL has no zero unit, so that the zero unit behind it marks its end.
pub proof fn wide_ends_at_first_zero(s: Seq<char>)
    requires
        !s.contains('\0'),
    ensures
        wide(s).last() == 0,
        forall|i: int| 0 <= i < wide(s).len() - 1 ==> wide(s)[i] != 0,
    decreases s.len(),
{
    if s.len() > 0 {
        let init = s.drop_last();
        assert(s.last() != '\0') by {
            assert(s.contains(s.last()));
        }
        assert(!init.contains('\0')) by {
            if init.contains('\0') {
                let k = choose|k: int| 0 <= k < init.len() && init[k] == '\0';
                assert(s[k] == '\0');
            }
        }
        wide_ends_at_first_zero(init);
        char_units_nonzero(s.last());
        assert forall|i: int| 0 <= i < wide(s).len() - 1 implies wide(s)[i] != 0 by {
            if i < encoded(init).len() {
                assert(wide(s)[i] == wide(init)[i]);
            } else {
                assert(wide(s)[i] == char_units(s.last())[i - encoded(init).len()]);
            }
        }
    }
}

proof fn decoded_zeros(n: nat)
    ensures
        decoded(Seq::new(n, |i: int| 0u16)) == Seq::new(n, |i: int| '\0'),
    decreases n,
{
    let zeros = Seq::new(n, |i: int| 0u16);
    if n > 0 {
        decoded_zeros((n - 1) as nat);
        assert(zeros.skip(1) == Seq::new((n - 1) as nat, |i: int| 0u16));
        assert(zeros[0] as char == '\0');
        assert(decoded(zeros) == Seq::new(n, |i: int| '\0'));
    } else {
        assert(decoded(zeros) == Seq::new(n, |i: int| '\0'));
    }
}

proof fn without_end_nuls_padded(s: Seq<char>, n: nat)
    requires
        s.len() > 0 ==> s.last() != '\0',
    ensures
        without_end_nuls(s + Seq::new(n, |i: int| '\0')) == s,
    decreases n,
{
    let padded = s + Seq::new(n, |i: int| '\0');
    if n > 0 {
        without_end_nuls_padded(s, (n - 1) as nat);
        assert(padded.drop_last() == s + Seq::new((n - 1) as nat, |i: int| '\0'));
    } else {
        assert(padded == s);
    }
}

/// A field that holds a text and is filled up with zero units reads as that text, unless the
/// text itself ends in NUL.
pub proof fn padded_field_reads_back(data: Seq<u8>, at: int, count: nat, s: Seq<char>)
    requires
        encoded(s).len() <= count,
        units_at(data, at, count) == encoded(s) + Seq::new(
            (count - encoded(s).len()) as nat,
            |i: int| 0u16,
        ),
        s.len() > 0 ==> s.last() != '\0',
    ensures
        field_text(data, at, count) == s,
{
    let n = (count - encoded(s).len()) as nat;
    encoded_prefix_reads_back(s, Seq::new(n, |i: int| 0u16));
    decoded_zeros(n);
    without_end_nuls_padded(s, n);
}

/// A character below U+10000 is one unit with its number; any other is a high and a low
/// surrogate, with ten bits of its number each.
pub proof fn characters_as_units(c: char)
    ensures
        (c as int) < 0x1_0000 ==> char_units(c).len() == 1 && char_units(c)[0] == c as int,
        c as int >= 0x1_0000 ==> {
            &&& char_units(c).len() == 2
            &&& 0xD800 <= char_units(c)[0] <= 0xDBFF
            &&& 0xDC00 <= char_units(c)[1] <= 0xDFFF
            &&& 0x400 * (char_units(c)[0] - 0xD800) + (char_units(c)[1] - 0xDC00) == c as int
                - 0x1_0000
        },
{
    let v = c as u32;
    assert(v == c as int);
    if v >= 0x1_0000 {
        let w = v - 0x1_0000;
        assert(0x400 * (w / 0x400) + w % 0x400 == w);
    }
}

/// The units of a text are those of its characters, one after the other.
pub proof fn encoded_in_order(a: Seq<char>, c: char, b: Seq<char>)
    ensures
        encoded(Seq::empty()) == Seq::<u16>::empty(),
        encoded(a + seq![c] + b) == encoded(a) + char_units(c) + encoded(b),
{
    encoded_concat(a + seq![c], b);
    assert((a + seq![c]).drop_last() =~= a);
    assert((a + seq![c]).last() == c);
}

/// Units are read from the front: a unit that is no surrogate by its number, two that are a
/// pair as one character, and a surrogate without its other half as U+FFFD.
pub proof fn units_read_from_the_front(u: u16, rest: Seq<u16>)
    ensures
        decoded(Seq::empty()) == Seq::<char>::empty(),
        !(0xD800 <= u <= 0xDFFF) ==> {
            &&& decoded(seq![u] + rest).len() == 1 + decoded(rest).len()
            &&& decoded(seq![u] + rest)[0] as int == u
            &&& decoded(seq![u] + rest).drop_first() == decoded(rest)
        },
        0xD800 <= u <= 0xDBFF && rest.len() > 0 && 0xDC00 <= rest[0] <= 0xDFFF ==> {
            &&& decoded(seq![u] + rest).len() == 1 + decoded(rest.drop_first()).len()
            &&& decoded(seq![u] + rest)[0] as int == 0x1_0000 + 0x400 * (u - 0xD800) + (rest[0]
                - 0xDC00)
            &&& decoded(seq![u] + rest).drop_first() == decoded(rest.drop_first())
        },
        0xD800 <= u <= 0xDFFF && !(u <= 0xDBFF && rest.len() > 0 && 0xDC00 <= rest[0] <= 0xDFFF)
            ==> decoded(seq![u] + rest) == seq!['\u{fffd}'] + decoded(rest),
{
    let all = seq![u] + rest;
    assert(all.skip(1) =~= rest);
    if rest.len() > 0 {
        assert(all.skip(2) =~= rest.drop_first());
        assert(all[1] == rest[0]);
    }
    if !(0xD800 <= u <= 0xDFFF) {
        unit_as_char(u);
        assert(decoded(all) == seq![u as char] + decoded(rest));
        assert(decoded(all).drop_first() =~= decoded(rest));
    } else if u <= 0xDBFF && rest.len() > 0 && 0xDC00 <= rest[0] <= 0xDFFF {
        pair_as_char(u, rest[0]);
        assert(decoded(all) == seq![pair_value(u, rest[0]) as char] + decoded(rest.drop_first()));
        assert(decoded(all).drop_first() =~= decoded(rest.drop_first()));
    }
}

proof fn unit_as_char(u: u16)
    requires
        !(0xD800 <= u <= 0xDFFF),
    ensures
        u as char as int == u,
{
}

proof fn pair_as_char(high: u16, low: u16)
    requires
        0xD800 <= high <= 0xDBFF,
        0xDC00 <= low <= 0xDFFF,
    ensures
        pair_value(high, low) as char as int == 0x1_0000 + 0x400 * (high - 0xD800) + (low - 0xDC00),
{
    let v = pair_value(high, low);
    assert(0x1_0000 <= v <= 0x10FFFF);
}

/// Every unit is made of two bytes, the first one counting least.
pub proof fn units_are_two_bytes(data: Seq<u8>, at: int, count: nat, i: int)
    requires
        0 <= i < count,
    ensures
        units_at(data, at, count).len() == count,
        units_at(data, at, count)[i] == bytes_value(data, at + 2 * i, at + 2 * i + 2),
{
    numbers_hold_all_bytes(data, at + 2 * i);
}

/// A text is read back from its zero-terminated units.
pub proof fn wide_reads_back(s: Seq<char>)
    ensures
        wide(s).len() >= 1,
        wide(s).last() == 0,
        decoded(wide(s).drop_last()) == s,
{
    decode_encode(s);
    assert(wide(s).drop_last() =~= encoded(s));
}

/// A field holds what its units stand for, and only NULs at the end are left out.
pub proof fn fields_lose_only_nuls(data: Seq<u8>, at: int, count: nat)
    ensures
        ({
            let all = decoded(units_at(data, at, count));
            let text = field_text(data, at, count);
            &&& text.len() <= all.len()
            &&& all.take(text.len() as int) == text
            &&& forall|i: int| text.len() <= i < all.len() ==> all[i] == '\0'
            &&& text.len() > 0 ==> text.last() != '\0'
        }),
{
    end_nuls_are_split_off(decoded(units_at(data, at, count)));
}

} // verus!
