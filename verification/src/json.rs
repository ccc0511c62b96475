//! Strings in JSON.

use vstd::prelude::*;
use vstd::string::*;

use crate::text::{chars_of, hex_byte, hex_digit_char};

verus! {

/// A character inside a JSON string: quotation marks and backslashes stand behind a backslash,
/// control characters are written by their number.
pub open spec fn escaped_char(c: char) -> Seq<char> {
    if c == '"' || c == '\\' {
        seq!['\\', c]
    } else if c <= '\u{1f}' {
        seq!['\\', 'u', '0', '0'] + hex_byte(c as u8)
    } else {
        seq![c]
    }
}

/// A text inside a JSON string.
pub open spec fn escaped(s: Seq<char>) -> Seq<char>
    decreases s.len(),
{
    if s.len() == 0 {
        Seq::empty()
    } else {
        escaped(s.drop_last()) + escaped_char(s.last())
    }
}

/// Appends a text as it stands inside a JSON string.
pub fn push_escaped(out: &mut String, s: &str)
    ensures
        final(out)@ == old(out)@ + escaped(s@),
{
    let chars = chars_of(s);
    let mut i: usize = 0;
    while i < chars.len()
        invariant
            0 <= i <= chars@.len(),
            chars@ == s@,
            out@ == old(out)@ + escaped(s@.take(i as int)),
        decreases chars@.len() - i,
    {
        let c = chars[i];
        let ghost before = out@;
        if c == '"' || c == '\\' {
            out.push('\\');
            out.push(c);
        } else if c <= '\u{1f}' {
            let code: u8 = c as u8;
            out.push('\\');
            out.push('u');
            out.push('0');
            out.push('0');
            out.push(hex_digit_char(code / 16));
            out.push(hex_digit_char(code % 16));
        } else {
            out.push(c);
        }
        proof {
            assert(out@ =~= before + escaped_char(c));
            assert(s@.take(i + 1).drop_last() == s@.take(i as int));
            assert(s@.take(i + 1).last() == c);
        }
        i = i + 1;
    }
    proof {
        assert(s@.take(i as int) == s@);
    }
}

/// The value of a hexadecimal digit.
pub open spec fn hex_value(c: char) -> Option<int> {
    if '0' <= c <= '9' {
        Some(c as int - '0' as int)
    } else if 'a' <= c <= 'f' {
        Some(c as int - 'a' as int + 10)
    } else if 'A' <= c <= 'F' {
        Some(c as int - 'A' as int + 10)
    } else {
        None
    }
}

/// The character that four hexadecimal digits stand for, unless they stand for half of a
/// surrogate pair.
pub open spec fn hex_char(a: char, b: char, c: char, d: char) -> Option<char> {
    match (hex_value(a), hex_value(b), hex_value(c), hex_value(d)) {
        (Some(w), Some(x), Some(y), Some(z)) => {
            let v = 0x1000 * w + 0x100 * x + 0x10 * y + z;
            if 0xD800 <= v <= 0xDFFF {
                None
            } else {
                Some(v as char)
            }
        },
        _ => None,
    }
}

/// The character that a backslash and the character behind it stand for.
pub open spec fn short_escape(c: char) -> Option<char> {
    if c == '"' || c == '\\' || c == '/' {
        Some(c)
    } else if c == 'b' {
        Some('\u{8}')
    } else if c == 'f' {
        Some('\u{c}')
    } else if c == 'n' {
        Some('\n')
    } else if c == 'r' {
        Some('\r')
    } else if c == 't' {
        Some('\t')
    } else {
        None
    }
}

/// Puts a character in front of what was read.
pub open spec fn and_before(c: char, read: Option<(Seq<char>, Seq<char>)>) -> Option<
    (Seq<char>, Seq<char>),
> {
    match read {
        Some((text, rest)) => Some((seq![c] + text, rest)),
        None => None,
    }
}

/// Reads a JSON string whose opening quotation mark was read: its text, and what follows the
/// closing quotation mark. There is nothing to read where that mark is missing, at a control
/// character, and at an escape that stands for no character.
pub open spec fn read_string(t: Seq<char>) -> Option<(Seq<char>, Seq<char>)>
    decreases t.len(),
{
    if t.len() == 0 || t[0] <= '\u{1f}' {
        None
    } else if t[0] == '"' {
        Some((Seq::empty(), t.skip(1)))
    } else if t[0] != '\\' {
        and_before(t[0], read_string(t.skip(1)))
    } else if t.len() >= 6 && t[1] == 'u' {
        match hex_char(t[2], t[3], t[4], t[5]) {
            Some(c) => and_before(c, read_string(t.skip(6))),
            None => None,
        }
    } else if t.len() >= 2 {
        match short_escape(t[1]) {
            Some(c) => and_before(c, read_string(t.skip(2))),
            None => None,
        }
    } else {
        None
    }
}

proof fn escaped_concat(a: Seq<char>, b: Seq<char>)
    ensures
        escaped(a + b) == escaped(a) + escaped(b),
    decreases b.len(),
{
    if b.len() == 0 {
        assert(a + b == a);
    } else {
        escaped_concat(a, b.drop_last());
        assert((a + b).drop_last() == a + b.drop_last());
        assert((a + b).last() == b.last());
    }
}

proof fn control_char_reads_back(c: char)
    requires
        c <= '\u{1f}',
    ensures
        hex_char('0', '0', hex_byte(c as u8)[0], hex_byte(c as u8)[1]) == Some(c),
{
    let code = c as u8;
    assert(code as int == c as int);
    assert(code < 32);
    let high = hex_byte(code)[0];
    let low = hex_byte(code)[1];
    assert(hex_value('0') == Some(0int));
    assert(hex_value(high) == Some((code / 16) as int));
    assert(hex_value(low) == Some((code % 16) as int));
    assert(0x10 * (code / 16) + code % 16 == code);
}

proof fn escaped_char_reads_back(c: char, rest: Seq<char>)
    ensures
        read_string(escaped_char(c) + rest) == and_before(c, read_string(rest)),
{
    let all = escaped_char(c) + rest;
    if c == '"' || c == '\\' {
        assert(all.skip(2) == rest);
        assert(short_escape(c) == Some(c));
        assert(all[1] == c);
    } else if c <= '\u{1f}' {
        control_char_reads_back(c);
        assert(all.skip(6) == rest);
        assert(all[2] == '0' && all[3] == '0');
        assert(all[4] == hex_byte(c as u8)[0] && all[5] == hex_byte(c as u8)[1]);
    } else {
        assert(all.skip(1) == rest);
    }
}

/// Every text survives in a JSON string: up to the closing quotation mark, exactly the text is
/// read.
pub proof fn escaped_reads_back(s: Seq<char>, rest: Seq<char>)
    ensures
        read_string(escaped(s) + seq!['"'] + rest) == Some((s, rest)),
    decreases s.len(),
{
    let end = seq!['"'] + rest;
    if s.len() == 0 {
        assert(escaped(s) + seq!['"'] + rest == end);
        assert(end.skip(1) == rest);
        assert(s == Seq::<char>::empty());
    } else {
        let first = seq![s[0]];
        let tail = s.drop_first();
        assert(first + tail == s);
        escaped_concat(first, tail);
        assert(first.drop_last() == Seq::<char>::empty());
        assert(escaped(first) == escaped_char(s[0])) by {
            reveal_with_fuel(escaped, 2);
        }
        let after = escaped(tail) + seq!['"'] + rest;
        assert(escaped(s) + seq!['"'] + rest == escaped_char(s[0]) + after);
        escaped_char_reads_back(s[0], after);
        escaped_reads_back(tail, rest);
        assert(first + tail == s);
    }
}

} // verus!
