//! Text building blocks: decimal and hexadecimal numbers, padding, joining, splitting,
//! trimming and substring search, each stated over sequences of characters.

use vstd::prelude::*;
use vstd::string::*;
use vstd::utf8::*;

use crate::json::hex_value;

verus! {

/// `String::push` appends one character at the end of the string.
pub assume_specification[ String::push ](s: &mut String, c: char)
    ensures
        final(s)@ == old(s)@.push(c),
;

/// The decimal digit `d`.
pub open spec fn digit(d: nat) -> char {
    (48 + d) as char
}

/// The decimal numeral of `n`, without leading zeros.
pub open spec fn decimal(n: nat) -> Seq<char>
    decreases n,
{
    if n < 10 {
        seq![digit(n)]
    } else {
        decimal(n / 10).push(digit(n % 10))
    }
}

/// The decimal numeral of `v`, with a minus sign if `v` is negative.
pub open spec fn signed_decimal(v: int) -> Seq<char> {
    if v < 0 {
        seq!['-'] + decimal((-v) as nat)
    } else {
        decimal(v as nat)
    }
}

/// Appends the decimal numeral of `n`.
pub fn push_decimal(out: &mut String, n: u128)
    ensures
        final(out)@ == old(out)@ + decimal(n as nat),
    decreases n,
{
    if n >= 10 {
        push_decimal(out, n / 10);
    }
    let d: u8 = (n % 10) as u8;
    out.push((48 + d) as char);
}

/// The decimal numeral of `n`.
pub fn decimal_text(n: u128) -> (res: String)
    ensures
        res@ == decimal(n as nat),
{
    let mut out = String::new();
    push_decimal(&mut out, n);
    out
}

/// The decimal numeral of `v`, signed.
pub fn signed_decimal_text(v: i64) -> (res: String)
    ensures
        res@ == signed_decimal(v as int),
{
    let mut out = String::new();
    if v < 0 {
        out.push('-');
        push_decimal(&mut out, (-(v as i128)) as u128);
    } else {
        push_decimal(&mut out, v as u128);
    }
    out
}

/// The characters of a string, one by one.
pub fn chars_of(s: &str) -> (res: Vec<char>)
    ensures
        res@ == s@,
{
    let mut out: Vec<char> = Vec::new();
    for c in it: s.chars()
        invariant
            out@ == it.seq().take(it.index() as int),
            it.seq() == s@,
    {
        out.push(c);
    }
    out
}

/// Appends the characters of `chars` from `from` up to `to`.
pub fn push_chars(out: &mut String, chars: &Vec<char>, from: usize, to: usize)
    requires
        from <= to <= chars@.len(),
    ensures
        final(out)@ == old(out)@ + chars@.subrange(from as int, to as int),
{
    let mut i: usize = from;
    while i < to
        invariant
            from <= i <= to <= chars@.len(),
            out@ == old(out)@ + chars@.subrange(from as int, i as int),
        decreases to - i,
    {
        out.push(chars[i]);
        i = i + 1;
    }
}

/// A decimal numeral is made of decimal digits, and there is at least one.
pub proof fn decimal_is_digits(n: nat)
    ensures
        decimal(n).len() >= 1,
        forall|i: int| 0 <= i < decimal(n).len() ==> '0' <= #[trigger] decimal(n)[i] <= '9',
    decreases n,
{
    if n >= 10 {
        decimal_is_digits(n / 10);
    }
}

/// A decimal numeral is the one digit of a number below ten, and otherwise the numeral of its
/// tenth part with one more digit.
pub proof fn decimal_len(n: nat)
    ensures
        n < 10 ==> decimal(n) == seq![digit(n)],
        n >= 10 ==> decimal(n) == decimal(n / 10).push(digit(n % 10)) && decimal(n).len() >= 2,
{
    decimal_is_digits(n / 10);
}

/// Different numbers have different decimal numerals.
pub proof fn decimal_injective(a: nat, b: nat)
    requires
        decimal(a) == decimal(b),
    ensures
        a == b,
    decreases a,
{
    decimal_len(a);
    decimal_len(b);
    if a < 10 {
        assert(decimal(a).len() == 1);
        assert(decimal(a)[0] == digit(a));
        assert(decimal(b)[0] == digit(b));
    } else {
        assert(b >= 10) by {
            assert(seq![digit(b)].len() == 1);
        }
        assert(decimal(a).last() == digit(a % 10));
        assert(decimal(b).last() == digit(b % 10));
        assert(decimal(a).drop_last() == decimal(a / 10));
        assert(decimal(b).drop_last() == decimal(b / 10));
        decimal_injective(a / 10, b / 10);
    }
}

/// Whether two strings hold the same characters.
pub fn same_text(a: &str, b: &str) -> (res: bool)
    ensures
        res == (a@ == b@),
{
    let left: String = a.to_owned();
    let right: String = b.to_owned();
    left == right
}

/// The views of a sequence of strings.
pub open spec fn texts(v: Seq<String>) -> Seq<Seq<char>> {
    v.map_values(|s: String| s@)
}

/// The lowercase hexadecimal digit `d`.
pub open spec fn hex_digit(d: nat) -> char {
    if d < 10 {
        (48 + d) as char
    } else {
        (87 + d) as char
    }
}

/// Two lowercase hexadecimal digits for one byte.
pub open spec fn hex_byte(b: u8) -> Seq<char> {
    seq![hex_digit((b / 16) as nat), hex_digit((b % 16) as nat)]
}

/// The lowercase hexadecimal digit `d`.
pub fn hex_digit_char(d: u8) -> (c: char)
    requires
        d < 16,
    ensures
        c == hex_digit(d as nat),
{
    if d < 10 {
        (48 + d) as char
    } else {
        (87 + d) as char
    }
}

/// The bytes as a bracketed list of two-digit hexadecimal numbers, `[01, 0a, ff]`.
pub open spec fn hex_list(data: Seq<u8>) -> Seq<char> {
    seq!['['] + join(Seq::new(data.len(), |i: int| hex_byte(data[i])), seq![',', ' ']) + seq![']']
}

/// Writes bytes as a bracketed list of two-digit hexadecimal numbers.
pub fn hex_list_text(data: &[u8]) -> (res: String)
    ensures
        res@ == hex_list(data@),
{
    let ghost parts = Seq::new(data@.len(), |i: int| hex_byte(data@[i]));
    let mut out = String::new();
    out.push('[');
    let mut i: usize = 0;
    while i < data.len()
        invariant
            0 <= i <= data@.len(),
            parts == Seq::new(data@.len(), |i: int| hex_byte(data@[i])),
            out@ == seq!['['] + join(parts.take(i as int), seq![',', ' ']),
        decreases data@.len() - i,
    {
        if i > 0 {
            out.push(',');
            out.push(' ');
        }
        out.push(hex_digit_char(data[i] / 16));
        out.push(hex_digit_char(data[i] % 16));
        proof {
            assert(parts.take(i + 1).drop_last() == parts.take(i as int));
            assert(parts.take(i + 1).last() == hex_byte(data@[i as int]));
        }
        i = i + 1;
    }
    proof {
        assert(parts.take(i as int) == parts);
    }
    out.push(']');
    out
}

/// `n` copies of `c`.
pub open spec fn repeated(c: char, n: nat) -> Seq<char> {
    Seq::new(n, |i: int| c)
}

/// Appends `n` copies of `c`.
pub fn push_repeated(out: &mut String, c: char, n: usize)
    ensures
        final(out)@ == old(out)@ + repeated(c, n as nat),
{
    let mut i: usize = 0;
    while i < n
        invariant
            0 <= i <= n,
            out@ == old(out)@ + repeated(c, i as nat),
        decreases n - i,
    {
        out.push(c);
        i = i + 1;
    }
}

/// The spaces that `s` lacks to be `width` characters wide.
pub open spec fn fill(s: Seq<char>, width: nat) -> Seq<char> {
    repeated(' ', if s.len() < width { (width - s.len()) as nat } else { 0 })
}

/// `s` at the left of a field of at least `width` characters.
pub open spec fn left_aligned(s: Seq<char>, width: nat) -> Seq<char> {
    s + fill(s, width)
}

/// `s` at the right of a field of at least `width` characters.
pub open spec fn right_aligned(s: Seq<char>, width: nat) -> Seq<char> {
    fill(s, width) + s
}

fn push_fill(out: &mut String, s: &str, width: usize)
    ensures
        final(out)@ == old(out)@ + fill(s@, width as nat),
{
    let n: usize = s.unicode_len();
    if n < width {
        push_repeated(out, ' ', width - n);
    }
}

/// Appends `s` at the left of a field of at least `width` characters.
pub fn push_left_aligned(out: &mut String, s: &str, width: usize)
    ensures
        final(out)@ == old(out)@ + left_aligned(s@, width as nat),
{
    out.append(s);
    push_fill(out, s, width);
}

/// Appends `s` at the right of a field of at least `width` characters.
pub fn push_right_aligned(out: &mut String, s: &str, width: usize)
    ensures
        final(out)@ == old(out)@ + right_aligned(s@, width as nat),
{
    push_fill(out, s, width);
    out.append(s);
}

/// The parts one after the other, with `sep` between neighbours.
pub open spec fn join(parts: Seq<Seq<char>>, sep: Seq<char>) -> Seq<char>
    decreases parts.len(),
{
    if parts.len() == 0 {
        Seq::empty()
    } else if parts.len() == 1 {
        parts[0]
    } else {
        join(parts.drop_last(), sep) + sep + parts.last()
    }
}

/// Joins strings with `sep` between neighbours.
pub fn join_texts(parts: &Vec<String>, sep: &str) -> (res: String)
    ensures
        res@ == join(texts(parts@), sep@),
{
    let ghost all = texts(parts@);
    let mut out = String::new();
    let mut i: usize = 0;
    while i < parts.len()
        invariant
            0 <= i <= parts@.len(),
            all == texts(parts@),
            out@ == join(all.take(i as int), sep@),
        decreases parts@.len() - i,
    {
        if i > 0 {
            out.append(sep);
        }
        out.append(parts[i].as_str());
        proof {
            assert(all.take(i + 1).drop_last() == all.take(i as int));
            assert(all.take(i + 1).last() == parts@[i as int]@);
        }
        i = i + 1;
    }
    proof {
        assert(all.take(i as int) == all);
    }
    out
}

/// The pieces of `s` between occurrences of `sep`.
pub open spec fn split(s: Seq<char>, sep: char) -> Seq<Seq<char>>
    decreases s.len(),
{
    if s.len() == 0 {
        seq![Seq::empty()]
    } else {
        let before = split(s.drop_last(), sep);
        if s.last() == sep {
            before.push(Seq::empty())
        } else {
            before.drop_last().push(before.last().push(s.last()))
        }
    }
}

/// Splitting loses nothing: joined again with the separator, the pieces are the string,
/// and no piece holds the separator.
pub proof fn split_then_join(s: Seq<char>, sep: char)
    ensures
        join(split(s, sep), seq![sep]) == s,
        split(s, sep).len() >= 1,
        forall|i: int| 0 <= i < split(s, sep).len() ==> !(#[trigger] split(s, sep)[i]).contains(sep),
    decreases s.len(),
{
    if s.len() > 0 {
        let init = s.drop_last();
        let before = split(init, sep);
        let parts = split(s, sep);
        split_then_join(init, sep);
        assert(s == init.push(s.last()));
        if s.last() == sep {
            assert(parts.drop_last() == before);
            assert(join(parts, seq![sep]) == s);
            assert forall|i: int| 0 <= i < parts.len() implies !(#[trigger] parts[i]).contains(
                sep,
            ) by {
                if i < before.len() {
                    assert(parts[i] == before[i]);
                }
            }
        } else {
            assert(parts.drop_last() == before.drop_last());
            assert(parts.last() == before.last().push(s.last()));
            if before.len() == 1 {
                assert(join(before, seq![sep]) == before[0]);
                assert(join(parts, seq![sep]) == parts[0]);
            } else {
                assert(join(parts, seq![sep]) == s);
            }
            assert forall|i: int| 0 <= i < parts.len() implies !(#[trigger] parts[i]).contains(
                sep,
            ) by {
                if i < before.len() - 1 {
                    assert(parts[i] == before[i]);
                } else {
                    let old_last = before[before.len() - 1];
                    assert(parts[i] == old_last.push(s.last()));
                    assert(!old_last.contains(sep));
                    if parts[i].contains(sep) {
                        let k = choose|k: int| 0 <= k < parts[i].len() && parts[i][k] == sep;
                        assert(old_last[k] == sep);
                    }
                }
            }
        }
    } else {
        assert(split(s, sep)[0] == Seq::<char>::empty());
    }
}

proof fn split_append(a: Seq<char>, t: Seq<char>, sep: char)
    requires
        !t.contains(sep),
    ensures
        split(a + t, sep) == split(a, sep).drop_last().push(split(a, sep).last() + t),
    decreases t.len(),
{
    split_then_join(a, sep);
    let before = split(a, sep);
    if t.len() == 0 {
        assert(a + t == a);
        assert(before.last() + t == before.last());
        assert(before.drop_last().push(before.last()) == before);
    } else {
        let init = t.drop_last();
        assert(!init.contains(sep)) by {
            if init.contains(sep) {
                let k = choose|k: int| 0 <= k < init.len() && init[k] == sep;
                assert(t[k] == sep);
            }
        }
        split_append(a, init, sep);
        assert((a + t).drop_last() == a + init);
        assert((a + t).last() == t.last());
        assert(t.contains(t.last()));
        let mid = before.drop_last().push(before.last() + init);
        assert(mid.drop_last() == before.drop_last());
        assert(mid.last().push(t.last()) == before.last() + t);
    }
}

/// Joining loses nothing: pieces without the separator come back when their join is split.
pub proof fn join_then_split(parts: Seq<Seq<char>>, sep: char)
    requires
        parts.len() >= 1,
        forall|i: int| 0 <= i < parts.len() ==> !(#[trigger] parts[i]).contains(sep),
    ensures
        split(join(parts, seq![sep]), sep) == parts,
    decreases parts.len(),
{
    let empty = Seq::<char>::empty();
    if parts.len() == 1 {
        split_append(empty, parts[0], sep);
        assert(empty + parts[0] == parts[0]);
        assert(split(empty, sep) == seq![empty]);
        assert(split(parts[0], sep) == parts);
    } else {
        let init = parts.drop_last();
        let a = join(init, seq![sep]);
        assert forall|i: int| 0 <= i < init.len() implies !(#[trigger] init[i]).contains(sep) by {
            assert(init[i] == parts[i]);
        }
        join_then_split(init, sep);
        assert((a + seq![sep]).drop_last() == a);
        assert(split(a + seq![sep], sep) == init.push(empty));
        assert(!parts.last().contains(sep)) by {
            assert(parts.last() == parts[parts.len() - 1]);
        }
        split_append(a + seq![sep], parts.last(), sep);
        assert(init.push(empty).drop_last() == init);
        assert(empty + parts.last() == parts.last());
        assert(init.push(parts.last()) == parts);
    }
}

/// Two texts with a separator between them split into the pieces of the one, then those of the
/// other.
pub proof fn split_concat(a: Seq<char>, b: Seq<char>, sep: char)
    ensures
        split(a + seq![sep] + b, sep) == split(a, sep) + split(b, sep),
    decreases b.len(),
{
    let empty = Seq::<char>::empty();
    let all = a + seq![sep] + b;
    if b.len() == 0 {
        assert(all.drop_last() == a);
        assert(split(b, sep) == seq![empty]);
        assert(split(all, sep) == split(a, sep) + split(b, sep));
    } else {
        let init = b.drop_last();
        split_concat(a, init, sep);
        split_then_join(init, sep);
        assert(all.drop_last() == a + seq![sep] + init);
        assert(all.last() == b.last());
        let before = split(a, sep) + split(init, sep);
        if b.last() != sep {
            assert(before.drop_last() == split(a, sep) + split(init, sep).drop_last());
            assert(before.last() == split(init, sep).last());
        }
        assert(split(all, sep) == split(a, sep) + split(b, sep));
    }
}

/// Splits a string at every `sep`.
pub fn split_text(s: &str, sep: char) -> (res: Vec<String>)
    ensures
        texts(res@) == split(s@, sep),
{
    let chars = chars_of(s);
    let mut done: Vec<String> = Vec::new();
    let mut current = String::new();
    let mut i: usize = 0;
    while i < chars.len()
        invariant
            0 <= i <= chars@.len(),
            chars@ == s@,
            texts(done@).push(current@) == split(s@.take(i as int), sep),
        decreases chars@.len() - i,
    {
        let c = chars[i];
        proof {
            assert(s@.take(i + 1).drop_last() == s@.take(i as int));
            assert(s@.take(i + 1).last() == c);
            assert(texts(done@).push(current@).drop_last() == texts(done@));
        }
        if c == sep {
            let ghost before = done@;
            done.push(current);
            assert(texts(done@) == texts(before).push(done@.last()@));
            current = String::new();
        } else {
            current.push(c);
        }
        i = i + 1;
    }
    proof {
        assert(s@.take(i as int) == s@);
    }
    let ghost before = done@;
    done.push(current);
    assert(texts(done@) == texts(before).push(done@.last()@));
    done
}

/// Whether `needle` occurs in `hay`.
pub open spec fn occurs(needle: Seq<char>, hay: Seq<char>) -> bool {
    exists|i: int|
        0 <= i <= hay.len() - needle.len() && #[trigger] hay.subrange(i, i + needle.len())
            == needle
}

fn occurs_at(needle: &Vec<char>, hay: &Vec<char>, at: usize) -> (res: bool)
    requires
        at + needle@.len() <= hay@.len(),
    ensures
        res == (hay@.subrange(at as int, at + needle@.len()) == needle@),
{
    let hay_len: usize = hay.len();
    let mut k: usize = 0;
    while k < needle.len()
        invariant
            at + needle@.len() <= hay@.len() == hay_len,
            0 <= k <= needle@.len(),
            forall|j: int| 0 <= j < k ==> hay@[at + j] == needle@[j],
        decreases needle@.len() - k,
    {
        if hay[at + k] != needle[k] {
            assert(hay@.subrange(at as int, at + needle@.len())[k as int] != needle@[k as int]);
            return false;
        }
        k = k + 1;
    }
    assert(hay@.subrange(at as int, at + needle@.len()) == needle@);
    true
}

/// Whether `needle` occurs in `hay`.
pub fn contains_text(hay: &str, needle: &str) -> (res: bool)
    ensures
        res == occurs(needle@, hay@),
{
    let h = chars_of(hay);
    let n = chars_of(needle);
    if n.len() > h.len() {
        return false;
    }
    let last: usize = h.len() - n.len();
    let mut i: usize = 0;
    while i <= last
        invariant
            h@ == hay@,
            n@ == needle@,
            last == h@.len() - n@.len(),
            0 <= i <= last + 1,
            forall|j: int| 0 <= j < i ==> #[trigger] h@.subrange(j, j + n@.len()) != n@,
        decreases last + 1 - i,
    {
        if occurs_at(&n, &h, i) {
            return true;
        }
        if i == last {
            return false;
        }
        i = i + 1;
    }
    false
}

/// Whether the first character of `s` is `c`.
pub open spec fn begins_with(s: Seq<char>, c: char) -> bool {
    s.len() > 0 && s[0] == c
}

/// Whether the first character of `s` is `c`.
pub fn begins_with_char(s: &str, c: char) -> (res: bool)
    ensures
        res == begins_with(s@, c),
{
    if s.unicode_len() == 0 {
        false
    } else {
        s.get_char(0) == c
    }
}

/// `s` without the NUL characters at its end.
pub open spec fn without_end_nuls(s: Seq<char>) -> Seq<char>
    decreases s.len(),
{
    if s.len() > 0 && s.last() == '\0' {
        without_end_nuls(s.drop_last())
    } else {
        s
    }
}

/// Removes the NUL characters at the end of a string.
pub fn trim_end_nuls(s: &str) -> (res: String)
    ensures
        res@ == without_end_nuls(s@),
{
    let chars = chars_of(s);
    let mut end: usize = chars.len();
    assert(s@.take(end as int) == s@);
    while end > 0 && chars[end - 1] == '\0'
        invariant
            0 <= end <= chars@.len(),
            chars@ == s@,
            without_end_nuls(s@) == without_end_nuls(s@.take(end as int)),
        decreases end,
    {
        proof {
            assert(s@.take(end as int).drop_last() == s@.take(end - 1));
        }
        end = end - 1;
    }
    let mut out = String::new();
    push_chars(&mut out, &chars, 0, end);
    out
}

/// The characters with the Unicode property `White_Space`.
pub open spec fn is_white_space(c: char) -> bool {
    ||| '\u{9}' <= c <= '\u{d}'
    ||| c == ' '
    ||| c == '\u{85}'
    ||| c == '\u{a0}'
    ||| c == '\u{1680}'
    ||| '\u{2000}' <= c <= '\u{200a}'
    ||| c == '\u{2028}'
    ||| c == '\u{2029}'
    ||| c == '\u{202f}'
    ||| c == '\u{205f}'
    ||| c == '\u{3000}'
}

/// `s` without the white space at its start.
pub open spec fn without_start_space(s: Seq<char>) -> Seq<char>
    decreases s.len(),
{
    if s.len() > 0 && is_white_space(s[0]) {
        without_start_space(s.drop_first())
    } else {
        s
    }
}

/// `s` without the white space at its end.
pub open spec fn without_end_space(s: Seq<char>) -> Seq<char>
    decreases s.len(),
{
    if s.len() > 0 && is_white_space(s.last()) {
        without_end_space(s.drop_last())
    } else {
        s
    }
}

/// `s` without the white space at both ends.
pub open spec fn trimmed(s: Seq<char>) -> Seq<char> {
    without_end_space(without_start_space(s))
}

fn white_space(c: char) -> (res: bool)
    ensures
        res == is_white_space(c),
{
    '\u{9}' <= c && c <= '\u{d}' || c == ' ' || c == '\u{85}' || c == '\u{a0}' || c == '\u{1680}'
        || '\u{2000}' <= c && c <= '\u{200a}' || c == '\u{2028}' || c == '\u{2029}' || c
        == '\u{202f}' || c == '\u{205f}' || c == '\u{3000}'
}

/// Removes the white space at both ends of a string.
pub fn trim(s: &str) -> (res: String)
    ensures
        res@ == trimmed(s@),
{
    let chars = chars_of(s);
    let len: usize = chars.len();
    let mut start: usize = 0;
    assert(s@.skip(0) == s@);
    while start < len && white_space(chars[start])
        invariant
            0 <= start <= len == chars@.len(),
            chars@ == s@,
            without_start_space(s@) == without_start_space(s@.skip(start as int)),
        decreases len - start,
    {
        assert(s@.skip(start as int).drop_first() == s@.skip(start + 1));
        start = start + 1;
    }
    let ghost rest = s@.skip(start as int);
    assert(without_start_space(s@) == rest);
    let mut end: usize = len;
    assert(s@.subrange(start as int, end as int) == rest);
    while end > start && white_space(chars[end - 1])
        invariant
            0 <= start <= end <= len == chars@.len(),
            chars@ == s@,
            without_end_space(rest) == without_end_space(s@.subrange(start as int, end as int)),
        decreases end - start,
    {
        assert(s@.subrange(start as int, end as int).drop_last() == s@.subrange(
            start as int,
            end - 1,
        ));
        end = end - 1;
    }
    assert(without_end_space(rest) == s@.subrange(start as int, end as int));
    let mut out = String::new();
    push_chars(&mut out, &chars, start, end);
    out
}

/// Whether all characters are ASCII.
pub open spec fn is_ascii_text(s: Seq<char>) -> bool {
    forall|i: int| 0 <= i < s.len() ==> #[trigger] s[i] <= '\u{7f}'
}

/// An ASCII letter in lowercase, any other character as it is.
pub open spec fn ascii_lower(c: char) -> char {
    if 'A' <= c <= 'Z' {
        (c as u32 + 32) as char
    } else {
        c
    }
}

/// A text with its ASCII letters in lowercase.
pub open spec fn ascii_lowered(s: Seq<char>) -> Seq<char> {
    s.map_values(|c: char| ascii_lower(c))
}

/// The lowercase form of a text, as `str::to_lowercase` gives it.
pub uninterp spec fn lowercase(s: Seq<char>) -> Seq<char>;

/// `str::to_lowercase` maps a text to its Unicode lowercase form, which depends on the text
/// alone. In an ASCII text the letters `A` to `Z` become `a` to `z` and nothing else changes;
/// which characters the form of any other text holds is not stated.
#[verifier::external_body]
pub(crate) fn to_lowercase(s: &str) -> (res: String)
    ensures
        res@ == lowercase(s@),
        is_ascii_text(s@) ==> res@ == ascii_lowered(s@),
{
    s.to_lowercase()
}

/// The text that `String::from_utf8_lossy` reads from a byte sequence.
pub uninterp spec fn utf8_lossy(data: Seq<u8>) -> Seq<char>;

/// `String::from_utf8_lossy` decodes valid UTF-8 as it stands, and puts U+FFFD in the place of
/// what is invalid. How much of invalid bytes one such character stands for depends on the bytes
/// alone; it is not stated further.
#[verifier::external_body]
pub(crate) fn from_utf8_lossy(data: &[u8]) -> (res: String)
    ensures
        res@ == utf8_lossy(data@),
        valid_utf8(data@) ==> res@ == decode_utf8(data@),
        !valid_utf8(data@) ==> res@.contains('\u{fffd}'),
{
    String::from_utf8_lossy(data).into_owned()
}

/// Whether a text is a decimal numeral: digits, at least one, and no zero in front of others.
pub open spec fn is_numeral(s: Seq<char>) -> bool {
    &&& s.len() >= 1
    &&& forall|i: int| 0 <= i < s.len() ==> '0' <= #[trigger] s[i] <= '9'
    &&& s.len() > 1 ==> s[0] != '0'
}

/// The number that decimal digits stand for.
pub open spec fn numeral_value(s: Seq<char>) -> int
    decreases s.len(),
{
    if s.len() == 0 {
        0
    } else {
        10 * numeral_value(s.drop_last()) + (s.last() as int - '0' as int)
    }
}

/// The number that a numeral stands for which may have a minus sign in front.
pub open spec fn signed_value(s: Seq<char>) -> int {
    if begins_with(s, '-') {
        -numeral_value(s.drop_first())
    } else {
        numeral_value(s)
    }
}

/// Every number is read back from its decimal numeral.
pub proof fn decimal_reads_back(n: nat)
    ensures
        is_numeral(decimal(n)),
        numeral_value(decimal(n)) == n,
        n > 0 ==> decimal(n)[0] != '0',
    decreases n,
{
    decimal_is_digits(n);
    if n < 10 {
        let s = decimal(n);
        assert(s.len() == 1);
        assert(s.drop_last() =~= Seq::<char>::empty());
        assert(numeral_value(s.drop_last()) == 0);
    } else {
        decimal_reads_back(n / 10);
        decimal_is_digits(n / 10);
        assert(decimal(n).drop_last() =~= decimal(n / 10));
        assert(decimal(n)[0] == decimal(n / 10)[0]);
    }
}

/// Every number is read back from its signed numeral.
pub proof fn signed_decimal_reads_back(v: int)
    ensures
        signed_value(signed_decimal(v)) == v,
        begins_with(signed_decimal(v), '-') <==> v < 0,
        is_numeral(signed_decimal(v)) <==> v >= 0,
{
    if v < 0 {
        decimal_reads_back((-v) as nat);
        assert(signed_decimal(v)[0] == '-');
        assert(signed_decimal(v).drop_first() =~= decimal((-v) as nat));
    } else {
        decimal_reads_back(v as nat);
    }
}

proof fn hex_byte_reads_back(b: u8)
    ensures
        hex_byte(b).len() == 2,
        hex_value(hex_byte(b)[0]) == Some((b / 16) as int),
        hex_value(hex_byte(b)[1]) == Some((b % 16) as int),
{
}

proof fn hex_join(data: Seq<u8>, i: int)
    requires
        0 <= i < data.len(),
    ensures
        ({
            let parts = Seq::new(data.len(), |i: int| hex_byte(data[i]));
            let joined = join(parts, seq![',', ' ']);
            &&& joined.len() == 4 * data.len() - 2
            &&& joined[4 * i] == hex_byte(data[i])[0]
            &&& joined[4 * i + 1] == hex_byte(data[i])[1]
            &&& i > 0 ==> joined[4 * i - 2] == ',' && joined[4 * i - 1] == ' '
        }),
    decreases data.len(),
{
    let parts = Seq::new(data.len(), |i: int| hex_byte(data[i]));
    hex_byte_reads_back(data[i]);
    if data.len() == 1 {
        assert(join(parts, seq![',', ' ']) == hex_byte(data[0]));
    } else {
        let init = data.drop_last();
        let before = Seq::new(init.len(), |i: int| hex_byte(init[i]));
        assert(parts.drop_last() =~= before);
        assert(parts.last() == hex_byte(data.last()));
        hex_byte_reads_back(data.last());
        if i < init.len() {
            hex_join(init, i);
        } else {
            hex_join(init, 0);
        }
    }
}

/// Every byte is read back from its place in a hexadecimal list.
pub proof fn hex_list_reads_back(data: Seq<u8>, i: int)
    ensures
        data.len() == 0 ==> hex_list(data) == seq!['[', ']'],
        data.len() > 0 ==> hex_list(data).len() == 4 * data.len(),
        0 <= i < data.len() ==> {
            let list = hex_list(data);
            &&& list[4 * i] == if i == 0 {
                '['
            } else {
                ' '
            }
            &&& hex_value(list[4 * i + 1]) is Some
            &&& hex_value(list[4 * i + 2]) is Some
            &&& 16 * hex_value(list[4 * i + 1])->0 + hex_value(list[4 * i + 2])->0 == data[i]
            &&& list[4 * i + 3] == if i == data.len() - 1 {
                ']'
            } else {
                ','
            }
        },
{
    let list = hex_list(data);
    let parts = Seq::new(data.len(), |i: int| hex_byte(data[i]));
    let joined = join(parts, seq![',', ' ']);
    assert(list == seq!['['] + joined + seq![']']);
    if data.len() == 0 {
        assert(list =~= seq!['[', ']']);
    } else {
        hex_join(data, 0);
        if 0 <= i < data.len() {
            hex_join(data, i);
            hex_byte_reads_back(data[i]);
            assert(list[4 * i + 1] == joined[4 * i]);
            assert(list[4 * i + 2] == joined[4 * i + 1]);
            if i > 0 {
                assert(list[4 * i] == joined[4 * i - 1]);
            }
            if i < data.len() - 1 {
                hex_join(data, i + 1);
                assert(list[4 * i + 3] == joined[4 * (i + 1) - 2]);
            }
        }
    }
}

/// Whether a text is made of spaces alone.
pub open spec fn is_blank(s: Seq<char>) -> bool {
    forall|i: int| 0 <= i < s.len() ==> #[trigger] s[i] == ' '
}

/// An aligned text is the text with spaces on one side: as many as it lacks, and none of its
/// characters is lost where it is too long.
pub proof fn aligned_texts(s: Seq<char>, width: nat)
    ensures
        left_aligned(s, width).take(s.len() as int) == s,
        is_blank(left_aligned(s, width).skip(s.len() as int)),
        right_aligned(s, width).skip(right_aligned(s, width).len() - s.len()) == s,
        is_blank(right_aligned(s, width).take(right_aligned(s, width).len() - s.len())),
        s.len() >= width ==> left_aligned(s, width) == s && right_aligned(s, width) == s,
        s.len() < width ==> left_aligned(s, width).len() == width && right_aligned(s, width).len()
            == width,
{
    assert(left_aligned(s, width).take(s.len() as int) =~= s);
    assert(right_aligned(s, width).skip(right_aligned(s, width).len() - s.len()) =~= s);
    if s.len() >= width {
        assert(left_aligned(s, width) =~= s);
        assert(right_aligned(s, width) =~= s);
    }
}

/// A text occurs in another one if and only if that one is the text with something before and
/// something behind it.
pub proof fn occurs_between(needle: Seq<char>, hay: Seq<char>)
    ensures
        occurs(needle, hay) <==> exists|before: Seq<char>, after: Seq<char>|
            hay == #[trigger] (before + needle + after),
{
    if occurs(needle, hay) {
        let i = choose|i: int|
            0 <= i <= hay.len() - needle.len() && #[trigger] hay.subrange(i, i + needle.len())
                == needle;
        let before = hay.take(i);
        let after = hay.skip(i + needle.len());
        assert(hay =~= before + needle + after);
    }
    if exists|before: Seq<char>, after: Seq<char>| hay == #[trigger] (before + needle + after) {
        let (before, after) = choose|before: Seq<char>, after: Seq<char>|
            hay == #[trigger] (before + needle + after);
        let i = before.len() as int;
        assert(hay.subrange(i, i + needle.len()) =~= needle);
    }
}

/// A text begins with a character if and only if it is that character and something behind it.
pub proof fn begins_with_first(s: Seq<char>, c: char)
    ensures
        begins_with(s, c) <==> exists|rest: Seq<char>| s == #[trigger] (seq![c] + rest),
{
    if begins_with(s, c) {
        assert(s =~= seq![c] + s.drop_first());
    }
}

/// A text is what is left without the NULs at its end, then NULs; what is left does not end in
/// one.
pub proof fn end_nuls_are_split_off(s: Seq<char>)
    ensures
        without_end_nuls(s).len() <= s.len(),
        s.take(without_end_nuls(s).len() as int) == without_end_nuls(s),
        forall|i: int| without_end_nuls(s).len() <= i < s.len() ==> s[i] == '\0',
        without_end_nuls(s).len() > 0 ==> without_end_nuls(s).last() != '\0',
    decreases s.len(),
{
    if s.len() > 0 && s.last() == '\0' {
        let init = s.drop_last();
        let kept = without_end_nuls(init);
        end_nuls_are_split_off(init);
        assert(s.take(kept.len() as int) =~= init.take(kept.len() as int));
        assert forall|i: int| kept.len() <= i < s.len() implies s[i] == '\0' by {
            if i < init.len() {
                assert(init[i] == s[i]);
            }
        }
    } else {
        assert(s.take(s.len() as int) =~= s);
    }
}

proof fn start_space_is_split_off(s: Seq<char>)
    ensures
        without_start_space(s).len() <= s.len(),
        s.skip(s.len() - without_start_space(s).len()) == without_start_space(s),
        forall|i: int|
            0 <= i < s.len() - without_start_space(s).len() ==> is_white_space(#[trigger] s[i]),
        without_start_space(s).len() > 0 ==> !is_white_space(without_start_space(s)[0]),
    decreases s.len(),
{
    if s.len() > 0 && is_white_space(s[0]) {
        let tail = s.drop_first();
        let kept = without_start_space(tail);
        start_space_is_split_off(tail);
        assert(s.skip(s.len() - kept.len()) =~= tail.skip(tail.len() - kept.len()));
        assert forall|i: int| 0 <= i < s.len() - kept.len() implies is_white_space(
            #[trigger] s[i],
        ) by {
            if i > 0 {
                assert(is_white_space(tail[i - 1]));
            }
        }
    } else {
        assert(s.skip(0) =~= s);
    }
}

proof fn end_space_is_split_off(s: Seq<char>)
    ensures
        without_end_space(s).len() <= s.len(),
        s.take(without_end_space(s).len() as int) == without_end_space(s),
        forall|i: int|
            without_end_space(s).len() <= i < s.len() ==> is_white_space(#[trigger] s[i]),
        without_end_space(s).len() > 0 ==> !is_white_space(without_end_space(s).last()),
    decreases s.len(),
{
    if s.len() > 0 && is_white_space(s.last()) {
        let init = s.drop_last();
        let kept = without_end_space(init);
        end_space_is_split_off(init);
        assert(s.take(kept.len() as int) =~= init.take(kept.len() as int));
        assert forall|i: int| kept.len() <= i < s.len() implies is_white_space(#[trigger] s[i]) by {
            if i < init.len() {
                assert(init[i] == s[i]);
            }
        }
    } else {
        assert(s.take(s.len() as int) =~= s);
    }
}

/// A text is white space, then the trimmed text, then white space, and the trimmed text neither
/// starts nor ends with any.
pub proof fn trimmed_is_between_white_space(s: Seq<char>) -> (start: int)
    ensures
        0 <= start <= start + trimmed(s).len() <= s.len(),
        s.subrange(start, start + trimmed(s).len()) == trimmed(s),
        forall|i: int| 0 <= i < start ==> is_white_space(#[trigger] s[i]),
        forall|i: int|
            start + trimmed(s).len() <= i < s.len() ==> is_white_space(#[trigger] s[i]),
        trimmed(s).len() > 0 ==> !is_white_space(trimmed(s)[0]) && !is_white_space(
            trimmed(s).last(),
        ),
{
    let rest = without_start_space(s);
    let start = s.len() - rest.len();
    start_space_is_split_off(s);
    end_space_is_split_off(rest);
    let kept = trimmed(s);
    assert(s.subrange(start, start + kept.len()) =~= rest.take(kept.len() as int));
    assert forall|i: int| start + kept.len() <= i < s.len() implies is_white_space(
        #[trigger] s[i],
    ) by {
        assert(rest[i - start] == s[i]);
    }
    if kept.len() > 0 {
        assert(kept[0] == rest[0]);
    }
    start
}

/// A text without white space at its ends is trimmed as it is.
pub proof fn trimmed_keeps(s: Seq<char>)
    requires
        s.len() > 0 ==> !is_white_space(s[0]) && !is_white_space(s.last()),
    ensures
        trimmed(s) == s,
{
}

/// Space, tab, line ends and the other white space of Unicode: there is none among the visible
/// characters of ASCII, none among letters and digits, and none above U+3000.
pub proof fn white_space_is_rare(c: char)
    ensures
        is_white_space(c) ==> c <= '\u{3000}' && !('\u{21}' <= c <= '\u{84}') && !('\u{a1}' <= c
            <= '\u{167f}') && !('\u{1681}' <= c <= '\u{1fff}') && !('\u{2060}' <= c <= '\u{2fff}'),
        c == ' ' || c == '\t' || c == '\n' || c == '\r' || c == '\u{a0}' || c == '\u{3000}'
            ==> is_white_space(c),
{
}

/// Lowercase changes ASCII capitals, by the distance of the two alphabets, and nothing else.
pub proof fn lowered_letters(s: Seq<char>, i: int)
    requires
        0 <= i < s.len(),
    ensures
        ascii_lowered(s).len() == s.len(),
        'A' <= s[i] <= 'Z' ==> 'a' <= ascii_lowered(s)[i] <= 'z' && ascii_lowered(s)[i] as int
            - s[i] as int == 'a' as int - 'A' as int,
        !('A' <= s[i] <= 'Z') ==> ascii_lowered(s)[i] == s[i],
{
    lowered_letter(s[i]);
}

proof fn lowered_letter(c: char)
    ensures
        'A' <= c <= 'Z' ==> 'a' <= ascii_lower(c) <= 'z' && ascii_lower(c) as int - c as int == 'a'
            as int - 'A' as int,
        !('A' <= c <= 'Z') ==> ascii_lower(c) == c,
{
}

/// The characters behind the last space of a text.
pub open spec fn last_field(s: Seq<char>) -> Seq<char>
    decreases s.len(),
{
    if s.len() == 0 || s.last() == ' ' {
        Seq::empty()
    } else {
        last_field(s.drop_last()).push(s.last())
    }
}

/// A text without the spaces at its end.
pub open spec fn without_end_blanks(s: Seq<char>) -> Seq<char>
    decreases s.len(),
{
    if s.len() > 0 && s.last() == ' ' {
        without_end_blanks(s.drop_last())
    } else {
        s
    }
}

/// A text without its last field and the spaces before that.
pub open spec fn before_last_field(s: Seq<char>) -> Seq<char> {
    without_end_blanks(s.take(s.len() - last_field(s).len()))
}

proof fn field_behind_space(a: Seq<char>, x: Seq<char>)
    requires
        a.len() > 0 ==> a.last() == ' ',
        !x.contains(' '),
    ensures
        last_field(a + x) == x,
        (a + x).take((a + x).len() - x.len()) == a,
    decreases x.len(),
{
    let all = a + x;
    assert(all.take(all.len() - x.len()) =~= a);
    if x.len() == 0 {
        assert(all =~= a);
        assert(last_field(a) =~= x);
    } else {
        let init = x.drop_last();
        assert(x.contains(x.last()));
        assert(!init.contains(' ')) by {
            if init.contains(' ') {
                let k = choose|k: int| 0 <= k < init.len() && init[k] == ' ';
                assert(x[k] == ' ');
            }
        }
        field_behind_space(a, init);
        assert(all.drop_last() =~= a + init);
        assert(last_field(all) =~= x);
    }
}

/// Spaces at the end make no difference to a text without them.
pub proof fn blanks_at_end(a: Seq<char>, n: nat)
    ensures
        without_end_blanks(a + repeated(' ', n)) == without_end_blanks(a),
    decreases n,
{
    let all = a + repeated(' ', n);
    if n == 0 {
        assert(all =~= a);
    } else {
        blanks_at_end(a, (n - 1) as nat);
        assert(all.last() == ' ');
        assert(all.drop_last() =~= a + repeated(' ', (n - 1) as nat));
    }
}

/// A right-aligned field behind a space is read back, and so is what stands before it.
pub proof fn right_aligned_reads_back(a: Seq<char>, x: Seq<char>, width: nat)
    requires
        !x.contains(' '),
    ensures
        last_field(a + seq![' '] + right_aligned(x, width)) == x,
        before_last_field(a + seq![' '] + right_aligned(x, width)) == without_end_blanks(a),
{
    let blanks = fill(x, width);
    let n = 1 + blanks.len();
    let lead = a + repeated(' ', n);
    let all = a + seq![' '] + right_aligned(x, width);
    assert(all =~= lead + x);
    assert(lead.last() == ' ');
    field_behind_space(lead, x);
    blanks_at_end(a, n);
}

/// A numeral holds no space.
pub proof fn numeral_without_space(s: Seq<char>)
    requires
        is_numeral(s),
    ensures
        !s.contains(' '),
        !s.contains(','),
        !s.contains('-'),
{
}

/// The spaces between a text and the next field, for a field of `width` characters: at least
/// one.
pub open spec fn gap(len: nat, width: nat) -> Seq<char> {
    repeated(' ', if len < width { (width - len + 1) as nat } else { 1 })
}

/// A left-aligned text and a space behind it are the text and a gap.
pub proof fn left_aligned_gap(s: Seq<char>, width: nat)
    ensures
        left_aligned(s, width) + seq![' '] == s + gap(s.len(), width),
{
    assert(left_aligned(s, width) + seq![' '] =~= s + gap(s.len(), width));
}

/// Parts are joined one after the other: one more part follows behind a separator.
pub proof fn joined_one_by_one(parts: Seq<Seq<char>>, part: Seq<char>, sep: Seq<char>)
    ensures
        join(Seq::empty(), sep) == Seq::<char>::empty(),
        join(seq![part], sep) == part,
        parts.len() > 0 ==> join(parts.push(part), sep) == join(parts, sep) + sep + part,
{
    assert(parts.push(part).drop_last() =~= parts);
}

/// Strings are seen one by one.
pub proof fn texts_one_by_one(v: Seq<String>, i: int)
    requires
        0 <= i < v.len(),
    ensures
        texts(v).len() == v.len(),
        texts(v)[i] == v[i]@,
{
}

} // verus!
