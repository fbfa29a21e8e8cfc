//! Text: numbers in decimal and hexadecimal, splitting, and UTF-16.
//!
//! Text is handled as sequences of characters; the functions here are what the
//! parsers and the error messages are written in.

use vstd::prelude::*;
use crate::bytes;
use crate::bytes::read_u16;

verus! {

/// `String::push`: appends one character at the end.
pub assume_specification[ String::push ](s: &mut String, c: char)
    ensures
        final(s)@ == old(s)@.push(c),
;

/// The digit character of a value below sixteen.
pub open spec fn digit_char(d: nat) -> char {
    if d < 10 {
        (('0' as int) + d) as char
    } else {
        (('a' as int) + (d - 10)) as char
    }
}

/// `n` in the given base, without leading zeros.
pub open spec fn digits(n: nat, base: nat) -> Seq<char>
    decreases n,
{
    if base < 2 || n < base {
        seq![digit_char(n)]
    } else {
        proof {
            assert(n / base < n) by (nonlinear_arith)
                requires
                    n >= base >= 2,
            ;
        }
        digits(n / base, base).push(digit_char(n % base))
    }
}

/// `n` in decimal.
pub open spec fn decimal(n: nat) -> Seq<char> {
    digits(n, 10)
}

/// `n` in lower-case hexadecimal behind `0x`.
pub open spec fn hexadecimal(n: nat) -> Seq<char> {
    seq!['0', 'x'] + digits(n, 16)
}

fn push_digits(out: &mut String, n: u64, base: u64)
    requires
        base == 10 || base == 16,
    ensures
        final(out)@ == old(out)@ + digits(n as nat, base as nat),
    decreases n,
{
    let d: u8 = (n % base) as u8;
    let c: char = if d < 10 {
        (48u8 + d) as char
    } else {
        (97u8 + (d - 10)) as char
    };
    if n >= base {
        push_digits(out, n / base, base);
    }
    out.push(c);
    assert(out@ =~= old(out)@ + digits(n as nat, base as nat));
}

/// Appends `n` in decimal.
pub fn push_decimal(out: &mut String, n: u64)
    ensures
        final(out)@ == old(out)@ + decimal(n as nat),
{
    push_digits(out, n, 10);
}

/// Appends `n` in hexadecimal, behind `0x`.
pub fn push_hexadecimal(out: &mut String, n: u64)
    ensures
        final(out)@ == old(out)@ + hexadecimal(n as nat),
{
    out.push('0');
    out.push('x');
    push_digits(out, n, 16);
    assert(out@ =~= old(out)@ + hexadecimal(n as nat));
}

/// The characters of a string.
pub fn chars_of(text: &str) -> (r: Vec<char>)
    ensures
        r@ == text@,
{
    let mut out: Vec<char> = Vec::new();
    for c in iter: text.chars()
        invariant
            iter.seq() == text@,
            out@ == text@.take(iter.index() as int),
    {
        out.push(c);
        assert(out@ =~= text@.take(iter.index() + 1));
    }
    assert(out@ =~= text@);
    out
}

/// The string of a run of characters.
pub fn string_of(chars: &Vec<char>) -> (r: String)
    ensures
        r@ == chars@,
{
    let mut out: String = String::new();
    let mut i: usize = 0;
    while i < chars.len()
        invariant
            i <= chars@.len(),
            out@ == chars@.take(i as int),
        decreases chars@.len() - i,
    {
        out.push(chars[i]);
        i += 1;
        assert(out@ =~= chars@.take(i as int));
    }
    assert(out@ =~= chars@);
    out
}

/// Whether two strings hold the same characters.
pub fn same_text(a: &str, b: &str) -> (r: bool)
    ensures
        r == (a@ == b@),
{
    a.to_owned() == b.to_owned()
}

/// Whether a run of characters spells `word`.
pub fn spells(chars: &Vec<char>, word: &str) -> (r: bool)
    ensures
        r == (chars@ == word@),
{
    same_text(string_of(chars).as_str(), word)
}

/// `char::from_u32`: the character with that code point, for every code point
/// that is a Unicode scalar value.
pub assume_specification[ char::from_u32 ](i: u32) -> (r: Option<char>)
    ensures
        r == if i < 0xD800 || 0xE000 <= i <= 0x10FFFF {
            Some(i as char)
        } else {
            None
        },
;

/// The characters of UTF-16LE data. Unpaired surrogates and an odd last byte
/// are left out.
pub open spec fn utf16_text(raw: Seq<u8>) -> Seq<char>
    decreases raw.len(),
{
    if raw.len() < 2 {
        Seq::empty()
    } else {
        let unit = bytes::le16(raw, 0);
        if unit < 0xD800 || 0xE000 <= unit {
            seq![unit as char] + utf16_text(raw.skip(2))
        } else if unit < 0xDC00 && raw.len() >= 4 && 0xDC00 <= bytes::le16(raw, 2) < 0xE000 {
            seq![(0x1_0000 + (unit - 0xD800) * 0x400 + (bytes::le16(raw, 2) - 0xDC00)) as char]
                + utf16_text(raw.skip(4))
        } else {
            utf16_text(raw.skip(2))
        }
    }
}

/// Decodes UTF-16LE data, leaving out what is no character.
pub fn decode_utf16(raw: &[u8]) -> (r: Vec<char>)
    ensures
        r@ == utf16_text(raw@),
{
    let mut out: Vec<char> = Vec::new();
    let mut i: usize = 0;
    assert(raw@.skip(0) =~= raw@);
    assert(raw.len() == raw@.len());
    while raw.len() - i >= 2
        invariant
            i <= raw.len() == raw@.len(),
            out@ + utf16_text(raw@.skip(i as int)) == utf16_text(raw@),
        decreases raw@.len() - i,
    {
        let ghost rest = raw@.skip(i as int);
        let ghost before = out@;
        let unit: u16 = read_u16(raw, i);
        assert(unit == bytes::le16(rest, 0));
        assert(rest.skip(2) =~= raw@.skip(i + 2));
        if unit < 0xD800 || 0xE000 <= unit {
            match char::from_u32(unit as u32) {
                Some(c) => {
                    out.push(c);
                    assert(out@ + utf16_text(rest.skip(2)) =~= before + (seq![unit as char]
                        + utf16_text(rest.skip(2))));
                },
                None => {},
            }
            i += 2;
        } else if unit < 0xDC00 && raw.len() - i >= 4 {
            let next: u16 = read_u16(raw, i + 2);
            assert(next == bytes::le16(rest, 2));
            assert(rest.skip(4) =~= raw@.skip(i + 4));
            if 0xDC00 <= next && next < 0xE000 {
                let code: u32 = 0x1_0000 + (unit as u32 - 0xD800) * 0x400 + (next as u32 - 0xDC00);
                match char::from_u32(code) {
                    Some(c) => {
                        out.push(c);
                        assert(out@ + utf16_text(rest.skip(4)) =~= before + (seq![code as char]
                            + utf16_text(rest.skip(4))));
                    },
                    None => {},
                }
                i += 4;
            } else {
                i += 2;
            }
        } else {
            i += 2;
        }
    }
    assert(utf16_text(raw@.skip(i as int)) =~= Seq::<char>::empty());
    assert(out@ =~= utf16_text(raw@));
    out
}

/// The pieces of `s` between occurrences of `separator`.
pub open spec fn split(s: Seq<char>, separator: char) -> Seq<Seq<char>>
    decreases s.len(),
{
    if s.len() == 0 {
        seq![Seq::empty()]
    } else {
        let before = split(s.drop_last(), separator);
        if s.last() == separator {
            before.push(Seq::empty())
        } else {
            before.drop_last().push(before.last().push(s.last()))
        }
    }
}

/// The characters of each piece.
pub open spec fn pieces(v: Seq<Vec<char>>) -> Seq<Seq<char>> {
    Seq::new(v.len(), |i: int| v[i]@)
}

/// There is always at least one piece.
pub proof fn lemma_split_nonempty(s: Seq<char>, separator: char)
    ensures
        split(s, separator).len() >= 1,
    decreases s.len(),
{
    if s.len() > 0 {
        lemma_split_nonempty(s.drop_last(), separator);
    }
}

/// Splits text at every occurrence of `separator`.
pub fn split_chars(s: &Vec<char>, separator: char) -> (r: Vec<Vec<char>>)
    ensures
        pieces(r@) == split(s@, separator),
        r@.len() >= 1,
{
    let mut out: Vec<Vec<char>> = Vec::new();
    let mut current: Vec<char> = Vec::new();
    let mut i: usize = 0;
    assert(pieces(out@).push(current@) =~= split(s@.take(0), separator));
    while i < s.len()
        invariant
            i <= s@.len(),
            pieces(out@).push(current@) == split(s@.take(i as int), separator),
        decreases s@.len() - i,
    {
        let ghost longer = s@.take(i + 1);
        assert(longer.drop_last() =~= s@.take(i as int));
        let ghost pieces_before = pieces(out@);
        let ghost current_before = current@;
        let c: char = s[i];
        if c == separator {
            out.push(current);
            current = Vec::new();
            assert(pieces(out@) =~= pieces_before.push(current_before));
        } else {
            current.push(c);
            assert(split(s@.take(i as int), separator).drop_last() =~= pieces_before);
        }
        i += 1;
    }
    assert(s@.take(i as int) =~= s@);
    let ghost whole = pieces(out@).push(current@);
    out.push(current);
    assert(pieces(out@) =~= whole);
    out
}

/// `s` without one carriage return at its end.
pub open spec fn without_return(s: Seq<char>) -> Seq<char> {
    if s.len() > 0 && s.last() == '\r' {
        s.drop_last()
    } else {
        s
    }
}

/// The lines of `s`: it is broken at every line feed, and a carriage return
/// directly before a line feed belongs to the break.
pub open spec fn line_pieces(s: Seq<char>) -> Seq<Seq<char>> {
    let parts = split(s, '\n');
    Seq::new(
        parts.len(),
        |i: int|
            if i < parts.len() - 1 {
                without_return(parts[i])
            } else {
                parts[i]
            },
    )
}

/// The lines of `s`, without an empty one at the end.
pub open spec fn lines(s: Seq<char>) -> Seq<Seq<char>> {
    let parts = line_pieces(s);
    if parts.last().len() == 0 {
        parts.drop_last()
    } else {
        parts
    }
}

/// Breaks text into its line pieces.
pub fn break_lines(s: &Vec<char>) -> (r: Vec<Vec<char>>)
    ensures
        pieces(r@) == line_pieces(s@),
        r@.len() >= 1,
{
    let mut parts: Vec<Vec<char>> = split_chars(s, '\n');
    let ghost unstripped = parts@;
    assert(split(s@, '\n') == pieces(unstripped));
    let mut i: usize = 0;
    while i < parts.len() - 1
        invariant
            i < parts@.len(),
            parts@.len() == unstripped.len(),
            forall|k: int| 0 <= k < i ==> (#[trigger] parts@[k])@ == without_return(unstripped[k]@),
            forall|k: int| i <= k < parts@.len() ==> #[trigger] parts@[k] == unstripped[k],
        decreases parts@.len() - i,
    {
        let mut line: Vec<char> = parts[i].clone();
        assert(line@ =~= parts@[i as int]@);
        let n: usize = line.len();
        if n > 0 && line[n - 1] == '\r' {
            line.truncate(n - 1);
            assert(line@ =~= parts@[i as int]@.drop_last());
        }
        parts.set(i, line);
        i += 1;
    }
    assert(pieces(parts@) =~= line_pieces(s@)) by {
        assert(split(s@, '\n') == pieces(unstripped));
    }
    parts
}

/// Breaks text into lines, without an empty one at the end.
pub fn split_lines(s: &Vec<char>) -> (r: Vec<Vec<char>>)
    ensures
        pieces(r@) == lines(s@),
{
    let mut parts: Vec<Vec<char>> = break_lines(s);
    let n: usize = parts.len();
    let ghost all = parts@;
    assert(pieces(all).last() == all.last()@);
    if parts[n - 1].len() == 0 {
        parts.truncate(n - 1);
        assert(pieces(parts@) =~= pieces(all).drop_last());
    }
    parts
}

/// Whether `c` is one of the ten decimal digits.
pub open spec fn is_digit(c: char) -> bool {
    '0' <= c <= '9'
}

/// Whether every character is a decimal digit.
pub open spec fn all_digits(s: Seq<char>) -> bool {
    forall|i: int| 0 <= i < s.len() ==> is_digit(#[trigger] s[i])
}

/// The number that a run of decimal digits stands for.
pub open spec fn decimal_value(s: Seq<char>) -> nat
    decreases s.len(),
{
    if s.len() == 0 {
        0
    } else {
        10 * decimal_value(s.drop_last()) + (s.last() as int - '0' as int) as nat
    }
}

/// The digits of a number that may carry a plus sign.
pub open spec fn unsigned_digits(s: Seq<char>) -> Seq<char> {
    if s.len() > 0 && s[0] == '+' {
        s.skip(1)
    } else {
        s
    }
}

/// The number that `s` writes in decimal, if it writes one that fits 64 bits.
pub open spec fn u64_text(s: Seq<char>) -> Option<u64> {
    let d = unsigned_digits(s);
    if d.len() > 0 && all_digits(d) && decimal_value(d) <= u64::MAX {
        Some(decimal_value(d) as u64)
    } else {
        None
    }
}

/// Reads a decimal number.
pub fn parse_u64(s: &Vec<char>) -> (r: Option<u64>)
    ensures
        r == u64_text(s@),
{
    let start: usize = if s.len() > 0 && s[0] == '+' {
        1
    } else {
        0
    };
    let ghost d = unsigned_digits(s@);
    assert(d =~= s@.skip(start as int));
    if s.len() == start {
        return None;
    }
    let mut value: u64 = 0;
    let mut too_large: bool = false;
    let mut i: usize = start;
    assert(d.take(0) =~= Seq::<char>::empty());
    while i < s.len()
        invariant
            start <= i <= s@.len(),
            start <= 1,
            d == s@.skip(start as int),
            d == unsigned_digits(s@),
            forall|k: int| 0 <= k < i - start ==> is_digit(#[trigger] d[k]),
            too_large ==> decimal_value(d.take(i - start)) > u64::MAX,
            !too_large ==> value == decimal_value(d.take(i - start)),
        decreases s@.len() - i,
    {
        let c: char = s[i];
        assert(c == d[i - start]);
        if c < '0' || c > '9' {
            assert(!is_digit(d[i - start]) && !all_digits(d));
            return None;
        }
        let ghost longer = d.take(i - start + 1);
        assert(longer.drop_last() =~= d.take(i - start));
        let n: u64 = c as u64 - 48;
        if !too_large {
            if value > (u64::MAX - n) / 10 {
                too_large = true;
            } else {
                value = 10 * value + n;
            }
        }
        i += 1;
    }
    assert(d.take(i - start) =~= d);
    if too_large {
        None
    } else {
        Some(value)
    }
}

/// `parts` with `separator` between them.
pub open spec fn join(parts: Seq<Seq<char>>, separator: char) -> Seq<char>
    decreases parts.len(),
{
    if parts.len() == 0 {
        Seq::empty()
    } else if parts.len() == 1 {
        parts[0]
    } else {
        join(parts.drop_last(), separator) + seq![separator] + parts.last()
    }
}

/// Joining the pieces of a text gives the text back.
pub proof fn law_join_undoes_split(s: Seq<char>, separator: char)
    ensures
        join(split(s, separator), separator) == s,
    decreases s.len(),
{
    let parts = split(s, separator);
    if s.len() == 0 {
        assert(parts[0] =~= s);
    } else {
        let before = split(s.drop_last(), separator);
        law_join_undoes_split(s.drop_last(), separator);
        lemma_split_nonempty(s.drop_last(), separator);
        if s.last() == separator {
            assert(parts.drop_last() =~= before);
            assert(join(parts, separator) =~= s.drop_last() + seq![separator]);
            assert(s =~= s.drop_last().push(separator));
        } else {
            assert(parts.drop_last() =~= before.drop_last());
            assert(join(parts, separator) =~= join(before, separator).push(s.last()));
            assert(s =~= s.drop_last().push(s.last()));
        }
    }
}

/// A text without the separator is one piece.
pub proof fn lemma_split_plain(s: Seq<char>, separator: char)
    requires
        !s.contains(separator),
    ensures
        split(s, separator) == seq![s],
    decreases s.len(),
{
    if s.len() > 0 {
        assert(s.last() != separator) by {
            assert(s[s.len() - 1] == s.last());
        }
        assert forall|c: char| s.drop_last().contains(c) implies s.contains(c) by {
            let i = choose|i: int| 0 <= i < s.drop_last().len() && s.drop_last()[i] == c;
            assert(s[i] == c);
        }
        lemma_split_plain(s.drop_last(), separator);
        assert(s.drop_last().push(s.last()) =~= s);
        assert(split(s, separator) =~= seq![s]);
    } else {
        assert(s =~= Seq::<char>::empty());
    }
}

/// One more piece behind a separator is one more piece of the whole.
pub proof fn lemma_split_append(s: Seq<char>, separator: char, tail: Seq<char>)
    requires
        !tail.contains(separator),
    ensures
        split(s + seq![separator] + tail, separator) == split(s, separator).push(tail),
    decreases tail.len(),
{
    let whole = s + seq![separator] + tail;
    if tail.len() == 0 {
        assert(whole.drop_last() =~= s);
        assert(tail =~= Seq::<char>::empty());
    } else {
        let shorter = tail.drop_last();
        assert forall|c: char| shorter.contains(c) implies tail.contains(c) by {
            let i = choose|i: int| 0 <= i < shorter.len() && shorter[i] == c;
            assert(tail[i] == c);
        }
        assert(tail.last() != separator) by {
            assert(tail[tail.len() - 1] == tail.last());
        }
        lemma_split_append(s, separator, shorter);
        assert(whole.drop_last() =~= s + seq![separator] + shorter);
        assert(shorter.push(tail.last()) =~= tail);
        assert(split(whole, separator) =~= split(s, separator).push(tail));
    }
}

/// Splitting joined pieces gives the pieces back, if none holds the separator
/// and there is at least one.
pub proof fn law_split_undoes_join(parts: Seq<Seq<char>>, separator: char)
    requires
        parts.len() > 0,
        forall|i: int| 0 <= i < parts.len() ==> !(#[trigger] parts[i]).contains(separator),
    ensures
        split(join(parts, separator), separator) == parts,
    decreases parts.len(),
{
    if parts.len() == 1 {
        lemma_split_plain(parts[0], separator);
        assert(parts =~= seq![parts[0]]);
    } else {
        let before = parts.drop_last();
        assert forall|i: int| 0 <= i < before.len() implies !(#[trigger] before[i]).contains(
            separator,
        ) by {
            assert(before[i] == parts[i]);
        }
        law_split_undoes_join(before, separator);
        assert(!parts[parts.len() - 1].contains(separator));
        lemma_split_append(join(before, separator), separator, parts.last());
        assert(before.push(parts.last()) =~= parts);
    }
}

/// `n` in exactly `width` decimal digits, with leading zeros.
pub open spec fn fixed_digits(n: nat, width: nat) -> Seq<char>
    decreases width,
{
    if width == 0 {
        Seq::empty()
    } else {
        fixed_digits(n / 10, (width - 1) as nat).push(digit_char(n % 10))
    }
}

/// Ten to the power of `n`.
pub open spec fn power_of_ten(n: nat) -> nat
    decreases n,
{
    if n == 0 {
        1
    } else {
        10 * power_of_ten((n - 1) as nat)
    }
}

/// Digits of a fixed width stand for the number that they were made of.
pub proof fn lemma_fixed_digits(n: nat, width: nat)
    requires
        n < power_of_ten(width),
    ensures
        fixed_digits(n, width).len() == width,
        all_digits(fixed_digits(n, width)),
        decimal_value(fixed_digits(n, width)) == n,
    decreases width,
{
    if width > 0 {
        lemma_fixed_digits(n / 10, (width - 1) as nat);
        let shorter = fixed_digits(n / 10, (width - 1) as nat);
        let d = fixed_digits(n, width);
        assert(d.drop_last() =~= shorter);
        assert forall|i: int| 0 <= i < d.len() implies is_digit(#[trigger] d[i]) by {
            if i < shorter.len() {
                assert(d[i] == shorter[i]);
            }
        }
    }
}

/// Digits are the digits of the number that they stand for, in their width.
pub proof fn lemma_fixed_digits_back(d: Seq<char>)
    requires
        all_digits(d),
    ensures
        fixed_digits(decimal_value(d), d.len()) == d,
    decreases d.len(),
{
    if d.len() > 0 {
        let shorter = d.drop_last();
        assert forall|i: int| 0 <= i < shorter.len() implies is_digit(#[trigger] shorter[i]) by {
            assert(shorter[i] == d[i]);
        }
        lemma_fixed_digits_back(shorter);
        assert(is_digit(d[d.len() - 1]));
        let last = (d.last() as int - '0' as int) as nat;
        assert(decimal_value(d) / 10 == decimal_value(shorter));
        assert(decimal_value(d) % 10 == last);
        assert(digit_char(last) == d.last());
        assert(shorter.push(d.last()) =~= d);
    } else {
        assert(fixed_digits(decimal_value(d), 0) =~= d);
    }
}

/// A number written in decimal is read back as that number.
pub proof fn law_decimal_is_read_back(n: u64)
    ensures
        u64_text(decimal(n as nat)) == Some(n),
{
    lemma_decimal_digits(n as nat);
    let d = decimal(n as nat);
    assert(is_digit(d[0]));
    assert(unsigned_digits(d) == d);
}

proof fn lemma_decimal_digits(n: nat)
    ensures
        decimal(n).len() > 0,
        all_digits(decimal(n)),
        decimal_value(decimal(n)) == n,
    decreases n,
{
    if n < 10 {
        let d = decimal(n);
        assert(d.drop_last() =~= Seq::<char>::empty());
        assert(d.last() == digit_char(n));
        assert(decimal_value(d.drop_last()) == 0);
    } else {
        lemma_decimal_digits(n / 10);
        let shorter = decimal(n / 10);
        let d = decimal(n);
        assert(d == shorter.push(digit_char(n % 10)));
        assert(d.drop_last() =~= shorter);
        assert forall|i: int| 0 <= i < d.len() implies is_digit(#[trigger] d[i]) by {
            if i < shorter.len() {
                assert(d[i] == shorter[i]);
            }
        }
    }
}

} // verus!
