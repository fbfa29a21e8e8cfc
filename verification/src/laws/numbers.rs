//! Numbers in bytes and in text.

use vstd::prelude::*;
use crate::bytes;
use crate::text;

verus! {

/// The `width` lowest bytes of `n`, the lowest first.
pub open spec fn little(n: nat, width: nat) -> Seq<u8>
    decreases width,
{
    if width == 0 {
        Seq::empty()
    } else {
        seq![(n % 256) as u8] + little(n / 256, (width - 1) as nat)
    }
}

/// Whether `s` has the `width` lowest bytes of `n` at `at`.
pub open spec fn has_number(s: Seq<u8>, at: int, n: nat, width: nat) -> bool {
    &&& 0 <= at
    &&& at + width <= s.len()
    &&& s.subrange(at, at + width) == little(n, width)
}

/// One byte more is the lowest byte and the rest.
proof fn lemma_little_step(s: Seq<u8>, at: int, n: nat, width: nat)
    requires
        has_number(s, at, n, width),
        width > 0,
    ensures
        s[at] == n % 256,
        has_number(s, at + 1, n / 256, (width - 1) as nat),
{
    let whole = s.subrange(at, at + width);
    assert(whole[0] == s[at]);
    assert(s.subrange(at + 1, at + width) =~= whole.skip(1));
    assert(little(n, width).skip(1) =~= little(n / 256, (width - 1) as nat));
}

/// A 16-bit number is read back as it was written.
pub proof fn law_u16_is_read_back(s: Seq<u8>, at: int, n: u16)
    requires
        has_number(s, at, n as nat, 2),
    ensures
        bytes::le16(s, at) == n,
{
    lemma_little_step(s, at, n as nat, 2);
    lemma_little_step(s, at + 1, n as nat / 256, 1);
}

/// A 32-bit number is read back as it was written.
pub proof fn law_u32_is_read_back(s: Seq<u8>, at: int, n: u32)
    requires
        has_number(s, at, n as nat, 4),
    ensures
        bytes::le32(s, at) == n,
{
    lemma_le32(s, at, n as nat, 4);
}

/// A 64-bit number is read back as it was written.
pub proof fn law_u64_is_read_back(s: Seq<u8>, at: int, n: u64)
    requires
        has_number(s, at, n as nat, 8),
    ensures
        bytes::le64(s, at) == n,
{
    lemma_le32(s, at, n as nat, 8);
    let high = n as nat / 0x1_0000_0000;
    lemma_le32(s, at + 4, high, 4);
}

/// The first four of the bytes of a number.
proof fn lemma_le32(s: Seq<u8>, at: int, n: nat, width: nat)
    requires
        has_number(s, at, n, width),
        width >= 4,
    ensures
        bytes::le32(s, at) == n % 0x1_0000_0000,
        has_number(s, at + 4, n / 0x1_0000_0000, (width - 4) as nat),
{
    lemma_little_step(s, at, n, width);
    let n1 = n / 256;
    lemma_little_step(s, at + 1, n1, (width - 1) as nat);
    let n2 = n1 / 256;
    lemma_little_step(s, at + 2, n2, (width - 2) as nat);
    let n3 = n2 / 256;
    lemma_little_step(s, at + 3, n3, (width - 3) as nat);
    let n4 = n3 / 256;
    assert(n4 == n / 0x1_0000_0000);
}

/// What a digit stands for.
pub open spec fn face(c: char) -> Option<nat> {
    if '0' <= c <= '9' {
        Some((c as int - '0' as int) as nat)
    } else if 'a' <= c <= 'f' {
        Some((c as int - 'a' as int + 10) as nat)
    } else {
        None
    }
}

/// The number that digits of a base stand for, the highest first. Anything that
/// is no digit of the base makes it no number.
pub open spec fn value(s: Seq<char>, base: nat) -> Option<nat>
    decreases s.len(),
{
    if s.len() == 0 {
        Some(0)
    } else {
        match (value(s.drop_last(), base), face(s.last())) {
            (Some(high), Some(d)) => if d < base {
                Some(high * base + d)
            } else {
                None
            },
            _ => None,
        }
    }
}

/// Whether digits are written without needless zeros in front.
pub open spec fn is_shortest(s: Seq<char>) -> bool {
    s.len() == 1 || (s.len() > 1 && s[0] != '0')
}

proof fn lemma_digits(n: nat, base: nat)
    requires
        base == 10 || base == 16,
    ensures
        value(text::digits(n, base), base) == Some(n),
        is_shortest(text::digits(n, base)),
        n > 0 ==> text::digits(n, base)[0] != '0',
    decreases n,
{
    let s = text::digits(n, base);
    if n < base {
        assert(s.drop_last() =~= Seq::<char>::empty());
        assert(value(s.drop_last(), base) == Some(0nat));
        assert(s.last() == text::digit_char(n));
        assert(face(s.last()) == Some(n));
    } else {
        lemma_digits(n / base, base);
        let high = text::digits(n / base, base);
        assert(s.drop_last() =~= high);
        assert(face(s.last()) == Some(n % base));
        assert((n / base) * base + n % base == n) by (nonlinear_arith)
            requires
                base > 0,
        ;
        assert(n / base > 0) by (nonlinear_arith)
            requires
                n >= base,
                base > 0,
        ;
        assert(s[0] == high[0]);
    }
}

/// A number in decimal is the shortest run of decimal digits that stands for
/// it.
pub proof fn law_decimal_stands_for_the_number(n: nat)
    ensures
        value(text::decimal(n), 10) == Some(n),
        is_shortest(text::decimal(n)),
{
    lemma_digits(n, 10);
}

/// A number in hexadecimal is `0x` and the shortest run of digits that stands
/// for it.
pub proof fn law_hexadecimal_stands_for_the_number(n: nat)
    ensures
        text::hexadecimal(n).len() > 2,
        text::hexadecimal(n)[0] == '0',
        text::hexadecimal(n)[1] == 'x',
        value(text::hexadecimal(n).skip(2), 16) == Some(n),
        is_shortest(text::hexadecimal(n).skip(2)),
{
    lemma_digits(n, 16);
    assert(text::hexadecimal(n).skip(2) =~= text::digits(n, 16));
}

pub(crate) proof fn lemma_decimal_value(s: Seq<char>)
    ensures
        value(s, 10) is Some <==> text::all_digits(s),
        text::all_digits(s) ==> value(s, 10) == Some(text::decimal_value(s)),
    decreases s.len(),
{
    if s.len() > 0 {
        lemma_decimal_value(s.drop_last());
        if text::all_digits(s) {
            assert(text::is_digit(s[s.len() - 1]));
            assert forall|i: int| 0 <= i < s.drop_last().len() implies text::is_digit(
                #[trigger] s.drop_last()[i],
            ) by {
                assert(s.drop_last()[i] == s[i]);
            }
        }
        if value(s, 10) is Some {
            assert forall|i: int| 0 <= i < s.len() implies text::is_digit(#[trigger] s[i]) by {
                if i < s.len() - 1 {
                    assert(s.drop_last()[i] == s[i]);
                }
            }
        }
    }
}

/// A text is read as a number exactly if it is decimal digits, at least one,
/// with or without a plus sign in front, and the number fits 64 bits.
pub proof fn law_numbers_are_decimal_digits(s: Seq<char>, n: u64)
    ensures
        text::u64_text(s) == Some(n) <==> s.len() > 0 && (value(s, 10) == Some(n as nat) || (s[0]
            == '+' && s.len() > 1 && value(s.skip(1), 10) == Some(n as nat))),
{
    lemma_decimal_value(s);
    lemma_decimal_value(s.skip(1));
    if s.len() > 0 && s[0] == '+' {
        assert(!text::is_digit(s[0]));
    }
}

} // verus!
