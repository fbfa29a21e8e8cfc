//! Texts: their pieces, their lines, and UTF-16.

use vstd::prelude::*;
use crate::bytes;
use crate::laws::numbers;
use crate::text;

verus! {

/// No piece of a text holds the separator, so that a text is cut at every one.
pub proof fn law_pieces_hold_no_separator(s: Seq<char>, separator: char, i: int)
    requires
        0 <= i < text::split(s, separator).len(),
    ensures
        !text::split(s, separator)[i].contains(separator),
    decreases s.len(),
{
    let parts = text::split(s, separator);
    if s.len() > 0 {
        let before = text::split(s.drop_last(), separator);
        text::lemma_split_nonempty(s.drop_last(), separator);
        if i < before.len() - 1 {
            law_pieces_hold_no_separator(s.drop_last(), separator, i);
            assert(parts[i] == before[i]);
        } else if i < before.len() {
            law_pieces_hold_no_separator(s.drop_last(), separator, i);
            if s.last() == separator {
                assert(parts[i] == before[i]);
            } else {
                assert(parts[i] == before[i].push(s.last()));
                if parts[i].contains(separator) {
                    let j = choose|j: int| 0 <= j < parts[i].len() && parts[i][j] == separator;
                    assert(before[i][j] == separator);
                    assert(before[i].contains(separator));
                }
            }
        }
    }
}

/// The text whose lines are `parts`. A break is a line feed, behind a carriage
/// return where `cr` says so.
pub open spec fn broken(parts: Seq<Seq<char>>, cr: Seq<bool>) -> Seq<char>
    decreases parts.len(),
{
    if parts.len() == 0 {
        Seq::empty()
    } else if parts.len() == 1 {
        parts[0]
    } else {
        broken(parts.drop_last(), cr) + (if cr[parts.len() - 2] {
            seq!['\r', '\n']
        } else {
            seq!['\n']
        }) + parts.last()
    }
}

/// Whether `parts` can be the lines of a text with these breaks.
pub open spec fn breakable(parts: Seq<Seq<char>>, cr: Seq<bool>) -> bool {
    &&& parts.len() > 0
    &&& cr.len() == parts.len()
    &&& forall|i: int| 0 <= i < parts.len() ==> !(#[trigger] parts[i]).contains('\n')
    &&& forall|i: int|
        0 <= i < parts.len() - 1 && (#[trigger] parts[i]).len() > 0 && !cr[i]
            ==> parts[i].last() != '\r'
}

/// The lines with the carriage return that stands behind some of them.
pub open spec fn unstripped(parts: Seq<Seq<char>>, cr: Seq<bool>) -> Seq<Seq<char>> {
    Seq::new(
        parts.len(),
        |i: int|
            if i < parts.len() - 1 && cr[i] {
                parts[i].push('\r')
            } else {
                parts[i]
            },
    )
}

/// The lines, the last of which has a carriage return behind it too if
/// `cr` says so, are joined by line feeds alone.
pub open spec fn all_unstripped(parts: Seq<Seq<char>>, cr: Seq<bool>) -> Seq<Seq<char>> {
    Seq::new(
        parts.len(),
        |i: int|
            if cr[i] {
                parts[i].push('\r')
            } else {
                parts[i]
            },
    )
}

proof fn lemma_broken_joins(parts: Seq<Seq<char>>, cr: Seq<bool>)
    requires
        parts.len() > 0,
        cr.len() >= parts.len(),
    ensures
        broken(parts, cr) == text::join(unstripped(parts, cr), '\n'),
        broken(parts, cr) + (if cr[parts.len() - 1] {
            seq!['\r']
        } else {
            Seq::empty()
        }) == text::join(all_unstripped(parts, cr), '\n'),
    decreases parts.len(),
{
    let raw = unstripped(parts, cr);
    let all = all_unstripped(parts, cr);
    let n = parts.len() as int;
    if n > 1 {
        let before = parts.drop_last();
        lemma_broken_joins(before, cr);
        assert(raw.drop_last() =~= all_unstripped(before, cr));
        assert(all.drop_last() =~= all_unstripped(before, cr));
        assert(raw.last() == parts.last());
        assert(broken(parts, cr) =~= text::join(raw, '\n'));
        assert(broken(parts, cr) + (if cr[n - 1] {
            seq!['\r']
        } else {
            Seq::empty()
        }) =~= text::join(all, '\n'));
    } else {
        assert(broken(parts, cr) =~= text::join(raw, '\n'));
        assert(broken(parts, cr) + (if cr[n - 1] {
            seq!['\r']
        } else {
            Seq::empty()
        }) =~= text::join(all, '\n'));
    }
}

/// A text is broken into the lines that it was made of, whichever way they were
/// ended.
pub proof fn law_lines_are_read_back(parts: Seq<Seq<char>>, cr: Seq<bool>)
    requires
        breakable(parts, cr),
    ensures
        text::line_pieces(broken(parts, cr)) == parts,
        text::lines(broken(parts, cr)) == if parts.last().len() == 0 {
            parts.drop_last()
        } else {
            parts
        },
{
    let raw = unstripped(parts, cr);
    lemma_broken_joins(parts, cr);
    assert forall|i: int| 0 <= i < raw.len() implies !(#[trigger] raw[i]).contains('\n') by {
        assert(!parts[i].contains('\n'));
        if raw[i].contains('\n') {
            let j = choose|j: int| 0 <= j < raw[i].len() && raw[i][j] == '\n';
            assert(parts[i][j] == '\n');
        }
    }
    text::law_split_undoes_join(raw, '\n');
    let pieces = text::line_pieces(broken(parts, cr));
    assert forall|i: int| 0 <= i < parts.len() implies #[trigger] pieces[i] == parts[i] by {
        if i < parts.len() - 1 {
            if cr[i] {
                assert(raw[i].drop_last() =~= parts[i]);
            } else {
                assert(raw[i] == parts[i]);
            }
        }
    }
    assert(pieces =~= parts);
}

/// A character in UTF-16LE: one unit, or two surrogates.
pub open spec fn encoded_char(c: char) -> Seq<u8> {
    if (c as int) < 0x1_0000 {
        numbers::little(c as nat, 2)
    } else {
        numbers::little((0xD800 + (c as int - 0x1_0000) / 0x400) as nat, 2) + numbers::little(
            (0xDC00 + (c as int - 0x1_0000) % 0x400) as nat,
            2,
        )
    }
}

/// Characters in UTF-16LE.
pub open spec fn encoded(s: Seq<char>) -> Seq<u8>
    decreases s.len(),
{
    if s.len() == 0 {
        Seq::empty()
    } else {
        encoded_char(s[0]) + encoded(s.skip(1))
    }
}

proof fn lemma_unit(unit: nat, rest: Seq<u8>)
    requires
        unit < 0x1_0000,
    ensures
        numbers::little(unit, 2).len() == 2,
        bytes::le16(numbers::little(unit, 2) + rest, 0) == unit,
        (numbers::little(unit, 2) + rest).skip(2) == rest,
{
    reveal_with_fuel(numbers::little, 3);
    let s = numbers::little(unit, 2) + rest;
    assert(s.skip(2) =~= rest);
}

proof fn lemma_encoded_char(c: char, rest: Seq<u8>)
    ensures
        text::utf16_text(encoded_char(c) + rest) == seq![c] + text::utf16_text(rest),
{
    let s = encoded_char(c) + rest;
    if (c as int) < 0x1_0000 {
        lemma_unit(c as nat, rest);
    } else {
        let high = (0xD800 + (c as int - 0x1_0000) / 0x400) as nat;
        let low = (0xDC00 + (c as int - 0x1_0000) % 0x400) as nat;
        let tail = numbers::little(low, 2) + rest;
        assert(s =~= numbers::little(high, 2) + tail);
        lemma_unit(high, tail);
        lemma_unit(low, rest);
        assert(bytes::le16(s, 2) == bytes::le16(s.skip(2), 0));
        assert(s.skip(4) =~= s.skip(2).skip(2));
    }
}

proof fn lemma_encoded(s: Seq<char>, rest: Seq<u8>)
    ensures
        text::utf16_text(encoded(s) + rest) == s + text::utf16_text(rest),
    decreases s.len(),
{
    if s.len() == 0 {
        assert(encoded(s) + rest =~= rest);
        assert(s + text::utf16_text(rest) =~= text::utf16_text(rest));
    } else {
        lemma_encoded(s.skip(1), rest);
        assert(encoded(s) + rest =~= encoded_char(s[0]) + (encoded(s.skip(1)) + rest));
        lemma_encoded_char(s[0], encoded(s.skip(1)) + rest);
        assert(seq![s[0]] + (s.skip(1) + text::utf16_text(rest)) =~= s + text::utf16_text(rest));
    }
}

/// Text in UTF-16LE is read back, whatever single byte is left over behind it.
pub proof fn law_utf16_is_read_back(s: Seq<char>, rest: Seq<u8>)
    requires
        rest.len() <= 1,
    ensures
        text::utf16_text(encoded(s) + rest) == s,
{
    lemma_encoded(s, rest);
    assert(s + Seq::<char>::empty() =~= s);
}

/// No character starts with the second half of a pair.
proof fn lemma_encoded_start(c: char, more: Seq<u8>)
    ensures
        !(0xDC00 <= bytes::le16(encoded_char(c) + more, 0) < 0xE000),
{
    if (c as int) < 0x1_0000 {
        lemma_unit(c as nat, more);
    } else {
        let high = (0xD800 + (c as int - 0x1_0000) / 0x400) as nat;
        let low = (0xDC00 + (c as int - 0x1_0000) % 0x400) as nat;
        assert(encoded_char(c) + more =~= numbers::little(high, 2) + (numbers::little(low, 2)
            + more));
        lemma_unit(high, numbers::little(low, 2) + more);
    }
}

/// A surrogate without its other half is left out, and nothing else is.
pub proof fn law_unpaired_surrogate_is_left_out(
    a: Seq<char>,
    unit: u16,
    b: Seq<char>,
    rest: Seq<u8>,
)
    requires
        0xD800 <= unit <= 0xDFFF,
        rest.len() <= 1,
    ensures
        text::utf16_text(encoded(a) + numbers::little(unit as nat, 2) + encoded(b) + rest) == a + b,
{
    let tail = encoded(b) + rest;
    let lone = numbers::little(unit as nat, 2) + tail;
    assert(encoded(a) + numbers::little(unit as nat, 2) + encoded(b) + rest =~= encoded(a) + lone);
    lemma_encoded(a, lone);
    lemma_unit(unit as nat, tail);
    law_utf16_is_read_back(b, rest);
    if lone.len() >= 4 {
        if b.len() == 0 {
            assert(tail =~= rest);
        }
        assert(bytes::le16(lone, 2) == bytes::le16(tail, 0));
        let c = b[0];
        let more = encoded(b.skip(1)) + rest;
        assert(tail =~= encoded_char(c) + more);
        lemma_encoded_start(c, more);
    }
}

} // verus!
