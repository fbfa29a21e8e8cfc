//! The names of segment files: where they are looked for and in what order they
//! are taken.

use vstd::prelude::*;
use crate::segments;
use crate::text;

verus! {

/// Only ASCII letters have another case, 32 places away.
pub proof fn law_letter_case(c: char)
    ensures
        'a' <= c <= 'z' ==> segments::ascii_upper(c) as int == c as int - 32,
        !('a' <= c <= 'z') ==> segments::ascii_upper(c) == c,
        'A' <= c <= 'Z' ==> segments::ascii_lower(c) as int == c as int + 32,
        !('A' <= c <= 'Z') ==> segments::ascii_lower(c) == c,
{
}

/// A text is put in upper case character by character.
pub proof fn law_upper_text(s: Seq<char>, i: int)
    requires
        0 <= i < s.len(),
    ensures
        segments::upper_text(s).len() == s.len(),
        segments::upper_text(s)[i] == segments::ascii_upper(s[i]),
{
}

/// Every character of a name that means something in a pattern is put in
/// brackets, and all others stand for themselves.
pub proof fn law_escaped(a: Seq<char>, c: char, b: Seq<char>)
    ensures
        segments::escaped(Seq::empty()) == Seq::<char>::empty(),
        segments::escaped(a + seq![c] + b) == segments::escaped(a) + (if c == '?' || c == '*' || c
            == '[' || c == ']' {
            seq!['[', c, ']']
        } else {
            seq![c]
        }) + segments::escaped(b),
    decreases b.len(),
{
    let all = a + seq![c] + b;
    if b.len() == 0 {
        assert(all.drop_last() =~= a);
        assert(all.last() == c);
        assert(segments::escaped(a).push(c) =~= segments::escaped(a) + seq![c]);
        assert(segments::escaped(all) =~= segments::escaped(a) + (if c == '?' || c == '*' || c == '['
            || c == ']' {
            seq!['[', c, ']']
        } else {
            seq![c]
        }) + segments::escaped(b));
    } else {
        assert(all.drop_last() =~= a + seq![c] + b.drop_last());
        assert(all.last() == b.last());
        law_escaped(a, c, b.drop_last());
        assert(segments::escaped(all) =~= segments::escaped(a) + (if c == '?' || c == '*' || c == '['
            || c == ']' {
            seq!['[', c, ']']
        } else {
            seq![c]
        }) + segments::escaped(b));
    }
}

/// Segment files are looked for under the name of the image, with the letter of
/// its extension in either case, a second letter in version 2, and two digits or
/// two letters.
pub proof fn law_patterns(
    directory: Seq<char>,
    stem: Seq<char>,
    extension: Seq<char>,
    upper: char,
    lower: char,
)
    requires
        extension.len() > 0,
        'A' <= upper <= 'Z',
        lower as int == upper as int + 32,
        extension[0] == upper || extension[0] == lower,
    ensures
        ({
            let start = segments::escaped(directory) + "/"@ + segments::escaped(stem) + ".["@
                + seq![upper, lower];
            let v2 = vstd::utf8::encode_utf8(extension).len() == 4;
            &&& v2 ==> segments::segment_pattern(directory, stem, extension, false) == start
                + "][x-z]"@ + "[0-9][0-9]"@
            &&& v2 ==> segments::segment_pattern(directory, stem, extension, true) == start
                + "][x-z]"@ + "[A-Za-z][A-Za-z]"@
            &&& !v2 ==> segments::segment_pattern(directory, stem, extension, false) == start
                + "]"@ + "[0-9][0-9]"@
            &&& !v2 ==> segments::segment_pattern(directory, stem, extension, true) == start
                + "]"@ + "[A-Za-z][A-Za-z]"@
        }),
{
    lemma_cases(upper, lower);
}

proof fn lemma_cases(upper: char, lower: char)
    requires
        'A' <= upper <= 'Z',
        lower as int == upper as int + 32,
    ensures
        segments::ascii_upper(upper) == upper,
        segments::ascii_upper(lower) == upper,
        segments::ascii_lower(upper) == lower,
{
    assert((upper as int + 32) as char == lower);
    assert((lower as int - 32) as char == upper);
}

/// Texts are ordered by the first character in which they differ. One that
/// ends before they differ comes first.
pub proof fn law_text_order(p: Seq<char>, a: Seq<char>, b: Seq<char>)
    requires
        a.len() == 0 || b.len() == 0 || a[0] != b[0],
    ensures
        segments::text_le(p + a, p + b) <==> a.len() == 0 || (b.len() > 0 && a[0] < b[0]),
    decreases p.len(),
{
    if p.len() == 0 {
        assert(p + a =~= a);
        assert(p + b =~= b);
    } else {
        assert((p + a).skip(1) =~= p.skip(1) + a);
        assert((p + b).skip(1) =~= p.skip(1) + b);
        law_text_order(p.skip(1), a, b);
    }
}

/// Files are taken in the order of their extensions, whatever their case, and
/// those with the same extension in the order in which they were found.
pub proof fn law_files_in_order(extensions: Seq<String>, order: Seq<usize>, a: int, b: int)
    requires
        segments::sorts(extensions, order),
        0 <= a < b < order.len(),
    ensures
        ({
            let x = segments::upper_text(extensions[order[a] as int]@);
            let y = segments::upper_text(extensions[order[b] as int]@);
            &&& segments::text_le(x, y)
            &&& x == y ==> order[a] < order[b]
        }),
{
    assert(segments::belongs_before(extensions, order[a] as int, order[b] as int));
    let x = segments::upper_text(extensions[order[a] as int]@);
    segments::lemma_text_le_total(x, x);
}

/// Every file is taken, and none twice.
pub proof fn law_every_file_is_taken_once(extensions: Seq<String>, order: Seq<usize>, i: int)
    requires
        segments::sorts(extensions, order),
        0 <= i < extensions.len() <= usize::MAX,
    ensures
        exists|j: int| 0 <= j < order.len() && #[trigger] order[j] == i,
        forall|a: int, b: int| 0 <= a < b < order.len() ==> order[a] != order[b],
{
    assert forall|a: int, b: int| 0 <= a < b < order.len() implies order[a] != order[b] by {
        law_files_in_order(extensions, order, a, b);
    }
    let n = order.len() as int;
    let places = Seq::new(order.len(), |j: int| order[j] as int);
    assert(places.no_duplicates());
    vstd::seq_lib::seq_to_set_is_finite(places);
    places.unique_seq_to_set();
    let all = vstd::set_lib::set_int_range(0, n);
    vstd::set_lib::lemma_int_range(0, n);
    assert forall|x: int| places.to_set().contains(x) implies all.contains(x) by {
        let j = choose|j: int| 0 <= j < places.len() && places[j] == x;
        assert(order[j] < extensions.len());
    }
    vstd::set_lib::lemma_subset_equality(places.to_set(), all);
    assert(places.to_set().contains(i));
    let j = choose|j: int| 0 <= j < places.len() && places[j] == i;
    assert(order[j] == i);
}

proof fn lemma_join_lacks(parts: Seq<Seq<char>>, separator: char, c: char)
    requires
        c != separator,
        forall|i: int| 0 <= i < parts.len() ==> !(#[trigger] parts[i]).contains(c),
    ensures
        !text::join(parts, separator).contains(c),
    decreases parts.len(),
{
    let s = text::join(parts, separator);
    if s.contains(c) {
        let k = choose|k: int| 0 <= k < s.len() && s[k] == c;
        if parts.len() == 1 {
            assert(parts[0].contains(c));
        } else if parts.len() > 1 {
            let before = parts.drop_last();
            assert forall|i: int| 0 <= i < before.len() implies !(#[trigger] before[i]).contains(
                c,
            ) by {
                assert(before[i] == parts[i]);
            }
            lemma_join_lacks(before, separator, c);
            let head = text::join(before, separator);
            assert(!parts[parts.len() - 1].contains(c));
            if k < head.len() {
                assert(head[k] == c);
            } else if k > head.len() {
                assert(parts.last()[k - head.len() - 1] == c);
            }
        }
    }
}

/// The segment files of an image are looked for in the directory that its path
/// names: all its parts but the last. That of a name below the root is the root,
/// and that of a bare name the current directory.
pub proof fn law_directories(parts: Seq<Seq<char>>)
    requires
        parts.len() > 0,
        parts.len() == 1 ==> parts[0].len() > 0,
        forall|i: int|
            0 <= i < parts.len() ==> !(#[trigger] parts[i]).contains('/') && !parts[i].contains(
                '\\',
            ) && !parts[i].contains(':'),
        forall|i: int|
            1 <= i < parts.len() ==> (#[trigger] parts[i]).len() > 0 && parts[i] != seq!['.'],
    ensures
        ({
            let path = text::join(parts, '/');
            let found = segments::directory(Some(segments::plain_parent(path)));
            &&& segments::is_plain_path(path)
            &&& parts.len() == 1 ==> found == "."@
            &&& parts.len() == 2 && parts[0].len() == 0 ==> found == seq!['/']
            &&& parts.len() == 2 && parts[0].len() > 0 ==> found == parts[0]
            &&& parts.len() > 2 ==> found == text::join(parts.drop_last(), '/')
        }),
{
    let path = text::join(parts, '/');
    text::law_split_undoes_join(parts, '/');
    lemma_join_lacks(parts, '/', '\\');
    lemma_join_lacks(parts, '/', ':');
    if parts.len() == 1 {
        assert(path == parts[0]);
    } else {
        assert(parts[parts.len() - 1].len() > 0);
        let before = parts.drop_last();
        if before.len() == 1 {
            assert(text::join(before, '/') == parts[0]);
        } else {
            assert(text::join(before, '/').len() > 0);
        }
    }
}

/// Without a parent, and with an empty one, the directory is the current one.
pub proof fn law_no_parent(parent: Seq<char>)
    ensures
        segments::directory(None) == "."@,
        parent.len() == 0 ==> segments::directory(Some(parent)) == "."@,
        parent.len() > 0 ==> segments::directory(Some(parent)) == parent,
{
}

} // verus!
