//! The segment files of an image: their names, their numbers, their order.

use vstd::prelude::*;
use crate::error::{EwfError, EwfErrorView};
use crate::text;
use crate::text::chars_of;
use crate::types;

verus! {

/// Segment numbers in ascending order.
pub open spec fn ascending(numbers: Seq<u32>) -> Seq<u32> {
    numbers.sort_by(|a: u32, b: u32| a <= b)
}

/// The first position, from `p` on, whose number is not the one that belongs
/// there: position 0 belongs to segment 1.
pub open spec fn first_gap(sorted: Seq<u32>, p: int) -> Option<int>
    decreases sorted.len() - p,
{
    if p < 0 || p >= sorted.len() {
        None
    } else if sorted[p] != p + 1 {
        Some(p)
    } else {
        first_gap(sorted, p + 1)
    }
}

/// The number of the segment that belongs at position `p`.
pub open spec fn number_at(p: int) -> u32 {
    (p + 1) as u32
}

/// What is wrong with a set of segment numbers that is not 1, 2, 3, and so on.
pub open spec fn numbering_fault(numbers: Seq<u32>) -> Option<EwfErrorView> {
    match first_gap(ascending(numbers), 0) {
        Some(p) => Some(
            EwfErrorView::SegmentGap {
                expected: number_at(p) as int,
                got: ascending(numbers)[p] as int,
            },
        ),
        None => None,
    }
}

/// The positions of `numbers` in the order of the numbers.
fn sort_numbers(numbers: &Vec<u32>) -> (r: (Vec<usize>, Vec<u32>))
    ensures
        r.1@ == ascending(numbers@),
        r.0@.len() == numbers@.len(),
        r.1@.len() == numbers@.len(),
        forall|j: int|
            0 <= j < r.0@.len() ==> (#[trigger] r.0@[j]) < numbers@.len() && r.1@[j]
                == numbers@[r.0@[j] as int],
        forall|k: usize| k < numbers@.len() ==> #[trigger] r.0@.contains(k),
{
    let mut order: Vec<usize> = Vec::new();
    let mut sorted: Vec<u32> = Vec::new();
    let mut k: usize = 0;
    assert(numbers@.take(0) =~= sorted@);
    while k < numbers.len()
        invariant
            k <= numbers@.len(),
            order@.len() == k,
            sorted@.len() == k,
            forall|j: int|
                0 <= j < k ==> (#[trigger] order@[j]) < k && sorted@[j]
                    == numbers@[order@[j] as int],
            forall|q: usize| q < k ==> #[trigger] order@.contains(q),
            forall|a: int, b: int| 0 <= a < b < k ==> sorted@[a] <= sorted@[b],
            sorted@.to_multiset() == numbers@.take(k as int).to_multiset(),
        decreases numbers@.len() - k,
    {
        let number: u32 = numbers[k];
        let mut p: usize = k;
        while p > 0 && sorted[p - 1] > number
            invariant
                p <= k,
                sorted@.len() == k,
                forall|j: int| p <= j < k ==> sorted@[j] > number,
            decreases p,
        {
            p -= 1;
        }
        let ghost old_order = order@;
        let ghost old_sorted = sorted@;
        order.insert(p, k);
        sorted.insert(p, number);
        proof {
            vstd::seq_lib::to_multiset_insert(old_sorted, p as int, number);
            assert(numbers@.take(k + 1) =~= numbers@.take(k as int).push(number));
            vstd::seq_lib::to_multiset_build(numbers@.take(k as int), number);
            assert forall|q: usize| q < k + 1 implies #[trigger] order@.contains(q) by {
                if q == k {
                    assert(order@[p as int] == q);
                } else {
                    assert(old_order.contains(q));
                    let j = choose|j: int| 0 <= j < old_order.len() && old_order[j] == q;
                    if j < p {
                        assert(order@[j] == q);
                    } else {
                        assert(order@[j + 1] == q);
                    }
                }
            }
            assert forall|a: int, b: int| 0 <= a < b < k + 1 implies sorted@[a] <= sorted@[b] by {
                let shifted_a = if a < p {
                    a
                } else {
                    a - 1
                };
                let shifted_b = if b < p {
                    b
                } else {
                    b - 1
                };
                if a != p && b != p {
                    assert(sorted@[a] == old_sorted[shifted_a]);
                    assert(sorted@[b] == old_sorted[shifted_b]);
                } else if p > 0 {
                    assert(a < p ==> old_sorted[a] <= old_sorted[p - 1]);
                }
            }
        }
        k += 1;
    }
    proof {
        let leq = |a: u32, b: u32| a <= b;
        assert(numbers@.take(k as int) =~= numbers@);
        numbers@.lemma_sort_by_ensures(leq);
        vstd::seq_lib::lemma_sorted_unique(sorted@, ascending(numbers@), leq);
    }
    (order, sorted)
}

/// Takes the items at the positions `order` out of `items`.
fn permute<T>(items: Vec<T>, order: &Vec<usize>) -> (r: Vec<T>)
    requires
        forall|j: int| 0 <= j < order@.len() ==> #[trigger] order@[j] < items@.len(),
        forall|a: int, b: int| 0 <= a < b < order@.len() ==> order@[a] != order@[b],
    ensures
        r@.len() == order@.len(),
        forall|j: int| 0 <= j < order@.len() ==> #[trigger] r@[j] == items@[order@[j] as int],
{
    let ghost all = items@;
    let mut slots: Vec<Option<T>> = Vec::new();
    for item in iter: items
        invariant
            iter.seq() == all,
            slots@.len() == iter.index(),
            forall|j: int| 0 <= j < slots@.len() ==> #[trigger] slots@[j] == Some(all[j]),
    {
        slots.push(Some(item));
    }
    let mut out: Vec<T> = Vec::new();
    let mut q: usize = 0;
    while q < order.len()
        invariant
            q <= order@.len(),
            slots@.len() == all.len(),
            out@.len() == q,
            forall|j: int| 0 <= j < order@.len() ==> #[trigger] order@[j] < all.len(),
            forall|a: int, b: int| 0 <= a < b < order@.len() ==> order@[a] != order@[b],
            forall|j: int| 0 <= j < q ==> #[trigger] out@[j] == all[order@[j] as int],
            forall|j: int|
                q <= j < order@.len() ==> slots@[(#[trigger] order@[j]) as int] == Some(
                    all[order@[j] as int],
                ),
        decreases order@.len() - q,
    {
        let item: Option<T> = slots[order[q]].take();
        out.push(item.unwrap());
        q += 1;
    }
    out
}

/// Puts the segments into the order of their numbers, which have to be 1, 2, 3,
/// and so on.
pub fn validate_and_reorder_segments<T>(segments: Vec<T>, segment_numbers: Vec<u32>) -> (r: Result<
    Vec<T>,
    EwfError,
>)
    requires
        segments@.len() >= segment_numbers@.len(),
    ensures
        match r {
            Err(e) => numbering_fault(segment_numbers@) == Some(e@),
            Ok(v) => {
                &&& numbering_fault(segment_numbers@) is None
                &&& v@.len() == segment_numbers@.len() <= u32::MAX
                &&& forall|k: int|
                    0 <= k < segment_numbers@.len() ==> 1 <= (#[trigger] segment_numbers@[k])
                        <= v@.len() && v@[segment_numbers@[k] - 1] == segments@[k]
                &&& forall|p: int|
                    0 <= p < v@.len() ==> segment_numbers@.contains(#[trigger] number_at(p))
            },
        },
{
    let (order, sorted) = sort_numbers(&segment_numbers);
    let mut p: usize = 0;
    while p < sorted.len()
        invariant
            p <= sorted@.len(),
            sorted@ == ascending(segment_numbers@),
            first_gap(sorted@, 0) == first_gap(sorted@, p as int),
            forall|j: int| 0 <= j < p ==> #[trigger] sorted@[j] == j + 1,
        decreases sorted@.len() - p,
    {
        if sorted[p] as u64 != p as u64 + 1 {
            let expected: u32 = (p as u64 + 1) as u32;
            return Err(EwfError::SegmentGap { expected, got: sorted[p] });
        }
        p += 1;
    }
    assert(first_gap(sorted@, p as int) is None);
    let ghost all = segments@;
    let ordered: Vec<T> = permute(segments, &order);
    assert forall|k: int| 0 <= k < segment_numbers@.len() implies 1 <= (
    #[trigger] segment_numbers@[k]) <= ordered@.len() && ordered@[segment_numbers@[k] - 1]
        == all[k] by {
        assert(order@.contains(k as usize));
        let j = choose|j: int| 0 <= j < order@.len() && order@[j] == k as usize;
        assert(segment_numbers@[order@[j] as int] == j + 1);
        assert(ordered@[j] == all[order@[j] as int]);
    }
    assert(sorted@.len() > 0 ==> sorted@[sorted@.len() - 1] == sorted@.len());
    assert forall|p: int| 0 <= p < ordered@.len() implies segment_numbers@.contains(
        #[trigger] number_at(p),
    ) by {
        assert(segment_numbers@[order@[p] as int] == p + 1);
    }
    Ok(ordered)
}

/// The order in which segments with these numbers belong: at each position,
/// which of them it is.
pub open spec fn segment_order(numbers: Seq<u32>) -> Seq<usize> {
    Seq::new(numbers.len(), |p: int| numbers.index_of(number_at(p)) as usize)
}

/// Finds the order in which segments with these numbers belong.
pub fn order_segments(numbers: Vec<u32>) -> (r: Result<Vec<usize>, EwfError>)
    ensures
        match r {
            Err(e) => numbering_fault(numbers@) == Some(e@),
            Ok(v) => {
                &&& numbering_fault(numbers@) is None
                &&& v@ == segment_order(numbers@)
                &&& forall|p: int| 0 <= p < v@.len() ==> #[trigger] v@[p] < numbers@.len()
            },
        },
{
    let mut positions: Vec<usize> = Vec::new();
    let mut i: usize = 0;
    while i < numbers.len()
        invariant
            i <= numbers@.len(),
            positions@.len() == i,
            forall|k: int| 0 <= k < i ==> #[trigger] positions@[k] == k,
        decreases numbers@.len() - i,
    {
        positions.push(i);
        i += 1;
    }
    let ghost given = numbers@;
    match validate_and_reorder_segments(positions, numbers) {
        Err(e) => Err(e),
        Ok(v) => {
            assert forall|p: int| 0 <= p < v@.len() implies #[trigger] v@[p] == segment_order(
                given,
            )[p] && v@[p] < given.len() by {
                assert(given.contains(number_at(p)));
                let k = given.index_of(number_at(p));
                assert(given[k] == number_at(p));
                assert(v@[given[k] - 1] == positions@[k]);
                let j = choose|j: int| 0 <= j < given.len() && given[j] == number_at(p);
                assert(1 <= given[k] <= v@.len());
            }
            assert(v@ =~= segment_order(given));
            Ok(v)
        },
    }
}

/// Whether every platform takes `path` apart in the same way: at its slashes,
/// where no part but the first is empty or a dot.
pub open spec fn is_plain_path(path: Seq<char>) -> bool {
    let parts = text::split(path, '/');
    &&& path.len() > 0
    &&& !path.contains('\\') && !path.contains(':')
    &&& forall|i: int|
        1 <= i < parts.len() ==> (#[trigger] parts[i]).len() > 0 && parts[i] != seq!['.']
}

/// A plain path without its last part: empty for a single name, and a slash
/// for a name directly below the root.
pub open spec fn plain_parent(path: Seq<char>) -> Seq<char> {
    let parts = text::split(path, '/');
    if parts.len() == 2 && parts[0].len() == 0 {
        seq!['/']
    } else {
        text::join(parts.drop_last(), '/')
    }
}

/// `std::path::Path::parent`: the path without its last part. An empty path
/// has none. What it is for paths with backslashes, colons, repeated slashes,
/// a slash at the end, or single dots depends on the platform or on how such
/// paths are simplified, and is not stated.
#[verifier::external_body]
fn path_parent(path: &str) -> (r: Option<String>)
    ensures
        is_plain_path(path@) ==> types::text_of(r) == Some(plain_parent(path@)),
        path@.len() == 0 ==> types::text_of(r) == None::<Seq<char>>,
{
    std::path::Path::new(path).parent().map(|p| p.display().to_string())
}

/// The directory that a path with this parent lies in: the current one where
/// the parent is missing or empty.
pub open spec fn directory(parent: Option<Seq<char>>) -> Seq<char> {
    match parent {
        Some(p) => if p.len() > 0 {
            p
        } else {
            "."@
        },
        None => "."@,
    }
}

/// Names the directory that a path with this parent lies in.
pub fn directory_of(parent: Option<String>) -> (r: String)
    ensures
        r@ == directory(types::text_of(parent)),
{
    match parent {
        Some(p) => if chars_of(p.as_str()).len() > 0 {
            p
        } else {
            ".".to_owned()
        },
        None => ".".to_owned(),
    }
}

/// The directory to look for the segment files of `first` in.
pub fn segment_dir(first: &str) -> (r: String)
    ensures
        is_plain_path(first@) ==> r@ == directory(Some(plain_parent(first@))),
        first@.len() == 0 ==> r@ == "."@,
        r@.len() > 0,
{
    proof {
        reveal_strlit(".");
    }
    directory_of(path_parent(first))
}

/// The segment files of an image that is named without its directory are
/// looked for in the current directory, not in the root.
pub proof fn law_bare_name_lies_in_current_directory(name: Seq<char>)
    requires
        name.len() > 0,
        !name.contains('/') && !name.contains('\\') && !name.contains(':'),
    ensures
        is_plain_path(name),
        directory(Some(plain_parent(name))) == "."@,
{
    text::lemma_split_plain(name, '/');
}

/// The segment files of an image that is named with its directory are looked
/// for in that directory.
pub proof fn law_qualified_name_keeps_its_directory(dir: Seq<char>, name: Seq<char>)
    requires
        dir.len() > 0,
        name.len() > 0,
        !name.contains('/'),
        is_plain_path(dir + seq!['/'] + name),
    ensures
        directory(Some(plain_parent(dir + seq!['/'] + name))) == dir,
{
    text::lemma_split_append(dir, '/', name);
    text::lemma_split_nonempty(dir, '/');
    text::law_join_undoes_split(dir, '/');
    let parts = text::split(dir + seq!['/'] + name, '/');
    assert(parts.drop_last() =~= text::split(dir, '/'));
    if parts.len() == 2 && parts[0].len() == 0 {
        assert(text::split(dir, '/') =~= seq![parts[0]]);
    }
}

/// `c` in upper case, if it is an ASCII letter.
pub open spec fn ascii_upper(c: char) -> char {
    if 'a' <= c <= 'z' {
        (c as int - 32) as char
    } else {
        c
    }
}

/// `c` in lower case, if it is an ASCII letter.
pub open spec fn ascii_lower(c: char) -> char {
    if 'A' <= c <= 'Z' {
        (c as int + 32) as char
    } else {
        c
    }
}

fn to_upper(c: char) -> (r: char)
    ensures
        r == ascii_upper(c),
{
    if 'a' <= c && c <= 'z' {
        (c as u8 - 32) as char
    } else {
        c
    }
}

fn to_lower(c: char) -> (r: char)
    ensures
        r == ascii_lower(c),
{
    if 'A' <= c && c <= 'Z' {
        (c as u8 + 32) as char
    } else {
        c
    }
}

/// `s` with every character that means something in a file name pattern put
/// in brackets.
pub open spec fn escaped(s: Seq<char>) -> Seq<char>
    decreases s.len(),
{
    if s.len() == 0 {
        s
    } else {
        let c = s.last();
        if c == '?' || c == '*' || c == '[' || c == ']' {
            escaped(s.drop_last()) + seq!['[', c, ']']
        } else {
            escaped(s.drop_last()).push(c)
        }
    }
}

/// `glob::Pattern::escape` puts the characters `?`, `*`, `[` and `]` in
/// brackets and leaves all others as they are.
#[verifier::external_body]
fn escape_pattern(s: &str) -> (r: String)
    ensures
        r@ == escaped(s@),
{
    glob::Pattern::escape(s)
}

/// Whether an extension is one of version 2, such as `Ex01`.
pub open spec fn is_v2_extension(extension: Seq<char>) -> bool {
    vstd::utf8::encode_utf8(extension).len() == 4
}

/// The pattern that finds the segment files of an image in `directory`: those
/// numbered by digits, or those behind them, which are lettered. Nothing in the
/// name of the directory or of the image means anything in the pattern.
pub open spec fn segment_pattern(
    directory: Seq<char>,
    stem: Seq<char>,
    extension: Seq<char>,
    lettered: bool,
) -> Seq<char> {
    let prefix = ascii_upper(extension[0]);
    escaped(directory) + "/"@ + escaped(stem) + ".["@ + seq![prefix, ascii_lower(prefix)] + (
    if is_v2_extension(extension) {
        "][x-z]"@
    } else {
        "]"@
    }) + (if lettered {
        "[A-Za-z][A-Za-z]"@
    } else {
        "[0-9][0-9]"@
    })
}

fn make_pattern(directory: &str, stem: &str, extension: &str, lettered: bool) -> (r: String)
    requires
        extension@.len() > 0,
    ensures
        r@ == segment_pattern(directory@, stem@, extension@, lettered),
{
    let prefix: char = to_upper(chars_of(extension)[0]);
    let mut m: String = escape_pattern(directory);
    m.append("/");
    m.append(escape_pattern(stem).as_str());
    m.append(".[");
    let ghost opening = m@;
    m.push(prefix);
    m.push(to_lower(prefix));
    assert(m@ =~= opening + seq![prefix, ascii_lower(prefix)]);
    if extension.as_bytes().len() == 4 {
        m.append("][x-z]");
    } else {
        m.append("]");
    }
    if lettered {
        m.append("[A-Za-z][A-Za-z]");
    } else {
        m.append("[0-9][0-9]");
    }
    m
}

/// The patterns that find the segment files of an image whose first file has
/// this stem and extension.
pub fn segment_patterns(directory: &str, stem: &str, extension: &str) -> (r: Vec<String>)
    requires
        extension@.len() > 0,
    ensures
        r@.len() == 2,
        r@[0]@ == segment_pattern(directory@, stem@, extension@, false),
        r@[1]@ == segment_pattern(directory@, stem@, extension@, true),
{
    let mut out: Vec<String> = Vec::new();
    out.push(make_pattern(directory, stem, extension, false));
    out.push(make_pattern(directory, stem, extension, true));
    out
}

/// `s` in upper case, as far as it is ASCII.
pub open spec fn upper_text(s: Seq<char>) -> Seq<char> {
    Seq::new(s.len(), |i: int| ascii_upper(s[i]))
}

/// Whether `a` comes before `b` or is the same, character by character.
pub open spec fn text_le(a: Seq<char>, b: Seq<char>) -> bool
    decreases a.len(),
{
    if a.len() == 0 {
        true
    } else if b.len() == 0 {
        false
    } else if a[0] != b[0] {
        a[0] < b[0]
    } else {
        text_le(a.skip(1), b.skip(1))
    }
}

/// The order of texts is total.
pub proof fn lemma_text_le_total(a: Seq<char>, b: Seq<char>)
    ensures
        text_le(a, b) || text_le(b, a),
    decreases a.len(),
{
    if a.len() > 0 && b.len() > 0 && a[0] == b[0] {
        lemma_text_le_total(a.skip(1), b.skip(1));
    }
}

/// The order of texts is transitive.
pub proof fn lemma_text_le_transitive(a: Seq<char>, b: Seq<char>, c: Seq<char>)
    requires
        text_le(a, b),
        text_le(b, c),
    ensures
        text_le(a, c),
    decreases a.len(),
{
    if a.len() > 0 && b.len() > 0 && c.len() > 0 && a[0] == b[0] && b[0] == c[0] {
        lemma_text_le_transitive(a.skip(1), b.skip(1), c.skip(1));
    }
}

fn compare_text(a: &Vec<char>, b: &Vec<char>) -> (r: bool)
    ensures
        r == text_le(a@, b@),
{
    let mut i: usize = 0;
    assert(a@.skip(0) =~= a@);
    assert(b@.skip(0) =~= b@);
    while i < a.len() && i < b.len()
        invariant
            i <= a@.len(),
            i <= b@.len(),
            text_le(a@, b@) == text_le(a@.skip(i as int), b@.skip(i as int)),
        decreases a@.len() - i,
    {
        assert(a@.skip(i as int).skip(1) =~= a@.skip(i + 1));
        assert(b@.skip(i as int).skip(1) =~= b@.skip(i + 1));
        if a[i] != b[i] {
            return a[i] < b[i];
        }
        i += 1;
    }
    i == a.len()
}

/// The extension by which a file is ordered.
pub open spec fn extension_key(extensions: Seq<String>, i: int) -> Seq<char> {
    upper_text(extensions[i]@)
}

/// Whether file `i` belongs before file `j`: by extension, regardless of case,
/// and for the same extension in the order in which they were found.
pub open spec fn belongs_before(extensions: Seq<String>, i: int, j: int) -> bool {
    text_le(extension_key(extensions, i), extension_key(extensions, j)) && (text_le(
        extension_key(extensions, j),
        extension_key(extensions, i),
    ) ==> i < j)
}

fn upper_chars(s: &str) -> (r: Vec<char>)
    ensures
        r@ == upper_text(s@),
{
    let chars: Vec<char> = chars_of(s);
    let mut out: Vec<char> = Vec::new();
    let mut i: usize = 0;
    while i < chars.len()
        invariant
            i <= chars@.len(),
            out@ == upper_text(chars@.take(i as int)),
        decreases chars@.len() - i,
    {
        out.push(to_upper(chars[i]));
        i += 1;
        assert(out@ =~= upper_text(chars@.take(i as int)));
    }
    assert(chars@.take(i as int) =~= s@);
    out
}

/// The order of files with these extensions.
pub fn order_by_extension(extensions: &Vec<String>) -> (r: Vec<usize>)
    ensures
        r@.len() == extensions@.len(),
        forall|j: int| 0 <= j < r@.len() ==> #[trigger] r@[j] < extensions@.len(),
        forall|k: usize| k < extensions@.len() ==> #[trigger] r@.contains(k),
        forall|a: int, b: int|
            0 <= a < b < r@.len() ==> #[trigger] belongs_before(
                extensions@,
                r@[a] as int,
                r@[b] as int,
            ),
{
    let mut order: Vec<usize> = Vec::new();
    let mut k: usize = 0;
    while k < extensions.len()
        invariant
            k <= extensions@.len(),
            order@.len() == k,
            forall|j: int| 0 <= j < k ==> #[trigger] order@[j] < k,
            forall|q: usize| q < k ==> #[trigger] order@.contains(q),
            forall|a: int, b: int|
                0 <= a < b < k ==> #[trigger] belongs_before(
                    extensions@,
                    order@[a] as int,
                    order@[b] as int,
                ),
        decreases extensions@.len() - k,
    {
        let key: Vec<char> = upper_chars(extensions[k].as_str());
        let mut p: usize = k;
        while p > 0 && !compare_text(&upper_chars(extensions[order[p - 1]].as_str()), &key)
            invariant
                p <= k < extensions@.len(),
                order@.len() == k,
                key@ == extension_key(extensions@, k as int),
                forall|j: int| 0 <= j < k ==> #[trigger] order@[j] < k,
                forall|j: int|
                    p <= j < k ==> !text_le(
                        extension_key(extensions@, (#[trigger] order@[j]) as int),
                        key@,
                    ),
            decreases p,
        {
            p -= 1;
        }
        let ghost old_order = order@;
        order.insert(p, k);
        proof {
            assert forall|q: usize| q < k + 1 implies #[trigger] order@.contains(q) by {
                if q == k {
                    assert(order@[p as int] == q);
                } else {
                    assert(old_order.contains(q));
                    let j = choose|j: int| 0 <= j < old_order.len() && old_order[j] == q;
                    if j < p {
                        assert(order@[j] == q);
                    } else {
                        assert(order@[j + 1] == q);
                    }
                }
            }
            assert forall|a: int, b: int| 0 <= a < b < k + 1 implies #[trigger] belongs_before(
                extensions@,
                order@[a] as int,
                order@[b] as int,
            ) by {
                let from_a = if a < p {
                    a
                } else {
                    a - 1
                };
                let from_b = if b < p {
                    b
                } else {
                    b - 1
                };
                if a != p && b != p {
                    assert(belongs_before(
                        extensions@,
                        old_order[from_a] as int,
                        old_order[from_b] as int,
                    ));
                } else if b == p {
                    let last = extension_key(extensions@, old_order[p - 1] as int);
                    let mine = extension_key(extensions@, old_order[a] as int);
                    if a < p - 1 {
                        assert(belongs_before(
                            extensions@,
                            old_order[a] as int,
                            old_order[p - 1] as int,
                        ));
                        lemma_text_le_transitive(mine, last, key@);
                    }
                } else {
                    assert(order@[b] == old_order[b - 1]);
                    lemma_text_le_total(
                        extension_key(extensions@, old_order[b - 1] as int),
                        key@,
                    );
                }
            }
        }
        k += 1;
    }
    order
}

/// Orders the segment files that were found for the image `first`, by their
/// extensions. None found is an error.
pub fn order_found<T>(first: String, found: Vec<T>, extensions: Vec<String>) -> (r: Result<
    Vec<T>,
    EwfError,
>)
    requires
        found@.len() == extensions@.len(),
    ensures
        match r {
            Err(e) => found@.len() == 0 && e@ == EwfErrorView::NoSegments(first@),
            Ok(v) => {
                &&& found@.len() > 0
                &&& v@.len() == found@.len()
                &&& exists|order: Seq<usize>| #[trigger]
                    sorts(extensions@, order) && forall|j: int|
                        0 <= j < order.len() ==> #[trigger] v@[j] == found@[order[j] as int]
            },
        },
{
    if found.len() == 0 {
        return Err(EwfError::NoSegments(first));
    }
    let order: Vec<usize> = order_by_extension(&extensions);
    proof {
        assert forall|a: int, b: int| 0 <= a < b < order@.len() implies order@[a] != order@[b] by {
            assert(belongs_before(extensions@, order@[a] as int, order@[b] as int));
        }
        assert(sorts(extensions@, order@));
    }
    Ok(permute(found, &order))
}

/// Whether `order` lists every file once, each before those that belong behind
/// it.
pub open spec fn sorts(extensions: Seq<String>, order: Seq<usize>) -> bool {
    &&& order.len() == extensions.len()
    &&& forall|j: int| 0 <= j < order.len() ==> #[trigger] order[j] < extensions.len()
    &&& forall|a: int, b: int|
        0 <= a < b < order.len() ==> #[trigger] belongs_before(
            extensions,
            order[a] as int,
            order[b] as int,
        )
}

} // verus!
