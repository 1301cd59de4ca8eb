//! Searching in and splitting of character sequences.
use crate::text;
use vstd::prelude::*;

verus! {

/// Whether `pattern` stands in `chars` at `i`.
pub open spec fn occurs_at(chars: Seq<char>, pattern: Seq<char>, i: int) -> bool {
    &&& 0 <= i
    &&& i + pattern.len() <= chars.len()
    &&& chars.subrange(i, i + pattern.len()) == pattern
}

/// The first place at or after `from` where `pattern` stands.
pub open spec fn find_from(chars: Seq<char>, pattern: Seq<char>, from: int) -> Option<int>
    decreases chars.len() + 1 - from,
{
    if from < 0 || from + pattern.len() > chars.len() {
        None
    } else if occurs_at(chars, pattern, from) {
        Some(from)
    } else {
        find_from(chars, pattern, from + 1)
    }
}

/// The last place at or before `from` where `pattern` stands.
pub open spec fn rfind_from(chars: Seq<char>, pattern: Seq<char>, from: int) -> Option<int>
    decreases from + 1,
{
    if from < 0 {
        None
    } else if occurs_at(chars, pattern, from) {
        Some(from)
    } else {
        rfind_from(chars, pattern, from - 1)
    }
}

/// Whether `chars` begins with `pattern`.
pub open spec fn starts_with(chars: Seq<char>, pattern: Seq<char>) -> bool {
    occurs_at(chars, pattern, 0)
}

/// Whether `chars` ends with `pattern`.
pub open spec fn ends_with(chars: Seq<char>, pattern: Seq<char>) -> bool {
    occurs_at(chars, pattern, chars.len() - pattern.len())
}

/// Whether `pattern` stands anywhere in `chars`.
pub open spec fn contains(chars: Seq<char>, pattern: Seq<char>) -> bool {
    find_from(chars, pattern, 0) is Some
}

/// What `find_from` finds is the first occurrence, and it finds one if there is one.
pub proof fn lemma_find(chars: Seq<char>, pattern: Seq<char>, from: int)
    requires
        0 <= from,
    ensures
        find_from(chars, pattern, from) matches Some(i) ==> from <= i && occurs_at(
            chars,
            pattern,
            i,
        ) && forall|j: int| from <= j < i ==> !occurs_at(chars, pattern, j),
        find_from(chars, pattern, from) is None ==> forall|j: int|
            from <= j ==> !occurs_at(chars, pattern, j),
    decreases chars.len() + 1 - from,
{
    if from + pattern.len() <= chars.len() && !occurs_at(chars, pattern, from) {
        lemma_find(chars, pattern, from + 1);
    }
}

/// What `rfind_from` finds is the last occurrence, and it finds one if there is one.
pub proof fn lemma_rfind(chars: Seq<char>, pattern: Seq<char>, from: int)
    ensures
        rfind_from(chars, pattern, from) matches Some(i) ==> i <= from && occurs_at(
            chars,
            pattern,
            i,
        ) && forall|j: int| i < j <= from ==> !occurs_at(chars, pattern, j),
        rfind_from(chars, pattern, from) is None ==> forall|j: int|
            j <= from ==> !occurs_at(chars, pattern, j),
    decreases from + 1,
{
    if from >= 0 && !occurs_at(chars, pattern, from) {
        lemma_rfind(chars, pattern, from - 1);
    }
}

/// The parts of `chars` from `from` on that are left when every occurrence of `separator` is
/// taken out, from left to right.
pub open spec fn segments_from(chars: Seq<char>, separator: Seq<char>, from: int) -> Seq<Seq<char>>
    decreases chars.len() - from,
{
    if separator.len() == 0 || !(0 <= from <= chars.len()) {
        seq![chars]
    } else {
        match find_from(chars, separator, from) {
            None => seq![chars.subrange(from, chars.len() as int)],
            Some(i) => {
                proof {
                    lemma_find(chars, separator, from);
                }
                if from <= i && i + separator.len() <= chars.len() {
                    seq![chars.subrange(from, i)] + segments_from(
                        chars,
                        separator,
                        i + separator.len() as int,
                    )
                } else {
                    seq![chars]
                }
            },
        }
    }
}

/// The characters of `chars` one by one, with an empty segment at both ends.
pub open spec fn single_segments(chars: Seq<char>) -> Seq<Seq<char>> {
    Seq::new(
        chars.len() + 2,
        |i: int|
            if 0 < i && i <= chars.len() {
                seq![chars[i - 1]]
            } else {
                Seq::empty()
            },
    )
}

/// The segments of `chars` between its separators; an empty separator stands between any two
/// characters and at both ends.
pub open spec fn segments(chars: Seq<char>, separator: Seq<char>) -> Seq<Seq<char>> {
    if separator.len() == 0 {
        single_segments(chars)
    } else {
        segments_from(chars, separator, 0)
    }
}

/// Whether no segment is empty.
pub open spec fn none_empty(segments: Seq<Seq<char>>) -> bool {
    forall|i: int| 0 <= i < segments.len() ==> (#[trigger] segments[i]).len() > 0
}

/// The segments in order, with the separator between each two.
pub open spec fn joined(segments: Seq<Seq<char>>, separator: Seq<char>) -> Seq<char>
    decreases segments.len(),
{
    if segments.len() == 0 {
        Seq::empty()
    } else if segments.len() == 1 {
        segments[0]
    } else {
        joined(segments.drop_last(), separator) + separator + segments.last()
    }
}

/// `chars` with each occurrence of `pattern`, from left to right, exchanged for `by`.
pub open spec fn replaced(chars: Seq<char>, pattern: Seq<char>, by: Seq<char>) -> Seq<char> {
    joined(segments(chars, pattern), by)
}

/// Whether `c` stands in none of the texts.
pub open spec fn none_hold(texts: Seq<Seq<char>>, c: char) -> bool {
    forall|i: int| 0 <= i < texts.len() ==> !(#[trigger] texts[i]).contains(c)
}

proof fn lemma_segments_without(chars: Seq<char>, separator: Seq<char>, from: int, c: char)
    requires
        0 <= from <= chars.len(),
        separator.len() > 0,
        separator == seq![c] || !chars.contains(c),
    ensures
        none_hold(segments_from(chars, separator, from), c),
    decreases chars.len() - from,
{
    lemma_find(chars, separator, from);
    let end = match find_from(chars, separator, from) {
        Some(i) => i,
        None => chars.len() as int,
    };
    let first = chars.subrange(from, end);
    if first.contains(c) {
        let k = choose|k: int| 0 <= k < first.len() && first[k] == c;
        assert(chars[from + k] == c);
        assert(chars.subrange(from + k, from + k + 1) =~= seq![c]);
        assert(occurs_at(chars, seq![c], from + k));
    }
    if find_from(chars, separator, from) is Some {
        lemma_segments_without(chars, separator, end + separator.len() as int, c);
    }
}

/// Texts without a character are joined without it, by a separator without it.
pub proof fn lemma_joined_without(segments: Seq<Seq<char>>, separator: Seq<char>, c: char)
    requires
        none_hold(segments, c),
        !separator.contains(c),
    ensures
        !joined(segments, separator).contains(c),
    decreases segments.len(),
{
    if segments.len() > 1 {
        assert forall|i: int| 0 <= i < segments.len() - 1 implies !(
        #[trigger] segments.drop_last()[i]).contains(c) by {
            assert(segments.drop_last()[i] == segments[i]);
        }
        lemma_joined_without(segments.drop_last(), separator, c);
        let head = joined(segments.drop_last(), separator);
        let all = head + separator + segments.last();
        if all.contains(c) {
            let k = choose|k: int| 0 <= k < all.len() && all[k] == c;
            if k < head.len() {
                assert(head[k] == c);
            } else if k < head.len() + separator.len() {
                assert(separator[k - head.len()] == c);
            } else {
                assert(segments.last()[k - head.len() - separator.len()] == c);
            }
        }
    } else if segments.len() == 1 {
        assert(!segments[0].contains(c));
    }
}

/// The segments of a text are without a character that the text is without, or that is the
/// separator.
pub proof fn lemma_split_without(chars: Seq<char>, separator: Seq<char>, c: char)
    requires
        separator.len() > 0,
        separator == seq![c] || !chars.contains(c),
    ensures
        none_hold(segments(chars, separator), c),
{
    lemma_segments_without(chars, separator, 0, c);
}

/// What a replacement leaves is without a character that it takes out, or that was not there.
pub proof fn lemma_replaced_without(chars: Seq<char>, pattern: Seq<char>, by: Seq<char>, c: char)
    requires
        pattern.len() > 0,
        pattern == seq![c] || !chars.contains(c),
        !by.contains(c),
    ensures
        !replaced(chars, pattern, by).contains(c),
{
    lemma_split_without(chars, pattern, c);
    lemma_joined_without(segments(chars, pattern), by, c);
}

/// How often `pattern` occurs, counted from left to right without overlap.
pub open spec fn count(chars: Seq<char>, pattern: Seq<char>) -> int {
    segments(chars, pattern).len() - 1
}

/// Whether `pattern` stands in `chars` at `i`.
pub fn is_at(chars: &[char], pattern: &[char], i: usize) -> (found: bool)
    ensures
        found == occurs_at(chars@, pattern@, i as int),
{
    if i > chars.len() || pattern.len() > chars.len() - i {
        return false;
    }
    let total: usize = chars.len();
    let mut k: usize = 0;
    while k < pattern.len()
        invariant
            k <= pattern@.len(),
            i + pattern@.len() <= chars@.len() == total,
            forall|j: int| 0 <= j < k ==> chars@[i + j] == pattern@[j],
        decreases pattern@.len() - k,
    {
        if chars[i + k] != pattern[k] {
            assert(chars@.subrange(i as int, i + pattern@.len())[k as int] != pattern@[k as int]);
            return false;
        }
        k += 1;
    }
    assert(chars@.subrange(i as int, i + pattern@.len()) =~= pattern@);
    true
}

/// The first place at or after `from` where `pattern` stands.
pub fn find(chars: &[char], pattern: &[char], from: usize) -> (at: Option<usize>)
    ensures
        at is Some == find_from(chars@, pattern@, from as int) is Some,
        at matches Some(i) ==> find_from(chars@, pattern@, from as int) == Some(i as int),
{
    let mut i: usize = from;
    while i <= chars.len() && pattern.len() <= chars.len() - i
        invariant
            find_from(chars@, pattern@, from as int) == find_from(chars@, pattern@, i as int),
        decreases chars@.len() + 1 - i,
    {
        if is_at(chars, pattern, i) {
            return Some(i);
        }
        if i == chars.len() {
            assert(find_from(chars@, pattern@, i + 1) is None);
            return None;
        }
        i += 1;
    }
    None
}

/// The last place where `pattern` stands.
pub fn rfind(chars: &[char], pattern: &[char]) -> (at: Option<usize>)
    ensures
        at is Some == rfind_from(chars@, pattern@, chars@.len() as int) is Some,
        at matches Some(i) ==> rfind_from(chars@, pattern@, chars@.len() as int) == Some(i as int),
{
    let mut i: usize = chars.len();
    loop
        invariant
            rfind_from(chars@, pattern@, chars@.len() as int) == rfind_from(
                chars@,
                pattern@,
                i as int,
            ),
        decreases i,
    {
        if is_at(chars, pattern, i) {
            return Some(i);
        }
        if i == 0 {
            assert(rfind_from(chars@, pattern@, -1) is None);
            return None;
        }
        i -= 1;
    }
}

/// Whether `text` begins with `pattern`.
pub fn begins(text: &str, pattern: &str) -> (found: bool)
    ensures
        found == starts_with(text@, pattern@),
{
    is_at(&text::chars_of(text), &text::chars_of(pattern), 0)
}

/// Whether `text` ends with `pattern`.
pub fn ends(text: &str, pattern: &str) -> (found: bool)
    ensures
        found == ends_with(text@, pattern@),
{
    let chars = text::chars_of(text);
    let end = text::chars_of(pattern);
    if end.len() > chars.len() {
        return false;
    }
    is_at(&chars, &end, chars.len() - end.len())
}

/// `text` without `pattern` at its end, where it ends with it.
pub fn without_suffix(text: &str, pattern: &str) -> (front: Option<String>)
    ensures
        front is Some == ends_with(text@, pattern@),
        front matches Some(front) ==> front@ == text@.take(text@.len() - pattern@.len()),
{
    if !ends(text, pattern) {
        return None;
    }
    let chars = text::chars_of(text);
    let end = text::chars_of(pattern);
    let at: usize = chars.len() - end.len();
    assert(chars@.subrange(0, at as int) =~= text@.take(at as int));
    Some(text::string_of(&chars, 0, at))
}

/// The segments of `text` between its separators.
pub fn split(text: &str, separator: &str) -> (parts: Vec<String>)
    ensures
        parts.deep_view() == segments(text@, separator@),
{
    let chars = text::chars_of(text);
    let pattern = text::chars_of(separator);
    let mut parts: Vec<String> = Vec::new();
    if pattern.len() == 0 {
        let ghost all = single_segments(text@);
        parts.push(String::new());
        assert(parts.deep_view() =~= all.take(1));
        let mut n: usize = 0;
        while n < chars.len()
            invariant
                n <= chars@.len(),
                chars@ == text@,
                all == single_segments(text@),
                parts.deep_view() == all.take(n + 1),
            decreases chars@.len() - n,
        {
            let ghost before = parts.deep_view();
            parts.push(text::string_of(&chars, n, n + 1));
            assert(parts@.last()@ =~= all[n + 1]);
            assert(parts.deep_view() =~= before.push(all[n + 1]));
            assert(all.take(n + 2) =~= before.push(all[n + 1]));
            n += 1;
        }
        let ghost before = parts.deep_view();
        parts.push(String::new());
        assert(parts@.last()@ =~= all[n + 1]);
        assert(parts.deep_view() =~= before.push(all[n + 1]));
        assert(all =~= before.push(all[n + 1]));
        return parts;
    }
    let total: usize = chars.len();
    let mut from: usize = 0;
    loop
        invariant
            chars@ == text@,
            total == chars@.len(),
            pattern@ == separator@,
            pattern@.len() > 0,
            from <= chars@.len(),
            segments(text@, separator@) == parts.deep_view() + segments_from(
                text@,
                separator@,
                from as int,
            ),
        decreases chars@.len() - from,
    {
        proof {
            lemma_find(text@, separator@, from as int);
        }
        let ghost before = parts.deep_view();
        match find(&chars, &pattern, from) {
            None => {
                parts.push(text::string_of(&chars, from, chars.len()));
                assert(parts.deep_view() =~= before + segments_from(
                    text@,
                    separator@,
                    from as int,
                ));
                return parts;
            },
            Some(i) => {
                parts.push(text::string_of(&chars, from, i));
                let next = i + pattern.len();
                assert(parts.deep_view() =~= before + seq![text@.subrange(from as int, i as int)]);
                assert(segments_from(text@, separator@, from as int) =~= seq![
                    text@.subrange(from as int, i as int),
                ] + segments_from(text@, separator@, next as int));
                assert(before + segments_from(text@, separator@, from as int) =~= (before + seq![
                    text@.subrange(from as int, i as int),
                ]) + segments_from(text@, separator@, next as int));
                from = next;
            },
        }
    }
}

/// The strings in order, with the separator between each two.
pub fn join(parts: &[String], separator: &str) -> (text: String)
    ensures
        text@ == joined(parts.deep_view(), separator@),
{
    let mut text = String::new();
    let mut i: usize = 0;
    while i < parts.len()
        invariant
            i <= parts@.len(),
            text@ == joined(parts.deep_view().take(i as int), separator@),
        decreases parts@.len() - i,
    {
        let ghost done = parts.deep_view().take(i as int);
        if i > 0 {
            text.append(separator);
        }
        text.append(parts[i].as_str());
        assert(parts.deep_view().take(i + 1).drop_last() =~= done);
        if i == 0 {
            assert(text@ =~= parts@[0]@);
        }
        i += 1;
    }
    assert(parts.deep_view().take(i as int) =~= parts.deep_view());
    text
}

/// `text` with each occurrence of `pattern` exchanged for `by`.
pub fn replace(text: &str, pattern: &str, by: &str) -> (result: String)
    ensures
        result@ == replaced(text@, pattern@, by@),
{
    join(&split(text, pattern), by)
}

/// How often `pattern` occurs in `text`.
pub fn count_in(text: &str, pattern: &str) -> (times: usize)
    ensures
        times == count(text@, pattern@),
        times < usize::MAX,
{
    let parts = split(text, pattern);
    assert(parts@.len() == parts.deep_view().len());
    assert(segments(text@, pattern@).len() > 0);
    parts.len() - 1
}

/// Whether `pattern` stands anywhere in `text`.
pub fn holds(text: &str, pattern: &str) -> (found: bool)
    ensures
        found == contains(text@, pattern@),
{
    find(&text::chars_of(text), &text::chars_of(pattern), 0).is_some()
}

} // verus!
