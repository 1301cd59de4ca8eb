//! Strings as sequences of characters: searching, splitting, ordering and slicing.
use crate::sort::Ranked;
use vstd::prelude::*;

verus! {

/// `String::push` appends one character.
pub assume_specification[ std::string::String::push ](string: &mut std::string::String, c: char)
    ensures
        final(string)@ == old(string)@.push(c),
;

/// The text that `str::to_lowercase` gives for `text`, by Unicode's case tables.
pub uninterp spec fn lowercase(text: Seq<char>) -> Seq<char>;

/// Calls `str::to_lowercase`; the result is named by `lowercase`.
#[verifier::external_body]
pub(crate) fn to_lowercase(text: &str) -> (lower: String)
    ensures
        lower@ == lowercase(text@),
{
    text.to_lowercase()
}

/// The text between double quotes, with what is not printable escaped, as `str` is formatted for
/// debugging.
pub uninterp spec fn quoted(text: Seq<char>) -> Seq<char>;

/// Formats a `str` by its `Debug`; the result is named by `quoted`.
#[verifier::external_body]
pub(crate) fn quote(text: &str) -> (result: String)
    ensures
        result@ == quoted(text@),
{
    format!("{:?}", text)
}

/// The characters of `text`.
pub fn chars_of(text: &str) -> (chars: Vec<char>)
    ensures
        chars@ == text@,
{
    let mut chars: Vec<char> = Vec::new();
    for c in iter: text.chars()
        invariant
            iter.seq() == text@,
            chars@ == text@.take(iter.index()),
    {
        chars.push(c);
        assert(text@.take(iter.index() + 1) =~= text@.take(iter.index()).push(c));
    }
    assert(text@.take(text@.len() as int) =~= text@);
    chars
}

/// The string that holds `chars[from..to]`.
pub fn string_of(chars: &[char], from: usize, to: usize) -> (text: String)
    requires
        from <= to <= chars@.len(),
    ensures
        text@ == chars@.subrange(from as int, to as int),
{
    let mut text = String::new();
    let mut i: usize = from;
    while i < to
        invariant
            from <= i <= to <= chars@.len(),
            text@ == chars@.subrange(from as int, i as int),
        decreases to - i,
    {
        text.push(chars[i]);
        assert(chars@.subrange(from as int, i + 1) =~= chars@.subrange(from as int, i as int).push(
            chars@[i as int],
        ));
        i += 1;
    }
    text
}

/// Whether `wanted` is one of `chars[from..to]`.
pub fn has_char(chars: &[char], from: usize, to: usize, wanted: char) -> (found: bool)
    requires
        from <= to <= chars@.len(),
    ensures
        found == chars@.subrange(from as int, to as int).contains(wanted),
{
    let ghost part = chars@.subrange(from as int, to as int);
    let mut i: usize = from;
    while i < to
        invariant
            from <= i <= to <= chars@.len(),
            part == chars@.subrange(from as int, to as int),
            forall|k: int| 0 <= k < i - from ==> part[k] != wanted,
        decreases to - i,
    {
        assert(part[i - from] == chars@[i as int]);
        if chars[i] == wanted {
            return true;
        }
        i += 1;
    }
    false
}

/// Whether one of `values` is `wanted`.
pub fn any_is(values: &[String], wanted: &str) -> (found: bool)
    ensures
        found == values.deep_view().contains(wanted@),
{
    let mut i: usize = 0;
    while i < values.len()
        invariant
            i <= values@.len(),
            forall|k: int| 0 <= k < i ==> values.deep_view()[k] != wanted@,
        decreases values@.len() - i,
    {
        assert(values.deep_view()[i as int] == values@[i as int]@);
        if same(values[i].as_str(), wanted) {
            return true;
        }
        i += 1;
    }
    false
}

/// A copy of a string, where there is one.
pub fn copy(string: &Option<String>) -> (copy: Option<String>)
    ensures
        copy == *string,
{
    match string {
        Some(string) => Some(string.clone()),
        None => None,
    }
}

/// Copies of strings.
pub fn copies(strings: &[String]) -> (copies: Vec<String>)
    ensures
        copies.deep_view() == strings.deep_view(),
{
    let mut copies: Vec<String> = Vec::new();
    let mut n: usize = 0;
    while n < strings.len()
        invariant
            n <= strings@.len(),
            copies@ == strings@.take(n as int),
        decreases strings@.len() - n,
    {
        copies.push(strings[n].clone());
        assert(strings@.take(n + 1) =~= strings@.take(n as int).push(strings@[n as int]));
        n += 1;
    }
    assert(strings@.take(n as int) =~= strings@);
    assert(copies.deep_view() =~= strings.deep_view());
    copies
}

/// The first `n` values without those that occurred before.
pub open spec fn distinct(values: Seq<Seq<char>>, n: int) -> Seq<Seq<char>>
    decreases n,
{
    if n <= 0 {
        Seq::empty()
    } else if distinct(values, n - 1).contains(values[n - 1]) {
        distinct(values, n - 1)
    } else {
        distinct(values, n - 1).push(values[n - 1])
    }
}

/// The strings without those that occurred before.
pub fn keep_distinct(values: &[String]) -> (kept: Vec<String>)
    ensures
        kept.deep_view() == distinct(values.deep_view(), values@.len() as int),
{
    let ghost all = values.deep_view();
    let mut kept: Vec<String> = Vec::new();
    assert(kept.deep_view() =~= Seq::<Seq<char>>::empty());
    let mut n: usize = 0;
    while n < values.len()
        invariant
            n <= values@.len(),
            all == values.deep_view(),
            kept.deep_view() == distinct(all, n as int),
        decreases values@.len() - n,
    {
        assert(all[n as int] == values@[n as int]@);
        if !any_is(&kept, values[n].as_str()) {
            let ghost before = kept.deep_view();
            kept.push(values[n].clone());
            assert(kept.deep_view() =~= before.push(all[n as int]));
        }
        n += 1;
    }
    kept
}

/// A string, where there is one, as a borrowed text.
pub fn borrowed(string: &Option<String>) -> (text: Option<&str>)
    ensures
        text.deep_view() == string.deep_view(),
{
    match string {
        Some(string) => Some(string.as_str()),
        None => None,
    }
}

/// An owned copy of a text, where there is one.
pub fn owned(text: Option<&str>) -> (copy: Option<String>)
    ensures
        copy.deep_view() == text.deep_view(),
{
    match text {
        Some(text) => Some(text.to_owned()),
        None => None,
    }
}

/// Whether two strings hold the same characters.
pub fn same(left: &str, right: &str) -> (equal: bool)
    ensures
        equal == (left@ == right@),
{
    let a = left.as_bytes();
    let b = right.as_bytes();
    proof {
        vstd::utf8::encode_utf8_decode_utf8(left@);
        vstd::utf8::encode_utf8_decode_utf8(right@);
    }
    if a.len() != b.len() {
        return false;
    }
    let mut i: usize = 0;
    while i < a.len()
        invariant
            i <= a@.len() == b@.len(),
            a@ == vstd::utf8::encode_utf8(left@),
            b@ == vstd::utf8::encode_utf8(right@),
            forall|k: int| 0 <= k < i ==> a@[k] == b@[k],
        decreases a@.len() - i,
    {
        if a[i] != b[i] {
            return false;
        }
        i += 1;
    }
    assert(a@ =~= b@);
    true
}

/// Where two sequences first differ, with `a` the smaller one there: `a` ends, or holds the
/// smaller character.
pub open spec fn smaller_at(a: Seq<char>, b: Seq<char>, k: int) -> bool {
    &&& 0 <= k <= a.len()
    &&& k < b.len()
    &&& a.take(k) == b.take(k)
    &&& k == a.len() || a[k] < b[k]
}

/// The order of strings: by code points, a proper prefix first.
pub open spec fn precedes(a: Seq<char>, b: Seq<char>) -> bool {
    exists|k: int| smaller_at(a, b, k)
}

/// Whether `left` comes before `right`.
pub fn less(left: &str, right: &str) -> (before: bool)
    ensures
        before == precedes(left@, right@),
{
    let mut a = left.chars();
    let mut b = right.chars();
    let ghost mut k: int = 0;
    loop
        invariant
            vstd::std_specs::iter::IteratorSpec::obeys_prophetic_iter_laws(&a),
            vstd::std_specs::iter::IteratorSpec::obeys_prophetic_iter_laws(&b),
            0 <= k <= left@.len(),
            k <= right@.len(),
            vstd::std_specs::iter::IteratorSpec::remaining(&a) == left@.skip(k),
            vstd::std_specs::iter::IteratorSpec::remaining(&b) == right@.skip(k),
            left@.take(k) == right@.take(k),
        decreases left@.len() - k,
    {
        let x = a.next();
        let y = b.next();
        match (x, y) {
            (_, None) => {
                assert(!precedes(left@, right@)) by {
                    assert forall|j: int| !smaller_at(left@, right@, j) by {
                        if smaller_at(left@, right@, j) {
                            assert(left@.take(k)[j] == right@.take(k)[j]);
                        }
                    }
                }
                return false;
            },
            (None, Some(_)) => {
                assert(smaller_at(left@, right@, k));
                return true;
            },
            (Some(c), Some(d)) => {
                assert(c == left@[k] && d == right@[k]);
                if c != d {
                    assert(precedes(left@, right@) == (c < d)) by {
                        if c < d {
                            assert(smaller_at(left@, right@, k));
                        }
                        assert forall|j: int| d < c implies !smaller_at(left@, right@, j) by {
                            if smaller_at(left@, right@, j) {
                                if j < k {
                                    assert(left@.take(k)[j] == right@.take(k)[j]);
                                } else if j > k {
                                    assert(left@.take(j)[k] == right@.take(j)[k]);
                                }
                            }
                        }
                    }
                    return c < d;
                }
                assert(left@.take(k + 1) =~= left@.take(k).push(c));
                assert(right@.take(k + 1) =~= right@.take(k).push(d));
                assert(left@.skip(k).drop_first() =~= left@.skip(k + 1));
                assert(right@.skip(k).drop_first() =~= right@.skip(k + 1));
                proof {
                    k = k + 1;
                }
            },
        }
    }
}

impl Ranked for String {
    open spec fn ahead(first: Seq<char>, second: Seq<char>) -> bool {
        precedes(first, second)
    }

    proof fn ahead_one_way(first: Seq<char>, second: Seq<char>) {
        precedes_total(first, second);
    }

    proof fn ahead_through(first: Seq<char>, second: Seq<char>, third: Seq<char>) {
        precedes_total(first, second);
        precedes_total(second, third);
        precedes_total(first, third);
        if precedes(first, second) && precedes(second, third) {
            precedes_transitive(first, second, third);
        }
    }

    fn is_ahead(&self, other: &Self) -> (found: bool) {
        less(self.as_str(), other.as_str())
    }
}

/// No string comes before itself.
pub proof fn precedes_irreflexive(a: Seq<char>)
    ensures
        !precedes(a, a),
{
}

/// Of two different strings one comes before the other, and not both.
pub proof fn precedes_total(a: Seq<char>, b: Seq<char>)
    ensures
        precedes(a, b) || precedes(b, a) || a == b,
        !(precedes(a, b) && precedes(b, a)),
{
    if precedes(a, b) && precedes(b, a) {
        let j = choose|j: int| smaller_at(a, b, j);
        let k = choose|k: int| smaller_at(b, a, k);
        if j < k {
            assert(b.take(k)[j] == a.take(k)[j]);
        } else if k < j {
            assert(a.take(j)[k] == b.take(j)[k]);
        }
    }
    assert(a.take(0) =~= b.take(0));
    first_difference(a, b, 0);
}

proof fn first_difference(a: Seq<char>, b: Seq<char>, k: int)
    requires
        0 <= k <= a.len(),
        k <= b.len(),
        a.take(k) == b.take(k),
    ensures
        precedes(a, b) || precedes(b, a) || a == b,
    decreases a.len() - k,
{
    if k == a.len() {
        if k < b.len() {
            assert(smaller_at(a, b, k));
        } else {
            assert(a.take(k) =~= a);
            assert(b.take(k) =~= b);
        }
    } else if k == b.len() {
        assert(smaller_at(b, a, k));
    } else if a[k] == b[k] {
        assert(a.take(k + 1) =~= a.take(k).push(a[k]));
        assert(b.take(k + 1) =~= b.take(k).push(b[k]));
        first_difference(a, b, k + 1);
    } else if a[k] < b[k] {
        assert(smaller_at(a, b, k));
    } else {
        assert(smaller_at(b, a, k));
    }
}

/// The order of strings is transitive.
pub proof fn precedes_transitive(a: Seq<char>, b: Seq<char>, c: Seq<char>)
    requires
        precedes(a, b),
        precedes(b, c),
    ensures
        precedes(a, c),
{
    let j = choose|j: int| smaller_at(a, b, j);
    let k = choose|k: int| smaller_at(b, c, k);
    let m = if j < k { j } else { k };
    assert(a.take(m) =~= a.take(j).take(m));
    assert(b.take(m) =~= b.take(j).take(m));
    assert(b.take(m) =~= b.take(k).take(m));
    assert(c.take(m) =~= c.take(k).take(m));
    if j < k {
        assert(b.take(k)[j] == c.take(k)[j]);
    } else if k < j {
        assert(a.take(j)[k] == b.take(j)[k]);
    }
    assert(smaller_at(a, c, m));
}

/// How many bytes `text` takes in UTF-8.
pub open spec fn byte_len(text: Seq<char>) -> nat {
    vstd::utf8::encode_utf8(text).len()
}

/// How many bytes `c` takes in UTF-8.
pub open spec fn width(c: char) -> nat {
    let code = c as u32;
    if code < 0x80 {
        1
    } else if code < 0x800 {
        2
    } else if code < 0x10000 {
        3
    } else {
        4
    }
}

/// The index of the character that starts at byte `offset`, or the length of `text` where
/// `offset` is its end; nothing inside of a character or past the end.
pub open spec fn index_at(text: Seq<char>, offset: int) -> Option<int>
    decreases text.len(),
{
    if offset == 0 {
        Some(0)
    } else if offset < 0 || text.len() == 0 {
        None
    } else {
        match index_at(text.drop_first(), offset - width(text[0])) {
            Some(i) => Some(i + 1),
            None => None,
        }
    }
}

/// The part of `text` between two byte offsets, where both are character boundaries in order.
pub open spec fn byte_slice(text: Seq<char>, start: int, end: int) -> Option<Seq<char>> {
    match (index_at(text, start), index_at(text, end)) {
        (Some(i), Some(j)) => if i <= j {
            Some(text.subrange(i, j))
        } else {
            None
        },
        _ => None,
    }
}

/// How many bytes `text` takes in UTF-8.
pub fn size(text: &str) -> (bytes: usize)
    ensures
        bytes == byte_len(text@),
{
    text.as_bytes().len()
}

pub proof fn lemma_encode_first(text: Seq<char>)
    requires
        text.len() > 0,
    ensures
        byte_len(text) == width(text[0]) + byte_len(text.drop_first()),
        vstd::utf8::encode_utf8(text) == vstd::utf8::encode_utf8(seq![text[0]])
            + vstd::utf8::encode_utf8(text.drop_first()),
        byte_len(seq![text[0]]) == width(text[0]),
{
    let one = seq![text[0]];
    assert(one.drop_first() =~= Seq::<char>::empty());
    reveal_with_fuel(vstd::utf8::encode_utf8, 2);
    vstd::utf8::char_is_scalar(text[0]);
    assert(vstd::utf8::encode_utf8(one) =~= vstd::utf8::encode_scalar(text[0] as u32));
}

pub proof fn lemma_encode_add(a: Seq<char>, b: Seq<char>)
    ensures
        byte_len(a + b) == byte_len(a) + byte_len(b),
        vstd::utf8::encode_utf8(a + b) == vstd::utf8::encode_utf8(a) + vstd::utf8::encode_utf8(b),
    decreases a.len(),
{
    if a.len() == 0 {
        assert(a + b =~= b);
        assert(vstd::utf8::encode_utf8(a) =~= Seq::<u8>::empty());
        assert(vstd::utf8::encode_utf8(a) + vstd::utf8::encode_utf8(b)
            =~= vstd::utf8::encode_utf8(b));
    } else {
        assert((a + b).drop_first() =~= a.drop_first() + b);
        lemma_encode_first(a);
        lemma_encode_first(a + b);
        lemma_encode_add(a.drop_first(), b);
        assert(vstd::utf8::encode_utf8(a + b) =~= vstd::utf8::encode_utf8(a)
            + vstd::utf8::encode_utf8(b));
    }
}

pub proof fn lemma_byte_len_push(text: Seq<char>, c: char)
    ensures
        byte_len(text.push(c)) == byte_len(text) + width(c),
{
    let one = seq![c];
    lemma_encode_first(one);
    assert(text.push(c) =~= text + one);
    lemma_encode_add(text, one);
}

/// Longer prefixes take more bytes.
pub proof fn lemma_byte_len_take(text: Seq<char>, i: int, j: int)
    requires
        0 <= i <= j <= text.len(),
    ensures
        byte_len(text.take(i)) + (j - i) <= byte_len(text.take(j)),
        byte_len(text.take(j)) <= byte_len(text),
    decreases j - i,
{
    assert(text =~= text.take(j) + text.skip(j));
    lemma_encode_add(text.take(j), text.skip(j));
    if i < j {
        assert(text.take(j) =~= text.take(j - 1).push(text[j - 1]));
        lemma_byte_len_push(text.take(j - 1), text[j - 1]);
        lemma_byte_len_take(text, i, j - 1);
    }
}

/// `index_at` picks the prefix that takes `offset` bytes.
pub proof fn lemma_index_at(text: Seq<char>, offset: int)
    ensures
        index_at(text, offset) matches Some(i) ==> 0 <= i <= text.len() && byte_len(text.take(i))
            == offset,
        index_at(text, offset) is None ==> forall|i: int|
            0 <= i <= text.len() ==> byte_len(#[trigger] text.take(i)) != offset,
    decreases text.len(),
{
    assert(text.take(0) =~= Seq::<char>::empty());
    assert(byte_len(text.take(0)) == 0);
    if offset == 0 {
    } else if text.len() > 0 {
        let tail = text.drop_first();
        lemma_index_at(tail, offset - width(text[0]));
        assert forall|i: int| 0 < i <= text.len() implies byte_len(#[trigger] text.take(i)) == width(
            text[0],
        ) + byte_len(tail.take(i - 1)) by {
            assert(text.take(i).drop_first() =~= tail.take(i - 1));
            lemma_encode_first(text.take(i));
        }
    }
}

/// At the end of a prefix, `index_at` gives the length of the prefix.
pub proof fn lemma_index_of_prefix(text: Seq<char>, i: int)
    requires
        0 <= i <= text.len(),
    ensures
        index_at(text, byte_len(text.take(i)) as int) == Some(i),
{
    let offset = byte_len(text.take(i)) as int;
    lemma_index_at(text, offset);
    let found = index_at(text, offset);
    assert(found is Some);
    let j = found->0;
    if i < j {
        lemma_byte_len_take(text, i, j);
    } else if j < i {
        lemma_byte_len_take(text, j, i);
    }
}

proof fn lemma_boundary(text: Seq<char>, offset: int)
    ensures
        vstd::utf8::is_char_boundary(vstd::utf8::encode_utf8(text), offset) == (index_at(
            text,
            offset,
        ) is Some),
    decreases text.len(),
{
    let bytes = vstd::utf8::encode_utf8(text);
    vstd::utf8::encode_utf8_valid_utf8(text);
    if text.len() == 0 {
        assert(bytes.len() == 0);
    } else if offset > 0 {
        vstd::utf8::encode_utf8_first_scalar(text);
        vstd::utf8::char_is_scalar(text[0]);
        assert(vstd::utf8::pop_first_scalar(bytes) =~= vstd::utf8::encode_utf8(text.drop_first()));
        assert(vstd::utf8::length_of_first_scalar(bytes) == width(text[0]));
        lemma_encode_first(text);
        lemma_boundary(text.drop_first(), offset - width(text[0]));
        if offset > bytes.len() {
            lemma_index_at(text, offset);
            if index_at(text, offset) is Some {
                lemma_byte_len_take(text, index_at(text, offset)->0, text.len() as int);
                assert(text.take(text.len() as int) =~= text);
            }
        }
    }
}

/// The part of `text` between two byte offsets.
pub fn slice(text: &str, start: usize, end: usize) -> (part: Option<&str>)
    ensures
        part.deep_view() == byte_slice(text@, start as int, end as int),
{
    proof {
        lemma_boundary(text@, start as int);
        lemma_boundary(text@, end as int);
        lemma_index_at(text@, start as int);
        lemma_index_at(text@, end as int);
    }
    if start > end || !text.is_char_boundary(start) || !text.is_char_boundary(end) {
        proof {
            if let (Some(i), Some(j)) = (index_at(text@, start as int), index_at(text@, end as int)) {
                if i <= j {
                    lemma_byte_len_take(text@, i, j);
                }
            }
        }
        return None;
    }
    let ghost i = index_at(text@, start as int)->0;
    let ghost j = index_at(text@, end as int)->0;
    let (before, rest) = text.split_at(end);
    proof {
        if j < i {
            lemma_byte_len_take(text@, j, i);
        }
        lemma_same_bytes(text@, before@, j);
        lemma_index_of_prefix(before@, i);
        assert(before@.take(i) =~= text@.take(i));
        lemma_boundary(before@, start as int);
    }
    let (skipped, part) = before.split_at(start);
    proof {
        let wanted = text@.subrange(i, j);
        assert(before@ =~= text@.take(i) + wanted);
        lemma_encode_add(text@.take(i), wanted);
        assert(vstd::utf8::encode_utf8(part@) =~= vstd::utf8::encode_utf8(wanted));
        vstd::utf8::encode_utf8_decode_utf8(wanted);
        vstd::utf8::encode_utf8_decode_utf8(part@);
    }
    Some(part)
}

proof fn lemma_same_bytes(text: Seq<char>, front: Seq<char>, j: int)
    requires
        0 <= j <= text.len(),
        vstd::utf8::encode_utf8(front) == vstd::utf8::encode_utf8(text).subrange(
            0,
            byte_len(text.take(j)) as int,
        ),
    ensures
        front == text.take(j),
{
    assert(text =~= text.take(j) + text.skip(j));
    lemma_encode_add(text.take(j), text.skip(j));
    assert(vstd::utf8::encode_utf8(front) =~= vstd::utf8::encode_utf8(text.take(j)));
    vstd::utf8::encode_utf8_decode_utf8(text.take(j));
    vstd::utf8::encode_utf8_decode_utf8(front);
}

} // verus!
