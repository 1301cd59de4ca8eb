//! Lines of a text, and positions in UTF-16 code units as editors count them.
use crate::text;
use vstd::prelude::*;

verus! {

/// How many UTF-16 code units `c` takes.
pub open spec fn unit(c: char) -> nat {
    if (c as u32) < 0x10000 {
        1
    } else {
        2
    }
}

/// How many UTF-16 code units `line` takes.
pub open spec fn units(line: Seq<char>) -> nat
    decreases line.len(),
{
    if line.len() == 0 {
        0
    } else {
        units(line.drop_last()) + unit(line.last())
    }
}

/// The index of the character that starts at unit `column`, or the length of `line` where
/// `column` is its end; nothing inside of a character or past the end.
pub open spec fn unit_index(line: Seq<char>, column: int) -> Option<int>
    decreases line.len(),
{
    if column == 0 {
        Some(0)
    } else if column < 0 || line.len() == 0 {
        None
    } else {
        match unit_index(line.drop_first(), column - unit(line[0])) {
            Some(i) => Some(i + 1),
            None => None,
        }
    }
}

/// The byte offsets at which lines start within the first `n` characters of `text`: 0, and after
/// each line feed.
pub open spec fn starts_within(text: Seq<char>, n: int) -> Seq<usize>
    decreases n,
{
    if n <= 0 {
        seq![0usize]
    } else if text[n - 1] == '\n' {
        starts_within(text, n - 1).push(text::byte_len(text.take(n)) as usize)
    } else {
        starts_within(text, n - 1)
    }
}

/// The byte offsets at which the lines of `text` start.
pub open spec fn line_starts(text: Seq<char>) -> Seq<usize> {
    starts_within(text, text.len() as int)
}

/// Whether these can be the starts of lines: 0 first, and then ever later ones.
pub open spec fn are_starts(starts: Seq<usize>) -> bool {
    &&& starts.len() > 0
    &&& starts[0] == 0
    &&& forall|i: int, j: int| 0 <= i < j < starts.len() ==> starts[i] < starts[j]
}

/// Where the line ends in a text of `size` bytes: where the next one starts, or with the text.
pub open spec fn line_end(starts: Seq<usize>, size: nat, line: int) -> int {
    if line + 1 < starts.len() {
        starts[line + 1] as int
    } else {
        size as int
    }
}

/// The last of the first `n` lines that starts at or before `offset`.
pub open spec fn line_of(starts: Seq<usize>, n: int, offset: int) -> int
    decreases n,
{
    if n <= 1 {
        0
    } else if starts[n - 1] <= offset {
        n - 1
    } else {
        line_of(starts, n - 1, offset)
    }
}

/// The offset of a position.
pub open spec fn offset_of(starts: Seq<usize>, text: Seq<char>, line: int, column: int) -> Option<
    int,
> {
    if line < 0 || line >= starts.len() {
        None
    } else {
        match text::byte_slice(
            text,
            starts[line] as int,
            line_end(starts, text::byte_len(text), line),
        ) {
            None => None,
            Some(part) => match unit_index(part, column) {
                None => None,
                Some(i) => Some(starts[line] + text::byte_len(part.take(i))),
            },
        }
    }
}

/// The position of an offset.
pub open spec fn position_of(starts: Seq<usize>, text: Seq<char>, offset: int) -> Option<
    (int, int),
> {
    if text::index_at(text, offset) is None {
        None
    } else {
        let line = line_of(starts, starts.len() as int, offset);
        match text::byte_slice(text, starts[line] as int, offset) {
            None => None,
            Some(part) => Some((line, units(part) as int)),
        }
    }
}

/// Where the lines of a text start.
#[derive(Debug)]
pub struct LineIndex {
    line_starts: Vec<usize>,
}

impl View for LineIndex {
    type V = Seq<usize>;

    closed spec fn view(&self) -> Seq<usize> {
        self.line_starts@
    }
}

impl LineIndex {
    #[verifier::type_invariant]
    closed spec fn in_order(&self) -> bool {
        are_starts(self.line_starts@)
    }

    /// The lines of `text`.
    pub fn new(text: &str) -> (index: Self)
        ensures
            index@ == line_starts(text@),
    {
        let total: usize = text::size(text);
        let mut starts: Vec<usize> = Vec::new();
        starts.push(0);
        let mut at: usize = 0;
        assert(starts@ =~= starts_within(text@, 0));
        assert(text@.take(0) =~= Seq::<char>::empty());
        for c in iter: text.chars()
            invariant
                iter.seq() == text@,
                total == text::byte_len(text@),
                at == text::byte_len(text@.take(iter.index())),
                starts@ == starts_within(text@, iter.index()),
                are_starts(starts@),
                starts@.last() <= at,
        {
            let ghost n = iter.index();
            assert(text@.take(n + 1) =~= text@.take(n).push(c));
            proof {
                text::lemma_byte_len_push(text@.take(n), c);
                text::lemma_byte_len_take(text@, n + 1, n + 1);
            }
            at += char_width(c);
            if c == '\n' {
                starts.push(at);
            }
        }
        LineIndex { line_starts: starts }
    }

    /// The offset in `text` of the position, where there is one.
    pub fn offset(&self, text: &str, line: u32, utf16_column: u32) -> (offset: Option<usize>)
        requires
            line < self@.len() ==> text::byte_slice(
                text@,
                self@[line as int] as int,
                line_end(self@, text::byte_len(text@), line as int),
            ) is Some,
        ensures
            match offset {
                Some(offset) => offset_of(self@, text@, line as int, utf16_column as int) == Some(
                    offset as int,
                ),
                None => offset_of(self@, text@, line as int, utf16_column as int) is None,
            },
    {
        let n: usize = self.line_starts.len();
        if line as u64 >= n as u64 {
            return None;
        }
        let row: usize = line as usize;
        let start: usize = self.line_starts[row];
        let end: usize = if row < n - 1 {
            self.line_starts[row + 1]
        } else {
            text::size(text)
        };
        let part = match text::slice(text, start, end) {
            Some(part) => part,
            None => {
                return None;
            },
        };
        let ghost column = utf16_column as int;
        let ghost s = part@;
        let total: usize = text::size(part);
        proof {
            lemma_slice_size(text@, start as int, end as int);
        }
        assert(start + total == end);
        let mut units_seen: u64 = 0;
        let mut at: usize = 0;
        assert(s.take(0) =~= Seq::<char>::empty());
        assert(s.skip(0) =~= s);
        for c in iter: part.chars()
            invariant
                iter.seq() == s,
                s == part@,
                text::byte_slice(text@, start as int, end as int) == Some(s),
                row == line,
                start == self@[row as int],
                row < self@.len(),
                end == line_end(self@, text::byte_len(text@), row as int),
                column == utf16_column,
                total == text::byte_len(s),
                start + total == end,
                units_seen <= utf16_column,
                at == text::byte_len(s.take(iter.index())),
                (unit_index(s, column) is Some) == (unit_index(
                    s.skip(iter.index()),
                    column - units_seen,
                ) is Some),
                unit_index(s, column) matches Some(i) ==> unit_index(
                    s.skip(iter.index()),
                    column - units_seen,
                ) == Some(i - iter.index()),
        {
            let ghost k = iter.index();
            proof {
                text::lemma_byte_len_take(s, k, k);
                text::lemma_byte_len_take(s, k + 1, k + 1);
                assert(s.take(k + 1) =~= s.take(k).push(c));
                text::lemma_byte_len_push(s.take(k), c);
            }
            if units_seen == utf16_column as u64 {
                return Some(start + at);
            }
            assert(s.skip(k).drop_first() =~= s.skip(k + 1));
            assert(s.skip(k)[0] == c);
            units_seen += char_units(c);
            if units_seen > utf16_column as u64 {
                return None;
            }
            at += char_width(c);
        }
        assert(s.take(s.len() as int) =~= s);
        if units_seen == utf16_column as u64 {
            Some(end)
        } else {
            None
        }
    }

    /// The line and the UTF-16 column of an offset in `text`, both cut to 32 bits.
    pub fn position(&self, text: &str, offset: usize) -> (position: Option<(u32, u32)>)
        requires
            text::index_at(text@, offset as int) is Some ==> text::byte_slice(
                text@,
                self@[line_of(self@, self@.len() as int, offset as int)] as int,
                offset as int,
            ) is Some,
        ensures
            match position {
                Some((line, column)) => position_of(self@, text@, offset as int) matches Some(
                    (whole_line, whole_column),
                ) && line == whole_line as u32 && column == whole_column as u32,
                None => position_of(self@, text@, offset as int) is None,
            },
    {
        proof {
            use_type_invariant(self);
        }
        let front = match text::slice(text, 0, offset) {
            Some(front) => front,
            None => {
                assert(text::index_at(text@, 0) == Some(0int));
                assert(text::index_at(text@, offset as int) is None) by {
                    text::lemma_index_at(text@, offset as int);
                }
                return None;
            },
        };
        let mut n: usize = self.line_starts.len();
        while n > 1 && self.line_starts[n - 1] > offset
            invariant
                1 <= n <= self@.len(),
                line_of(self@, self@.len() as int, offset as int) == line_of(
                    self@,
                    n as int,
                    offset as int,
                ),
            decreases n,
        {
            n -= 1;
        }
        let line: usize = n - 1;
        let start: usize = self.line_starts[line];
        let part = match text::slice(text, start, offset) {
            Some(part) => part,
            None => {
                return None;
            },
        };
        let count: usize = utf16_len(part);
        Some((#[verifier::truncate] (line as u32), #[verifier::truncate] (count as u32)))
    }
}

/// How many bytes `c` takes in UTF-8.
fn char_width(c: char) -> (width: usize)
    ensures
        width == text::width(c),
        1 <= width <= 4,
{
    let code: u32 = c as u32;
    if code < 0x80 {
        1
    } else if code < 0x800 {
        2
    } else if code < 0x10000 {
        3
    } else {
        4
    }
}

/// How many UTF-16 code units `c` takes.
fn char_units(c: char) -> (count: u64)
    ensures
        count == unit(c),
{
    if (c as u32) < 0x10000 {
        1
    } else {
        2
    }
}

/// How many UTF-16 code units `text` takes.
fn utf16_len(text: &str) -> (count: usize)
    ensures
        count == units(text@),
{
    let total: usize = text::size(text);
    let mut count: usize = 0;
    assert(text@.take(0) =~= Seq::<char>::empty());
    for c in iter: text.chars()
        invariant
            iter.seq() == text@,
            total == text::byte_len(text@),
            count == units(text@.take(iter.index())),
            count <= text::byte_len(text@.take(iter.index())),
    {
        let ghost n = iter.index();
        assert(text@.take(n + 1) =~= text@.take(n).push(c));
        assert(text@.take(n + 1).drop_last() =~= text@.take(n));
        proof {
            text::lemma_byte_len_push(text@.take(n), c);
            text::lemma_byte_len_take(text@, n + 1, n + 1);
        }
        if (c as u32) < 0x10000 {
            count += 1;
        } else {
            count += 2;
        }
    }
    assert(text@.take(text@.len() as int) =~= text@);
    count
}

pub proof fn lemma_slice_size(text: Seq<char>, start: int, end: int)
    ensures
        text::byte_slice(text, start, end) matches Some(part) ==> start + text::byte_len(part)
            == end,
{
    text::lemma_index_at(text, start);
    text::lemma_index_at(text, end);
    if let Some(part) = text::byte_slice(text, start, end) {
        let i = text::index_at(text, start)->0;
        let j = text::index_at(text, end)->0;
        assert(text.take(j) =~= text.take(i) + part);
        text::lemma_encode_add(text.take(i), part);
    }
}

proof fn lemma_units_first(line: Seq<char>)
    requires
        line.len() > 0,
    ensures
        units(line) == unit(line[0]) + units(line.drop_first()),
    decreases line.len(),
{
    if line.len() == 1 {
        assert(line.drop_last() =~= Seq::<char>::empty());
        assert(line.drop_first() =~= Seq::<char>::empty());
    } else {
        lemma_units_first(line.drop_last());
        assert(line.drop_last().drop_first() =~= line.drop_first().drop_last());
    }
}

proof fn lemma_unit_index(line: Seq<char>, i: int)
    requires
        0 <= i <= line.len(),
    ensures
        unit_index(line, units(line.take(i)) as int) == Some(i),
    decreases i,
{
    if i == 0 {
        assert(line.take(0) =~= Seq::<char>::empty());
    } else {
        lemma_units_first(line.take(i));
        assert(line.take(i).drop_first() =~= line.drop_first().take(i - 1));
        lemma_unit_index(line.drop_first(), i - 1);
    }
}

proof fn lemma_line_of(starts: Seq<usize>, n: int, offset: int)
    requires
        are_starts(starts),
        1 <= n <= starts.len(),
        0 <= offset,
    ensures
        0 <= line_of(starts, n, offset) < n,
        starts[line_of(starts, n, offset)] <= offset,
        line_of(starts, n, offset) + 1 < n ==> offset < starts[line_of(starts, n, offset) + 1],
    decreases n,
{
    if n > 1 && starts[n - 1] > offset {
        lemma_line_of(starts, n - 1, offset);
    }
}

proof fn lemma_starts_within(text: Seq<char>, n: int)
    requires
        0 <= n <= text.len(),
        text::byte_len(text) <= usize::MAX,
    ensures
        are_starts(starts_within(text, n)),
        starts_within(text, n).last() <= text::byte_len(text.take(n)),
        forall|k: int|
            0 <= k < starts_within(text, n).len() ==> text::index_at(
                text,
                #[trigger] starts_within(text, n)[k] as int,
            ) is Some,
    decreases n,
{
    if n > 0 {
        lemma_starts_within(text, n - 1);
        text::lemma_byte_len_take(text, n - 1, n);
        text::lemma_index_of_prefix(text, n);
    }
}

/// The lines of a text start at character boundaries of it, in order.
pub proof fn line_starts_fit(text: Seq<char>)
    requires
        text::byte_len(text) <= usize::MAX,
    ensures
        are_starts(line_starts(text)),
        forall|k: int|
            0 <= k < line_starts(text).len() ==> text::index_at(
                text,
                #[trigger] line_starts(text)[k] as int,
            ) is Some,
{
    lemma_starts_within(text, text.len() as int);
}

/// Every character boundary of a text has a position, and the position has that offset.
pub proof fn position_and_back(text: Seq<char>, offset: int)
    requires
        text::byte_len(text) <= usize::MAX,
        text::index_at(text, offset) is Some,
    ensures
        position_of(line_starts(text), text, offset) matches Some((line, column)) && offset_of(
            line_starts(text),
            text,
            line,
            column,
        ) == Some(offset),
{
    let starts = line_starts(text);
    line_starts_fit(text);
    text::lemma_index_at(text, offset);
    lemma_line_of(starts, starts.len() as int, offset);
    let line = line_of(starts, starts.len() as int, offset);
    let end = line_end(starts, text::byte_len(text), line);
    text::lemma_index_at(text, starts[line] as int);
    text::lemma_index_at(text, end);
    text::lemma_index_of_prefix(text, text.len() as int);
    assert(text.take(text.len() as int) =~= text);
    let i = text::index_at(text, starts[line] as int)->0;
    let o = text::index_at(text, offset)->0;
    let e = text::index_at(text, end)->0;
    if o < i {
        text::lemma_byte_len_take(text, o, i);
    }
    text::lemma_byte_len_take(text, o, o);
    if e < o {
        text::lemma_byte_len_take(text, e, o);
    }
    let part = text.subrange(i, e);
    assert(part.take(o - i) =~= text.subrange(i, o));
    lemma_unit_index(part, o - i);
    assert(text.take(o) =~= text.take(i) + text.subrange(i, o));
    text::lemma_encode_add(text.take(i), text.subrange(i, o));
}

/// Every line of a text is a part of it.
pub proof fn lines_fit(text: Seq<char>, line: int)
    requires
        text::byte_len(text) <= usize::MAX,
        0 <= line < line_starts(text).len(),
    ensures
        text::byte_slice(
            text,
            line_starts(text)[line] as int,
            line_end(line_starts(text), text::byte_len(text), line),
        ) is Some,
{
    let starts = line_starts(text);
    line_starts_fit(text);
    let end = line_end(starts, text::byte_len(text), line);
    text::lemma_index_of_prefix(text, text.len() as int);
    assert(text.take(text.len() as int) =~= text);
    text::lemma_index_at(text, starts[line] as int);
    text::lemma_index_at(text, end);
    let i = text::index_at(text, starts[line] as int)->0;
    let e = text::index_at(text, end)->0;
    if e < i {
        text::lemma_byte_len_take(text, e, i);
        text::lemma_byte_len_take(text, i, i);
    }
}

proof fn lemma_units_size(line: Seq<char>)
    ensures
        units(line) <= text::byte_len(line),
    decreases line.len(),
{
    if line.len() > 0 {
        lemma_units_size(line.drop_last());
        text::lemma_byte_len_push(line.drop_last(), line.last());
        assert(line.drop_last().push(line.last()) =~= line);
    }
}

proof fn lemma_starts_count(text: Seq<char>, n: int)
    requires
        0 <= n,
    ensures
        starts_within(text, n).len() <= n + 1,
    decreases n,
{
    if n > 0 {
        lemma_starts_count(text, n - 1);
    }
}

/// Neither the line nor the column of a position is greater than the size of the text.
pub proof fn positions_are_small(text: Seq<char>, offset: int)
    requires
        text::byte_len(text) <= usize::MAX,
    ensures
        position_of(line_starts(text), text, offset) matches Some((line, column)) ==> 0 <= line
            <= text::byte_len(text) && 0 <= column <= text::byte_len(text),
{
    let starts = line_starts(text);
    text::lemma_index_at(text, offset);
    if text::index_at(text, offset) is Some {
        line_starts_fit(text);
        lemma_line_of(starts, starts.len() as int, offset);
        lemma_starts_count(text, text.len() as int);
        text::lemma_byte_len_take(text, 0, text.len() as int);
        assert(text.take(text.len() as int) =~= text);
        let line = line_of(starts, starts.len() as int, offset);
        if let Some(part) = text::byte_slice(text, starts[line] as int, offset) {
            lemma_slice_size(text, starts[line] as int, offset);
            lemma_units_size(part);
            let j = text::index_at(text, offset)->0;
            text::lemma_byte_len_take(text, j, j);
        }
    }
}

} // verus!
