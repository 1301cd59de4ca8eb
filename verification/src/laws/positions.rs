//! Where a position is in a text, and what a change there does.
use crate::edit;
use crate::line_index;
use crate::position;
use crate::text;
use vstd::prelude::*;

verus! {

/// How many line feeds a text holds.
pub open spec fn feeds(text: Seq<char>) -> nat {
    text.filter(|c: char| c == '\n').len()
}

proof fn lemma_feeds(text: Seq<char>, c: char)
    ensures
        feeds(text.push(c)) == feeds(text) + if c == '\n' {
            1nat
        } else {
            0nat
        },
{
    reveal(Seq::filter);
    assert(text.push(c).drop_last() =~= text);
}

proof fn lemma_starts(text: Seq<char>, n: int)
    requires
        0 <= n <= text.len(),
        text::byte_len(text) <= usize::MAX,
    ensures
        line_index::starts_within(text, n).len() == feeds(text.take(n)) + 1,
        n == 0 || text[n - 1] == '\n' ==> line_index::starts_within(text, n).last()
            == text::byte_len(text.take(n)),
    decreases n,
{
    if n <= 0 {
        reveal(Seq::filter);
        assert(text.take(0) =~= Seq::<char>::empty());
        assert(text.take(0).filter(|c: char| c == '\n') =~= Seq::<char>::empty());
        assert(text::byte_len(text.take(0)) == 0);
    } else {
        lemma_starts(text, n - 1);
        lemma_feeds(text.take(n - 1), text[n - 1]);
        assert(text.take(n) =~= text.take(n - 1).push(text[n - 1]));
        text::lemma_byte_len_take(text, n, n);
    }
}

proof fn lemma_more_starts(text: Seq<char>, k: int, n: int)
    requires
        0 <= k <= n <= text.len(),
        text::byte_len(text) <= usize::MAX,
    ensures
        ({
            let few = line_index::starts_within(text, k);
            let many = line_index::starts_within(text, n);
            &&& few.len() <= many.len()
            &&& forall|i: int| 0 <= i < few.len() ==> many[i] == few[i]
            &&& forall|i: int|
                few.len() <= i < many.len() ==> #[trigger] many[i] > text::byte_len(text.take(k))
        }),
    decreases n - k,
{
    if k < n {
        lemma_more_starts(text, k, n - 1);
        text::lemma_byte_len_take(text, k, n);
    }
}

proof fn lemma_same_starts(text: Seq<char>, k: int, n: int)
    requires
        0 <= k <= n <= text.len(),
        forall|i: int| k <= i < n ==> #[trigger] text[i] != '\n',
    ensures
        line_index::starts_within(text, n) == line_index::starts_within(text, k),
    decreases n - k,
{
    if k < n {
        lemma_same_starts(text, k, n - 1);
    }
}

proof fn lemma_line_of(starts: Seq<usize>, n: int, offset: int, m: int)
    requires
        0 <= m < n <= starts.len(),
        m == 0 || starts[m] <= offset,
        forall|j: int| m < j < n ==> #[trigger] starts[j] > offset,
    ensures
        line_index::line_of(starts, n, offset) == m,
    decreases n,
{
    if m < n - 1 {
        lemma_line_of(starts, n - 1, offset, m);
    }
}

/// The line of a place is the number of line feeds before it, and its column the number of UTF-16
/// code units behind the last of these.
pub proof fn positions_count_lines_and_units(lead: Seq<char>, line: Seq<char>, back: Seq<char>)
    requires
        lead.len() == 0 || lead.last() == '\n',
        !line.contains('\n'),
        text::byte_len(lead + line + back) <= usize::MAX,
    ensures
        ({
            let text = lead + line + back;
            line_index::position_of(
                line_index::line_starts(text),
                text,
                text::byte_len(lead + line) as int,
            ) == Some((feeds(lead) as int, line_index::units(line) as int))
        }),
{
    let text = lead + line + back;
    let front = lead + line;
    let k = lead.len() as int;
    let m = front.len() as int;
    let offset = text::byte_len(front) as int;
    assert(text.take(k) =~= lead);
    assert(text.take(m) =~= front);
    assert forall|i: int| k <= i < m implies #[trigger] text[i] != '\n' by {
        if text[i] == '\n' {
            assert(line[i - k] == '\n');
        }
    }
    lemma_starts(text, k);
    lemma_same_starts(text, k, m);
    lemma_more_starts(text, m, text.len() as int);
    let starts = line_index::line_starts(text);
    let few = line_index::starts_within(text, m);
    let at = few.len() - 1;
    text::lemma_byte_len_take(text, k, m);
    assert(k == 0 || text[k - 1] == '\n');
    assert(starts[at] == few[at]);
    assert(few[at] == text::byte_len(lead));
    lemma_line_of(starts, starts.len() as int, offset, at);
    text::lemma_index_of_prefix(text, k);
    text::lemma_index_of_prefix(text, m);
    assert(text.subrange(k, m) =~= line);
}

/// A text has as many UTF-16 code units as its parts, and a character has two where it is beyond
/// the basic plane, and else one.
pub proof fn units_add_up(first: Seq<char>, second: Seq<char>, c: char)
    ensures
        line_index::units(first + second) == line_index::units(first) + line_index::units(second),
        line_index::units(seq![c]) == if c as u32 > 0xffff {
            2nat
        } else {
            1nat
        },
    decreases second.len(),
{
    assert(seq![c].drop_last() =~= Seq::<char>::empty());
    reveal_with_fuel(line_index::units, 2);
    if second.len() == 0 {
        assert(first + second =~= first);
    } else {
        units_add_up(first, second.drop_last(), c);
        assert((first + second).drop_last() =~= first + second.drop_last());
        assert((first + second).last() == second.last());
    }
}

/// A change of what stands between two places leaves what stands before and behind it; a change
/// without places leaves nothing.
pub proof fn changes_exchange_what_is_between(
    front: Seq<char>,
    gone: Seq<char>,
    back: Seq<char>,
    new: Seq<char>,
)
    requires
        text::byte_len(front + gone + back) <= u32::MAX,
    ensures
        ({
            let text = front + gone + back;
            let start = position::position_at(text, text::byte_len(front) as int);
            let end = position::position_at(text, text::byte_len(front + gone) as int);
            &&& start is Some && end is Some
            &&& edit::changed(
                text,
                (edit::ChangeView {
                    range: Some(position::Range { start: start->0, end: end->0 }),
                    text: new,
                }),
            ) == front + new + back
            &&& edit::changed(text, (edit::ChangeView { range: None, text: new })) == new
        }),
{
    let text = front + gone + back;
    let i = front.len() as int;
    let j = (front + gone).len() as int;
    assert(text.take(i) =~= front);
    assert(text.take(j) =~= front + gone);
    text::lemma_index_of_prefix(text, i);
    text::lemma_index_of_prefix(text, j);
    position::position_and_back(text, text::byte_len(front) as int);
    position::position_and_back(text, text::byte_len(front + gone) as int);
    assert(text.skip(j) =~= back);
}

} // verus!
