//! What is being written where a cursor stands in an open string.
use crate::chars;
use crate::chars::CharClass;
use crate::completion;
use crate::config;
use crate::index;
use crate::laws::scoping;
use crate::source;
use crate::text;
use vstd::prelude::*;

verus! {

/// Whether a text is white space.
pub open spec fn is_blank(gap: Seq<char>) -> bool {
    forall|i: int| 0 <= i < gap.len() ==> chars::is_space(#[trigger] gap[i])
}

/// Whether a character ends what stands before the name of a function.
pub open spec fn is_break(c: char) -> bool {
    chars::is_space(c) || c == ';' || c == '=' || c == '{' || c == '}'
}

/// Whether a text can be the name of a function that follows `lead`.
pub open spec fn is_name_behind(callee: Seq<char>, lead: Seq<char>) -> bool {
    &&& callee.len() > 0
    &&& forall|i: int| 0 <= i < callee.len() ==> !is_break(#[trigger] callee[i])
    &&& lead.len() == 0 || is_break(lead.last())
}

/// Whether a character opens a string.
pub open spec fn is_quote(c: char) -> bool {
    c == '\'' || c == '"'
}

/// Whether a string is still open, and on one line, behind `query`.
pub open spec fn stays_open(query: Seq<char>) -> bool {
    forall|i: int|
        0 <= i < query.len() ==> !is_quote(#[trigger] query[i]) && query[i] != '\n' && query[i]
            != '\r'
}

/// The text of a call up to a cursor in its first argument, a string.
pub open spec fn call_text(
    lead: Seq<char>,
    callee: Seq<char>,
    gap: Seq<char>,
    space: Seq<char>,
    quote: char,
    query: Seq<char>,
) -> Seq<char> {
    lead + callee + gap + seq!['('] + space + seq![quote] + query
}

pub(crate) proof fn lemma_last(chars: Seq<char>, class: CharClass, k: int, end: int)
    requires
        0 <= k < end <= chars.len(),
        chars::belongs(chars[k], class),
        forall|i: int| k < i < end ==> !chars::belongs(#[trigger] chars[i], class),
    ensures
        chars::last_in(chars, class, end) == Some(k),
    decreases end,
{
    if k < end - 1 {
        lemma_last(chars, class, k, end - 1);
    }
}

proof fn lemma_none_last(chars: Seq<char>, class: CharClass, end: int)
    requires
        end <= chars.len(),
        forall|i: int| 0 <= i < end ==> !chars::belongs(#[trigger] chars[i], class),
    ensures
        chars::last_in(chars, class, end) is None,
    decreases end,
{
    if end > 0 {
        lemma_none_last(chars, class, end - 1);
    }
}

proof fn lemma_trimmed(front: Seq<char>, gap: Seq<char>)
    requires
        front.len() > 0,
        !chars::is_space(front.last()),
        is_blank(gap),
    ensures
        chars::trimmed_end(front + gap) == front,
{
    let all = front + gap;
    let k = front.len() - 1;
    assert forall|i: int| k < i < all.len() implies !chars::belongs(
        #[trigger] all[i],
        CharClass::Ink,
    ) by {
        assert(all[i] == gap[i - front.len()]);
    }
    lemma_last(all, CharClass::Ink, k, all.len() as int);
    assert(all.take(k + 1) =~= front);
}

proof fn lemma_called(
    lead: Seq<char>,
    callee: Seq<char>,
    gap: Seq<char>,
    space: Seq<char>,
    quote: char,
    query: Seq<char>,
)
    requires
        is_name_behind(callee, lead),
        is_blank(gap),
        is_blank(space),
        is_quote(quote),
        stays_open(query),
    ensures
        ({
            let before = call_text(lead, callee, gap, space, quote, query);
            let at = before.len() - query.len() - 1;
            &&& chars::last_in(before, CharClass::Quote, before.len() as int) == Some(at)
            &&& before.skip(at + 1) == query
            &&& completion::called(before, at) == Some(callee)
            &&& chars::first_in(query, CharClass::LineBreak, 0) is None
        }),
{
    let before = call_text(lead, callee, gap, space, quote, query);
    let at = before.len() - query.len() - 1;
    assert(before[at] == quote);
    assert forall|i: int| at < i < before.len() implies !chars::belongs(
        #[trigger] before[i],
        CharClass::Quote,
    ) by {
        assert(before[i] == query[i - at - 1]);
    }
    lemma_last(before, CharClass::Quote, at, before.len() as int);
    assert(before.skip(at + 1) =~= query);
    let named = lead + callee;
    let call = named + gap + seq!['('];
    assert(before.take(at) =~= call + space);
    assert(call.last() == '(');
    lemma_trimmed(call, space);
    let open = call.len() - 1;
    lemma_last(call, CharClass::Parenthesis, open, call.len() as int);
    assert(call.take(open) =~= named + gap);
    assert(named.last() == callee.last());
    assert(!is_break(callee[callee.len() - 1]));
    lemma_trimmed(named, gap);
    assert forall|i: int| lead.len() <= i < named.len() implies !chars::belongs(
        #[trigger] named[i],
        CharClass::CalleeBreak,
    ) by {
        assert(named[i] == callee[i - lead.len()]);
    }
    if lead.len() == 0 {
        lemma_none_last(named, CharClass::CalleeBreak, named.len() as int);
        assert(named =~= callee);
    } else {
        assert(named[lead.len() - 1] == lead.last());
        lemma_last(named, CharClass::CalleeBreak, lead.len() - 1, named.len() as int);
        assert(named.skip(lead.len() as int) =~= callee);
    }
    chars::lemma_first_in(query, CharClass::LineBreak, 0);
    if let Some(i) = chars::first_in(query, CharClass::LineBreak, 0) {
        assert(query[i] == '\n' || query[i] == '\r');
    }
}

/// In a string that opens the arguments of a call, in quotes of either kind, what has been written
/// of it is what is asked for: a scope in a call of a scoped function, a whole key in one of a
/// function for whole keys, and in one of a translator a key in its scope, if it has one.
pub proof fn open_strings_are_completed(
    lead: Seq<char>,
    callee: Seq<char>,
    gap: Seq<char>,
    space: Seq<char>,
    quote: char,
    query: Seq<char>,
    offset: usize,
    bindings: Seq<source::BindingView>,
    config: config::ConfigView,
    k: int,
)
    requires
        is_name_behind(callee, lead),
        is_blank(gap),
        is_blank(space),
        is_quote(quote),
        stays_open(query),
    ensures
        ({
            let before = call_text(lead, callee, gap, space, quote, query);
            let context = completion::context_in(before, offset, bindings, config);
            if scoping::is_scoped_name(config.scoped_functions, callee) {
                context == Some(completion::ContextView { scope: None, objects: true, query })
            } else if scoping::is_full_key_name(config.full_key_functions, callee) {
                context == Some(completion::ContextView { scope: None, objects: false, query })
            } else {
                &&& scoping::is_used_by(bindings, k, callee, offset) ==> context == Some(
                    completion::ContextView { scope: bindings[k].scope, objects: false, query },
                )
                &&& context is None <==> forall|j: int|
                    0 <= j < bindings.len() ==> !scoping::answers_to(
                        #[trigger] bindings[j],
                        callee,
                        offset,
                    )
            }
        }),
{
    lemma_called(lead, callee, gap, space, quote, query);
    scoping::scoped_functions_are_found(config.scoped_functions, callee, 0);
    scoping::full_key_functions_are_found(config.full_key_functions, callee, 0);
    scoping::the_last_translator_is_used(bindings, callee, offset, k);
}

/// Without a quote before the cursor nothing is completed, nor with the end of a line between.
pub proof fn nothing_is_completed_outside_of_strings(
    before: Seq<char>,
    offset: usize,
    bindings: Seq<source::BindingView>,
    config: config::ConfigView,
)
    requires
        forall|i: int|
            0 <= i < before.len() && is_quote(#[trigger] before[i]) ==> exists|j: int|
                i < j < before.len() && (#[trigger] before[j] == '\n' || before[j] == '\r'),
    ensures
        completion::context_in(before, offset, bindings, config) is None,
{
    chars::lemma_last_in(before, CharClass::Quote, before.len() as int);
    if let Some(at) = chars::last_in(before, CharClass::Quote, before.len() as int) {
        assert(is_quote(before[at]));
        let j = choose|j: int|
            at < j < before.len() && (#[trigger] before[j] == '\n' || before[j] == '\r');
        let query = before.skip(at + 1);
        assert(query[j - at - 1] == before[j]);
        chars::lemma_first_in(query, CharClass::LineBreak, 0);
        assert(chars::belongs(query[j - at - 1], CharClass::LineBreak));
    }
}

/// What is completed in a file is what is being written up to the cursor, with the translators of
/// the file.
pub proof fn files_are_completed_up_to_the_cursor(
    snapshot: index::SnapshotView,
    uri: Seq<char>,
    file: index::FileView,
    before: Seq<char>,
    after: Seq<char>,
    config: config::ConfigView,
)
    requires
        snapshot.file(uri) == Some(file),
        file.text == before + after,
        text::byte_len(before) <= usize::MAX,
    ensures
        completion::context_at(snapshot, uri, text::byte_len(before) as usize, config)
            == completion::context_in(
            before,
            text::byte_len(before) as usize,
            file.bindings,
            config,
        ),
{
    let n = before.len() as int;
    assert(file.text.take(n) =~= before);
    text::lemma_index_of_prefix(file.text, n);
    assert(file.text.subrange(0, n) =~= before);
    assert(text::index_at(file.text, 0) == Some(0int));
}

} // verus!
