//! What the path of a dictionary says, and how paths lead from one to another.
use crate::path;
use crate::path::Platform;
use crate::pattern;
use crate::search;
use vstd::prelude::*;

verus! {

proof fn lemma_find_char(chars: Seq<char>, c: char, from: int, at: int)
    requires
        0 <= from <= at < chars.len(),
        chars[at] == c,
        forall|i: int| from <= i < at ==> #[trigger] chars[i] != c,
    ensures
        search::find_from(chars, seq![c], from) == Some(at),
{
    search::lemma_find(chars, seq![c], from);
    assert(chars.subrange(at, at + 1) =~= seq![c]);
    assert(search::occurs_at(chars, seq![c], at));
    let i = search::find_from(chars, seq![c], from)->0;
    assert(chars.subrange(i, i + 1)[0] == chars[i]);
}

proof fn lemma_find_no_char(chars: Seq<char>, c: char, from: int)
    requires
        0 <= from,
        forall|i: int| from <= i < chars.len() ==> #[trigger] chars[i] != c,
    ensures
        search::find_from(chars, seq![c], from) is None,
{
    search::lemma_find(chars, seq![c], from);
    if let Some(i) = search::find_from(chars, seq![c], from) {
        assert(chars.subrange(i, i + 1)[0] == chars[i]);
    }
}

/// Whether a text can stand for a token before `next` and what follows: it is not empty, holds no
/// slash, and `next` does not come earlier.
pub open spec fn fits_token(capture: Seq<char>, next: Seq<char>, more: Seq<char>) -> bool {
    &&& capture.len() > 0
    &&& !capture.contains('/')
    &&& if next.len() == 0 {
        more.len() == 0
    } else {
        forall|j: int|
            0 <= j < capture.len() ==> !search::occurs_at(capture + next + more, next, j)
    }
}

proof fn lemma_step(
    pattern: Seq<char>,
    value: Seq<char>,
    p: int,
    v: int,
    captures: Seq<(Seq<char>, Seq<char>)>,
    literal: Seq<char>,
    token: Seq<char>,
    next: Seq<char>,
    rest: Seq<char>,
    capture: Seq<char>,
    more: Seq<char>,
)
    requires
        0 <= p <= pattern.len(),
        0 <= v <= value.len(),
        pattern.skip(p) == literal + seq!['{'] + token + seq!['}'] + next + rest,
        !literal.contains('{'),
        !token.contains('}'),
        !next.contains('{'),
        rest.len() == 0 || rest[0] == '{',
        value.skip(v) == literal + capture + next + more,
        fits_token(capture, next, more),
        !pattern::is_captured(captures, token),
    ensures
        ({
            let q = p + literal.len() + token.len() + 2;
            let w = v + literal.len() + capture.len();
            &&& pattern::captured(pattern, value, p, v, captures) == pattern::captured(
                pattern,
                value,
                q,
                w,
                captures.push((token, capture)),
            )
            &&& q <= pattern.len() && pattern.skip(q) == next + rest
            &&& w <= value.len() && value.skip(w) == next + more
        }),
{
    let tail = pattern.skip(p);
    let seen = value.skip(v);
    let open = p + literal.len();
    let close = open + token.len() + 1;
    let q = close + 1;
    let start = v + literal.len();
    let end = start + capture.len();
    assert(tail.len() == pattern.len() - p);
    assert((literal + seq!['{'] + token + seq!['}'] + next + rest).len() == tail.len());
    assert(seen.len() == value.len() - v);
    assert((literal + capture + next + more).len() == seen.len());
    assert forall|i: int| p <= i < pattern.len() implies #[trigger] pattern[i] == tail[i - p] by {}
    assert forall|i: int| v <= i < value.len() implies #[trigger] value[i] == seen[i - v] by {}
    assert forall|i: int| p <= i < open implies #[trigger] pattern[i] != '{' by {
        assert(tail[i - p] == literal[i - p]);
        assert(literal.contains(literal[i - p]));
    }
    assert(tail[literal.len() as int] == '{');
    lemma_find_char(pattern, '{', p, open);
    assert(tail[close - p] == '}');
    assert forall|i: int| open <= i < close implies #[trigger] pattern[i] != '}' by {
        if i > open {
            let k = i - open - 1;
            assert(tail[i - p] == token[k]);
            assert(token.contains(token[k]));
        }
    }
    lemma_find_char(pattern, '}', open, close);
    assert(pattern.subrange(p, open) =~= literal) by {
        assert forall|i: int| 0 <= i < literal.len() implies pattern.subrange(p, open)[i]
            == literal[i] by {
            assert(pattern[p + i] == tail[i]);
        }
    }
    assert(pattern.subrange(open + 1, close) =~= token) by {
        assert forall|i: int| 0 <= i < token.len() implies pattern.subrange(open + 1, close)[i]
            == token[i] by {
            assert(pattern[open + 1 + i] == tail[literal.len() + 1 + i]);
        }
    }
    assert(pattern.skip(q) =~= next + rest) by {
        assert(pattern.skip(q) =~= tail.skip(q - p));
        assert(tail.skip(q - p) =~= next + rest);
    }
    let stop = q + next.len();
    assert forall|i: int| q <= i < stop implies #[trigger] pattern[i] != '{' by {
        assert(pattern[i] == pattern.skip(q)[i - q]);
        assert(next.contains(next[i - q]));
    }
    if rest.len() > 0 {
        assert(pattern[stop] == pattern.skip(q)[next.len() as int]);
        lemma_find_char(pattern, '{', q, stop);
    } else {
        assert(pattern.len() == stop);
        lemma_find_no_char(pattern, '{', q);
    }
    assert(pattern::literal_end(pattern, q) == stop);
    assert(pattern.subrange(q, stop) =~= next) by {
        assert forall|i: int| 0 <= i < next.len() implies pattern.subrange(q, stop)[i]
            == next[i] by {
            assert(pattern[q + i] == pattern.skip(q)[i]);
        }
    }
    assert(value.subrange(v, v + literal.len()) =~= literal) by {
        assert forall|i: int| 0 <= i < literal.len() implies value.subrange(v, v + literal.len())[i]
            == literal[i] by {
            assert(value[v + i] == seen[i]);
        }
    }
    assert(value.skip(start) =~= capture + next + more) by {
        assert(value.skip(start) =~= seen.skip(literal.len() as int));
    }
    assert(value.subrange(start, end) =~= capture) by {
        assert forall|i: int| 0 <= i < capture.len() implies value.subrange(start, end)[i]
            == capture[i] by {
            assert(value[start + i] == value.skip(start)[i]);
        }
    }
    assert(value.skip(end) =~= next + more) by {
        assert(value.skip(end) =~= value.skip(start).skip(capture.len() as int));
    }
    lemma_capture_end(value, next, start, end, capture, more);
}

proof fn lemma_capture_end(
    value: Seq<char>,
    next: Seq<char>,
    start: int,
    end: int,
    capture: Seq<char>,
    more: Seq<char>,
)
    requires
        0 <= start <= end <= value.len(),
        end == start + capture.len(),
        value.skip(start) == capture + next + more,
        fits_token(capture, next, more),
    ensures
        pattern::capture_end(value, next, start) == end,
{
    let seen = value.skip(start);
    if next.len() == 0 {
        assert(seen.len() == capture.len());
    } else {
        search::lemma_find(value, next, start);
        let width = next.len() as int;
        assert(seen.len() == value.len() - start);
        assert((capture + next + more).len() == seen.len());
        assert(value.subrange(end, end + width) =~= next) by {
            assert forall|i: int| 0 <= i < width implies value.subrange(end, end + width)[i]
                == next[i] by {
                assert(value[end + i] == seen[capture.len() + i]);
            }
        }
        assert(search::occurs_at(value, next, end));
        let i = search::find_from(value, next, start)->0;
        if i < end {
            assert(value.subrange(i, i + width) =~= seen.subrange(i - start, i - start + width));
            assert(search::occurs_at(seen, next, i - start));
        }
    }
}

proof fn lemma_end(
    pattern: Seq<char>,
    value: Seq<char>,
    p: int,
    v: int,
    captures: Seq<(Seq<char>, Seq<char>)>,
)
    requires
        0 <= p <= pattern.len(),
        0 <= v <= value.len(),
        pattern.skip(p) == value.skip(v),
        !pattern.skip(p).contains('{'),
    ensures
        pattern::captured(pattern, value, p, v, captures) == Some(captures),
{
    assert forall|i: int| p <= i < pattern.len() implies #[trigger] pattern[i] != '{' by {
        assert(pattern[i] == pattern.skip(p)[i - p]);
        assert(pattern.skip(p).contains(pattern.skip(p)[i - p]));
    }
    lemma_find_no_char(pattern, '{', p);
}

/// A path that is the pattern with a locale for its token is a dictionary of that locale, without a
/// namespace.
pub proof fn paths_name_their_locale(lead: Seq<char>, tail: Seq<char>, locale: Seq<char>)
    requires
        !lead.contains('{'),
        !tail.contains('{'),
        fits_token(locale, tail, Seq::empty()),
    ensures
        pattern::identity_in(lead + "{locale}"@ + tail, lead + locale + tail) == Some(
            pattern::IdentityView { locale, namespace: None },
        ),
{
    reveal_strlit("{locale}");
    reveal_strlit("locale");
    reveal_strlit("namespace");
    let none = Seq::<char>::empty();
    let token = "locale"@;
    let pattern = lead + "{locale}"@ + tail;
    let value = lead + locale + tail;
    assert("{locale}"@ =~= seq!['{'] + token + seq!['}']);
    assert(pattern.skip(0) =~= lead + seq!['{'] + token + seq!['}'] + tail + none);
    assert(value.skip(0) =~= lead + locale + tail + none);
    assert forall|i: int| 0 <= i < token.len() implies #[trigger] token[i] != '}' by {}
    lemma_step(pattern, value, 0, 0, Seq::empty(), lead, token, tail, none, locale, none);
    let q = lead.len() + token.len() + 2;
    let w = lead.len() + locale.len();
    let captures = Seq::<(Seq<char>, Seq<char>)>::empty().push((token, locale));
    assert(pattern.skip(q as int) =~= tail);
    assert(value.skip(w as int) =~= tail);
    lemma_end(pattern, value, q as int, w as int, captures);
    assert("namespace"@.len() != token.len());
    assert(captures[0] == (token, locale));
    assert(pattern::capture_from(captures, "locale"@, 0) == Some(locale));
    assert(pattern::capture_from(captures, "namespace"@, 1) is None);
    assert(pattern::capture_from(captures, "namespace"@, 0) is None);
}

/// A path that is the pattern with a locale and a namespace for its tokens, in either order, is a
/// dictionary of that locale and namespace.
pub proof fn paths_name_their_namespace(
    lead: Seq<char>,
    middle: Seq<char>,
    tail: Seq<char>,
    locale: Seq<char>,
    namespace: Seq<char>,
)
    requires
        !lead.contains('{'),
        !middle.contains('{'),
        !tail.contains('{'),
    ensures
        fits_token(locale, middle, namespace + tail) && fits_token(namespace, tail, Seq::empty())
            ==> pattern::identity_in(
            lead + "{locale}"@ + middle + "{namespace}"@ + tail,
            lead + locale + middle + namespace + tail,
        ) == Some(pattern::IdentityView { locale, namespace: Some(namespace) }),
        fits_token(namespace, middle, locale + tail) && fits_token(locale, tail, Seq::empty())
            ==> pattern::identity_in(
            lead + "{namespace}"@ + middle + "{locale}"@ + tail,
            lead + namespace + middle + locale + tail,
        ) == Some(pattern::IdentityView { locale, namespace: Some(namespace) }),
{
    reveal_strlit("{locale}");
    reveal_strlit("{namespace}");
    reveal_strlit("locale");
    reveal_strlit("namespace");
    assert("{locale}"@ =~= seq!['{'] + "locale"@ + seq!['}']);
    assert("{namespace}"@ =~= seq!['{'] + "namespace"@ + seq!['}']);
    assert(!"locale"@.contains('}'));
    assert(!"namespace"@.contains('}'));
    assert("namespace"@.len() != "locale"@.len());
    if fits_token(locale, middle, namespace + tail) && fits_token(namespace, tail, Seq::empty()) {
        lemma_two(lead, "locale"@, middle, "namespace"@, tail, locale, namespace);
    }
    if fits_token(namespace, middle, locale + tail) && fits_token(locale, tail, Seq::empty()) {
        lemma_two(lead, "namespace"@, middle, "locale"@, tail, namespace, locale);
    }
}

proof fn lemma_two(
    lead: Seq<char>,
    first: Seq<char>,
    middle: Seq<char>,
    second: Seq<char>,
    tail: Seq<char>,
    one: Seq<char>,
    two: Seq<char>,
)
    requires
        !lead.contains('{'),
        !middle.contains('{'),
        !tail.contains('{'),
        !first.contains('}'),
        !second.contains('}'),
        first != second,
        fits_token(one, middle, two + tail),
        fits_token(two, tail, Seq::empty()),
    ensures
        ({
            let opened = seq!['{'] + first + seq!['}'];
            let closed = seq!['{'] + second + seq!['}'];
            let captures = seq![(first, one), (second, two)];
            &&& pattern::captured(
                lead + opened + middle + closed + tail,
                lead + one + middle + two + tail,
                0,
                0,
                Seq::empty(),
            ) == Some(captures)
            &&& pattern::capture_from(captures, first, 0) == Some(one)
            &&& pattern::capture_from(captures, second, 0) == Some(two)
        }),
{
    let none = Seq::<char>::empty();
    let opened = seq!['{'] + first + seq!['}'];
    let closed = seq!['{'] + second + seq!['}'];
    let pattern = lead + opened + middle + closed + tail;
    let value = lead + one + middle + two + tail;
    let rest = closed + tail;
    assert(pattern.skip(0) =~= lead + seq!['{'] + first + seq!['}'] + middle + rest);
    assert(value.skip(0) =~= lead + one + middle + (two + tail));
    assert(rest[0] == '{');
    lemma_step(
        pattern,
        value,
        0,
        0,
        Seq::empty(),
        lead,
        first,
        middle,
        rest,
        one,
        two + tail,
    );
    let p = lead.len() + first.len() + 2;
    let v = lead.len() + one.len();
    let some = Seq::<(Seq<char>, Seq<char>)>::empty().push((first, one));
    assert(pattern.skip(p as int) =~= middle + seq!['{'] + second + seq!['}'] + tail + none);
    assert(value.skip(v as int) =~= middle + two + tail + none);
    assert(!pattern::is_captured(some, second));
    lemma_step(
        pattern,
        value,
        p as int,
        v as int,
        some,
        middle,
        second,
        tail,
        none,
        two,
        none,
    );
    let q = p + middle.len() + second.len() + 2;
    let w = v + middle.len() + two.len();
    let all = some.push((second, two));
    assert(pattern.skip(q as int) =~= tail);
    assert(value.skip(w as int) =~= tail);
    lemma_end(pattern, value, q as int, w as int, all);
    let captures = seq![(first, one), (second, two)];
    assert(all =~= captures);
    assert(captures[0] == (first, one) && captures[1] == (second, two));
    assert(pattern::capture_from(captures, second, 1) == Some(two));
}

/// Whether components are those of a path without `.` and `..`, with a root only at its start.
pub open spec fn is_plain(components: Seq<Seq<char>>) -> bool {
    forall|k: int|
        0 <= k < components.len() ==> #[trigger] components[k] != seq!['.'] && components[k]
            != seq!['.', '.'] && (k > 0 ==> components[k] != seq!['/'])
}

/// Whether a root stands only at the start of components.
pub open spec fn has_one_root(components: Seq<Seq<char>>) -> bool {
    forall|k: int| 0 < k < components.len() ==> #[trigger] components[k] != seq!['/']
}

/// A path without `.` and `..` stays as it is, and every path becomes one without them.
pub proof fn plain_paths_stay(components: Seq<Seq<char>>, n: int, platform: Platform)
    requires
        0 <= n <= components.len(),
    ensures
        is_plain(components) ==> path::normalized(components, n, platform) == components.take(n),
        has_one_root(components) ==> is_plain(path::normalized(components, n, platform))
            && path::normalized(components, n, platform).len() <= n,
    decreases n,
{
    if n > 0 {
        plain_paths_stay(components, n - 1, platform);
        if is_plain(components) {
            assert(components.take(n) =~= components.take(n - 1).push(components[n - 1]));
            assert(components[n - 1] != seq!['.']);
        }
        if has_one_root(components) {
            let before = path::normalized(components, n - 1, platform);
            let after = path::normalized(components, n, platform);
            assert forall|k: int| 0 <= k < after.len() implies #[trigger] after[k] != seq!['.']
                && after[k] != seq!['.', '.'] && (k > 0 ==> after[k] != seq!['/']) by {
                if k < before.len() {
                    assert(after[k] == before[k]);
                } else {
                    assert(after[k] == components[n - 1]);
                    if n - 1 > 0 {
                        assert(components[n - 1] != seq!['/']);
                    }
                }
            }
        }
    } else {
        assert(components.take(0) =~= Seq::<Seq<char>>::empty());
    }
}

proof fn lemma_normalized_front(
    front: Seq<Seq<char>>,
    more: Seq<Seq<char>>,
    n: int,
    platform: Platform,
)
    requires
        0 <= n <= front.len(),
    ensures
        path::normalized(front + more, n, platform) == path::normalized(front, n, platform),
    decreases n,
{
    if n > 0 {
        lemma_normalized_front(front, more, n - 1, platform);
    }
}

proof fn lemma_climb(
    from: Seq<Seq<char>>,
    way: Seq<Seq<char>>,
    common: int,
    j: int,
    platform: Platform,
)
    requires
        is_plain(from),
        1 <= common <= from.len(),
        0 <= j <= from.len() - common,
        from.len() - common <= way.len(),
        forall|i: int| 0 <= i < from.len() - common ==> #[trigger] way[i] == seq!['.', '.'],
    ensures
        path::normalized(from + way, from.len() + j, platform) == from.take(from.len() - j),
    decreases j,
{
    let all = from + way;
    if j == 0 {
        lemma_normalized_front(from, way, from.len() as int, platform);
        plain_paths_stay(from, from.len() as int, platform);
    } else {
        lemma_climb(from, way, common, j - 1, platform);
        let before = from.take(from.len() - (j - 1));
        assert(all[from.len() + j - 1] == way[j - 1]);
        assert(before.len() >= 2);
        assert(before.last() == from[before.len() - 1]);
        assert(from[before.len() - 1] != seq!['/']);
        assert(seq!['.', '.'] != seq!['.']) by {
            assert(seq!['.', '.'].len() != seq!['.'].len());
        }
        assert(path::can_climb(before, platform));
        assert(before.drop_last() =~= from.take(from.len() - j));
    }
}

proof fn lemma_descend(
    front: Seq<Seq<char>>,
    down: Seq<Seq<char>>,
    start: Seq<Seq<char>>,
    n: int,
    platform: Platform,
)
    requires
        0 <= n <= down.len(),
        path::normalized(front + down, front.len() as int, platform) == start,
        forall|k: int|
            0 <= k < down.len() ==> #[trigger] down[k] != seq!['.'] && down[k] != seq!['.', '.'],
    ensures
        path::normalized(front + down, front.len() + n, platform) == start + down.take(n),
    decreases n,
{
    if n == 0 {
        assert(start + down.take(0) =~= start);
    } else {
        lemma_descend(front, down, start, n - 1, platform);
        assert((front + down)[front.len() + n - 1] == down[n - 1]);
        assert(down[n - 1] != seq!['.']);
        assert((start + down.take(n - 1)).push(down[n - 1]) =~= start + down.take(n));
    }
}

/// The way from one path to another leads there: behind the first, with `..` carried out, it is the
/// second, but for the case of a drive. There is a way where the two begin alike.
pub proof fn ways_lead_there(root: Seq<Seq<char>>, path: Seq<Seq<char>>, platform: Platform)
    requires
        has_one_root(root),
        has_one_root(path),
    ensures
        ({
            let from = path::normalized(root, root.len() as int, platform);
            let to = path::normalized(path, path.len() as int, platform);
            match path::relative(root, path, platform) {
                Some(way) => {
                    let there = path::normalized(
                        from + way,
                        (from + way).len() as int,
                        platform,
                    );
                    path::folded(there, platform) == path::folded(to, platform)
                },
                None => from.len() == 0 || to.len() == 0 || path::folded(from, platform)[0]
                    != path::folded(to, platform)[0],
            }
        }),
{
    let from = path::normalized(root, root.len() as int, platform);
    let to = path::normalized(path, path.len() as int, platform);
    plain_paths_stay(root, root.len() as int, platform);
    plain_paths_stay(path, path.len() as int, platform);
    let left = path::folded(from, platform);
    let right = path::folded(to, platform);
    path::lemma_shared(left, right, 0);
    let common = path::shared(left, right, 0);
    if let Some(way) = path::relative(root, path, platform) {
        let ups = Seq::new((from.len() - common) as nat, |i: int| seq!['.', '.']);
        let down = to.skip(common);
        assert(way == ups + down);
        let all = from + way;
        assert forall|i: int| 0 <= i < from.len() - common implies #[trigger] way[i]
            == seq!['.', '.'] by {
            assert(way[i] == ups[i]);
        }
        lemma_climb(from, way, common, from.len() - common, platform);
        let start = from.take(common);
        let front = from + ups;
        assert(front + down =~= all);
        assert forall|k: int| 0 <= k < down.len() implies #[trigger] down[k] != seq!['.']
            && down[k] != seq!['.', '.'] by {
            assert(down[k] == to[common + k]);
        }
        lemma_descend(front, down, start, down.len() as int, platform);
        assert(down.take(down.len() as int) =~= down);
        let there = path::normalized(all, all.len() as int, platform);
        assert(there == start + down);
        let bent = path::folded(there, platform);
        assert(there.len() == to.len());
        assert(there[0] == from[0]);
        assert(left[0] == right[0]);
        assert forall|k: int| 0 <= k < bent.len() implies bent[k] == right[k] by {
            if k == 0 {
                assert(bent[0] == left[0]);
            } else if k < common {
                assert(left[k] == right[k]);
                assert(bent[k] == from[k]);
            } else {
                assert(bent[k] == down[k - common]);
            }
        }
        assert(bent =~= right);
    }
}

} // verus!
