//! Translation keys: non-empty segments between separators.
use crate::search;
use crate::text;
use vstd::prelude::*;

verus! {

/// A full translation key, such as `Page.Login.submit`.
#[derive(Debug, PartialEq, Eq, Hash, PartialOrd, Ord)]
pub struct CanonicalKey(String);

impl View for CanonicalKey {
    type V = Seq<char>;

    closed spec fn view(&self) -> Seq<char> {
        self.0@
    }
}

impl DeepView for CanonicalKey {
    type V = Seq<char>;

    open spec fn deep_view(&self) -> Seq<char> {
        self@
    }
}

impl Clone for CanonicalKey {
    fn clone(&self) -> (copy: Self)
        ensures
            copy == *self,
    {
        CanonicalKey(self.0.clone())
    }
}

/// Whether `value` is a key: it and the separator hold something, and so does each segment.
pub open spec fn is_key(value: Seq<char>, separator: Seq<char>) -> bool {
    &&& value.len() > 0
    &&& separator.len() > 0
    &&& search::none_empty(search::segments(value, separator))
}

/// `value` as a key, where it is one.
pub open spec fn canonical(value: Seq<char>, separator: Seq<char>) -> Option<Seq<char>> {
    if is_key(value, separator) {
        Some(value)
    } else {
        None
    }
}

/// The key that `relative` stands for under `scope`.
pub open spec fn joined_key(
    scope: Seq<char>,
    relative: Seq<char>,
    separator: Seq<char>,
) -> Option<Seq<char>> {
    canonical(scope + separator + relative, separator)
}

/// The key before the last separator.
pub open spec fn parent_of(key: Seq<char>, separator: Seq<char>) -> Option<Seq<char>> {
    match search::rfind_from(key, separator, key.len() as int) {
        Some(i) => canonical(key.take(i), separator),
        None => None,
    }
}

/// The parent of a key is shorter.
pub proof fn parent_is_shorter(key: Seq<char>, separator: Seq<char>)
    ensures
        parent_of(key, separator) matches Some(parent) ==> parent.len() < key.len(),
{
    search::lemma_rfind(key, separator, key.len() as int);
}

/// What follows `scope` and a separator in `key`.
pub open spec fn relative_key(
    key: Seq<char>,
    scope: Seq<char>,
    separator: Seq<char>,
) -> Option<Seq<char>> {
    if search::starts_with(key, scope) && search::occurs_at(key, separator, scope.len() as int) {
        Some(key.skip((scope.len() + separator.len()) as int))
    } else {
        None
    }
}

/// Whether `key` lies below `scope`: it begins with `scope` and a separator.
pub open spec fn is_below(key: Seq<char>, scope: Seq<char>, separator: Seq<char>) -> bool {
    search::starts_with(key, scope + separator)
}

impl CanonicalKey {
    /// The key `value`, if neither it nor the separator nor any of its segments is empty.
    pub fn new(value: &str, separator: &str) -> (key: Option<Self>)
        ensures
            key.deep_view() == canonical(value@, separator@),
    {
        if value.is_empty() || separator.is_empty() {
            return None;
        }
        let parts = search::split(value, separator);
        let ghost all = search::segments(value@, separator@);
        let mut i: usize = 0;
        while i < parts.len()
            invariant
                i <= parts@.len(),
                parts.deep_view() == all,
                all == search::segments(value@, separator@),
                forall|k: int| 0 <= k < i ==> (#[trigger] all[k]).len() > 0,
            decreases parts@.len() - i,
        {
            assert(parts.deep_view()[i as int] == parts@[i as int]@);
            if parts[i].as_str().is_empty() {
                return None;
            }
            i += 1;
        }
        Some(CanonicalKey(value.to_owned()))
    }

    /// The key that `relative` stands for under `scope`.
    pub fn join(scope: &Self, relative: &str, separator: &str) -> (key: Option<Self>)
        ensures
            key.deep_view() == joined_key(scope@, relative@, separator@),
    {
        let mut value = scope.0.clone();
        value.append(separator);
        value.append(relative);
        Self::new(value.as_str(), separator)
    }

    /// The key as it is written.
    pub fn as_str(&self) -> (text: &str)
        ensures
            text@ == self@,
    {
        self.0.as_str()
    }

    /// The key before the last separator.
    pub fn parent(&self, separator: &str) -> (key: Option<Self>)
        ensures
            key.deep_view() == parent_of(self@, separator@),
    {
        let chars = text::chars_of(self.0.as_str());
        let pattern = text::chars_of(separator);
        match search::rfind(&chars, &pattern) {
            Some(i) => {
                proof {
                    search::lemma_rfind(self@, separator@, self@.len() as int);
                }
                let front = text::string_of(&chars, 0, i);
                assert(self@.subrange(0, i as int) =~= self@.take(i as int));
                Self::new(front.as_str(), separator)
            },
            None => None,
        }
    }

    /// What follows `scope` and a separator in this key.
    pub fn relative_to(&self, scope: &Self, separator: &str) -> (relative: Option<&str>)
        ensures
            relative.deep_view() == relative_key(self@, scope@, separator@),
    {
        let chars = text::chars_of(self.0.as_str());
        let front = text::chars_of(scope.0.as_str());
        let pattern = text::chars_of(separator);
        if search::is_at(&chars, &front, 0) && search::is_at(&chars, &pattern, front.len()) {
            let total: usize = chars.len();
            let from: usize = front.len() + pattern.len();
            assert(self@.subrange(from as int, total as int) =~= self@.skip(from as int));
            Some(self.0.as_str().substring_char(from, total))
        } else {
            None
        }
    }

    /// Whether this key lies below `scope`.
    pub fn is_below(&self, scope: &Self, separator: &str) -> (below: bool)
        ensures
            below == is_below(self@, scope@, separator@),
    {
        let mut prefix = scope.0.clone();
        prefix.append(separator);
        search::begins(self.0.as_str(), prefix.as_str())
    }

    /// Whether two keys are the same.
    pub fn same(&self, other: &Self) -> (equal: bool)
        ensures
            equal == (self@ == other@),
    {
        text::same(self.0.as_str(), other.0.as_str())
    }
}

/// A key together with the namespace that it belongs to.
#[derive(Debug, PartialEq, Eq)]
pub struct QualifiedKey {
    pub namespace: Option<String>,
    pub key: CanonicalKey,
}

/// What a `QualifiedKey` holds.
pub struct QualifiedKeyView {
    pub namespace: Option<Seq<char>>,
    pub key: Seq<char>,
}

impl DeepView for QualifiedKey {
    type V = QualifiedKeyView;

    open spec fn deep_view(&self) -> QualifiedKeyView {
        QualifiedKeyView { namespace: self.namespace.deep_view(), key: self.key@ }
    }
}

impl QualifiedKey {
    pub fn new(namespace: Option<String>, key: CanonicalKey) -> (qualified: Self)
        ensures
            qualified.deep_view() == (QualifiedKeyView {
                namespace: namespace.deep_view(),
                key: key@,
            }),
    {
        QualifiedKey { namespace, key }
    }

    /// The key as a reader writes it: the namespace and a colon first, where there is one.
    pub fn display(&self) -> (text: String)
        ensures
            text@ == qualified_text(self.deep_view()),
    {
        match &self.namespace {
            None => self.key.as_str().to_owned(),
            Some(namespace) => {
                let mut text = namespace.clone();
                text.append(":");
                text.append(self.key.as_str());
                text
            },
        }
    }
}

/// The text of a qualified key.
pub open spec fn qualified_text(key: QualifiedKeyView) -> Seq<char> {
    match key.namespace {
        None => key.key,
        Some(namespace) => namespace + ":"@ + key.key,
    }
}

/// The namespace before the first colon of `value` and the key after it, where the one is not
/// empty and the other is a key.
pub open spec fn namespace_and_key(value: Seq<char>, separator: Seq<char>) -> Option<
    (Seq<char>, Seq<char>),
> {
    match search::find_from(value, seq![':'], 0) {
        None => None,
        Some(i) => if i == 0 || !is_key(value.skip(i + 1), separator) {
            None
        } else {
            Some((value.take(i), value.skip(i + 1)))
        },
    }
}

/// Splits `namespace:key`.
pub fn split_namespace_key(value: &str, separator: &str) -> (parts: Option<(String, CanonicalKey)>)
    ensures
        parts.deep_view() == namespace_and_key(value@, separator@),
{
    let chars = text::chars_of(value);
    let colon: [char; 1] = [':'];
    assert(colon@ =~= seq![':']);
    match search::find(&chars, &colon, 0) {
        None => None,
        Some(i) => {
            proof {
                search::lemma_find(value@, seq![':'], 0);
            }
            if i == 0 {
                return None;
            }
            let total: usize = chars.len();
            let rest = text::string_of(&chars, i + 1, total);
            assert(rest@ =~= value@.skip(i + 1));
            assert(value@.subrange(0, i as int) =~= value@.take(i as int));
            match CanonicalKey::new(rest.as_str(), separator) {
                None => None,
                Some(key) => Some((text::string_of(&chars, 0, i), key)),
            }
        },
    }
}

/// The places where the separator is found in `key`, from left to right without overlap.
pub open spec fn cuts_from(key: Seq<char>, separator: Seq<char>, from: int) -> Seq<int>
    decreases key.len() + 1 - from,
{
    if from < 0 {
        Seq::empty()
    } else {
        match search::find_from(key, separator, from) {
            None => Seq::empty(),
            Some(i) => {
                proof {
                    search::lemma_find(key, separator, from);
                }
                if from <= i <= key.len() {
                    seq![i] + cuts_from(
                        key,
                        separator,
                        if separator.len() == 0 {
                            i + 1
                        } else {
                            i + separator.len() as int
                        },
                    )
                } else {
                    Seq::empty()
                }
            },
        }
    }
}

/// Whether `key` is one of the scopes, or one of them stands before a separator in it.
pub open spec fn ignored(scopes: Seq<Seq<char>>, key: Seq<char>, separator: Seq<char>) -> bool {
    ||| scopes.contains(key)
    ||| exists|n: int|
        0 <= n < cuts_from(key, separator, 0).len() && scopes.contains(
            key.take(#[trigger] cuts_from(key, separator, 0)[n]),
        )
}

/// Whether `key` belongs to one of the ignored scopes.
pub fn is_ignored_key(ignored_scopes: &[String], key: &str, separator: &str) -> (found: bool)
    ensures
        found == ignored(ignored_scopes.deep_view(), key@, separator@),
{
    if text::any_is(ignored_scopes, key) {
        return true;
    }
    let chars = text::chars_of(key);
    let pattern = text::chars_of(separator);
    let total: usize = chars.len();
    let ghost scopes = ignored_scopes.deep_view();
    let ghost all = cuts_from(key@, separator@, 0);
    let ghost mut seen: int = 0;
    let mut from: usize = 0;
    loop
        invariant
            chars@ == key@,
            pattern@ == separator@,
            total == key@.len(),
            scopes == ignored_scopes.deep_view(),
            !scopes.contains(key@),
            all == cuts_from(key@, separator@, 0),
            0 <= seen <= all.len(),
            from <= total + 1,
            all.skip(seen) == cuts_from(key@, separator@, from as int),
            forall|n: int| 0 <= n < seen ==> !scopes.contains(key@.take(#[trigger] all[n])),
        decreases total + 1 - from,
    {
        proof {
            search::lemma_find(key@, separator@, from as int);
        }
        match search::find(&chars, &pattern, from) {
            None => {
                assert(all.skip(seen).len() == 0);
                return false;
            },
            Some(i) => {
                let scope = text::string_of(&chars, 0, i);
                assert(scope@ =~= key@.take(i as int));
                assert(all.skip(seen)[0] == i);
                assert(all.skip(seen).len() == all.len() - seen);
                assert(all[seen] == i);
                if text::any_is(ignored_scopes, scope.as_str()) {
                    return true;
                }
                let next: usize = if pattern.len() == 0 {
                    if i == total {
                        assert(cuts_from(key@, separator@, i + 1).len() == 0);
                        assert(all.skip(seen).skip(1) =~= all.skip(seen + 1));
                        assert(all.skip(seen + 1) =~= cuts_from(key@, separator@, i + 1));
                        return false;
                    }
                    i + 1
                } else {
                    i + pattern.len()
                };
                assert(all.skip(seen + 1) =~= all.skip(seen).skip(1));
                assert(all.skip(seen).skip(1) =~= cuts_from(key@, separator@, next as int));
                proof {
                    seen = seen + 1;
                }
                from = next;
            },
        }
    }
}

} // verus!
