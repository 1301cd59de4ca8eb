//! Dictionary patterns such as `locales/{locale}/{namespace}.json`.
use crate::config::ConfigError;
use crate::config;
use crate::names;
use crate::path;
use crate::path::Platform;
use crate::search;
use crate::text;
use vstd::prelude::*;

verus! {

/// `globset::GlobSet`, a set of compiled globs.
#[verifier::external_type_specification]
#[verifier::external_body]
pub struct ExGlobSet(globset::GlobSet);

/// The globs in a set.
pub uninterp spec fn globs_in(set: globset::GlobSet) -> Seq<Seq<char>>;

/// Whether `path` matches `glob`.
pub uninterp spec fn glob_matches(glob: Seq<char>, path: Seq<char>) -> bool;

/// What is wrong with `glob`, where it cannot be compiled.
pub uninterp spec fn glob_fault(glob: Seq<char>) -> Option<Seq<char>>;

/// Calls `globset::Glob::new` and builds a `globset::GlobSet` of that one glob. Where either
/// fails, the message of the error is named by `glob_fault`; else the set holds the glob. What a
/// backslash means there depends on the operating system, so the glob has none.
#[verifier::external_body]
pub(crate) fn compile_glob(glob: &str) -> (compiled: Result<globset::GlobSet, String>)
    requires
        !glob@.contains('\\'),
    ensures
        compiled matches Ok(set) ==> glob_fault(glob@) is None && globs_in(set) == seq![glob@],
        compiled matches Err(message) ==> glob_fault(glob@) == Some(message@),
{
    let parsed = globset::Glob::new(glob).map_err(|error| error.to_string())?;
    globset::GlobSetBuilder::new().add(parsed).build().map_err(|error| error.to_string())
}

/// Calls `globset::GlobSet::is_match`: whether any glob of the set matches the path. With one glob
/// in the set the answer is named by `glob_matches`. A backslash is a separator on some operating
/// systems only, so the path has none.
#[verifier::external_body]
pub(crate) fn any_glob_matches(set: &globset::GlobSet, path: &str) -> (found: bool)
    requires
        !path@.contains('\\'),
    ensures
        globs_in(*set).len() == 1 ==> found == glob_matches(globs_in(*set)[0], path@),
{
    set.is_match(path)
}

/// The locale and the namespace that the path of a dictionary stands for.
#[derive(Debug, PartialEq, Eq)]
pub struct DictionaryIdentity {
    pub locale: String,
    pub namespace: Option<String>,
}

/// What a `DictionaryIdentity` holds.
pub struct IdentityView {
    pub locale: Seq<char>,
    pub namespace: Option<Seq<char>>,
}

impl DeepView for DictionaryIdentity {
    type V = IdentityView;

    open spec fn deep_view(&self) -> IdentityView {
        IdentityView { locale: self.locale@, namespace: self.namespace.deep_view() }
    }
}

impl Clone for DictionaryIdentity {
    fn clone(&self) -> (copy: Self)
        ensures
            copy == *self,
    {
        DictionaryIdentity {
            locale: self.locale.clone(),
            namespace: text::copy(&self.namespace),
        }
    }
}

/// One more component behind a relative pattern: `..` takes back a component that is not `..`.
pub open spec fn climbed(components: Seq<Seq<char>>, component: Seq<char>) -> Seq<Seq<char>> {
    if component.len() == 0 || component == seq!['.'] {
        components
    } else if component == seq!['.', '.'] && components.len() > 0 && components.last() != seq![
        '.',
        '.',
    ] {
        components.drop_last()
    } else {
        components.push(component)
    }
}

/// The first `n` parts of a pattern with `.` and `..` carried out as far as they go.
pub open spec fn climbed_of(parts: Seq<Seq<char>>, n: int) -> Seq<Seq<char>>
    decreases n,
{
    if n <= 0 {
        Seq::empty()
    } else {
        climbed(climbed_of(parts, n - 1), parts[n - 1])
    }
}

/// A pattern with `/` between its components and with `.` and `..` carried out.
pub open spec fn normal_pattern(pattern: Seq<char>) -> Seq<char> {
    let parts = search::segments(pattern, seq!['/']);
    search::joined(climbed_of(parts, parts.len() as int), seq!['/'])
}

/// `text` with slashes for backslashes.
pub open spec fn with_slashes(text: Seq<char>) -> Seq<char> {
    search::replaced(text, seq!['\\'], seq!['/'])
}

/// Whether `path`, with slashes, does not depend on a directory.
pub open spec fn is_absolute(path: Seq<char>) -> bool {
    ||| path.len() > 0 && path[0] == '/'
    ||| path.len() >= 3 && path::is_letter(path[0]) && path[1] == ':' && path[2] == '/'
}

/// The glob that a normal pattern stands for.
pub open spec fn glob_text(pattern: Seq<char>) -> Seq<char> {
    search::replaced(search::replaced(pattern, "{locale}"@, "*"@), "{namespace}"@, "*"@)
}

/// What is wrong with a pattern.
pub open spec fn pattern_fault(pattern: Seq<char>) -> Option<config::ConfigErrorView> {
    if search::count(pattern, "{locale}"@) != 1 {
        Some(config::ConfigErrorView::LocaleToken)
    } else if search::count(pattern, "{namespace}"@) > 1 {
        Some(config::ConfigErrorView::NamespaceToken)
    } else if is_absolute(with_slashes(pattern)) {
        Some(config::ConfigErrorView::AbsoluteDictionaryPattern)
    } else {
        match glob_fault(glob_text(normal_pattern(with_slashes(pattern)))) {
            Some(message) => Some(config::ConfigErrorView::Glob(message)),
            None => None,
        }
    }
}

proof fn lemma_climbed_without(parts: Seq<Seq<char>>, n: int, c: char)
    requires
        0 <= n <= parts.len(),
        search::none_hold(parts, c),
    ensures
        search::none_hold(climbed_of(parts, n), c),
    decreases n,
{
    if n > 0 {
        lemma_climbed_without(parts, n - 1, c);
        let before = climbed_of(parts, n - 1);
        let after = climbed_of(parts, n);
        assert forall|i: int| 0 <= i < after.len() implies !(#[trigger] after[i]).contains(c) by {
            assert(i < before.len() ==> !before[i].contains(c));
            assert(!parts[n - 1].contains(c));
        }
    }
}

proof fn lemma_slashes_only(text: Seq<char>)
    ensures
        !with_slashes(text).contains('\\'),
{
    search::lemma_replaced_without(text, seq!['\\'], seq!['/'], '\\');
}

proof fn lemma_glob_has_slashes_only(pattern: Seq<char>)
    ensures
        !glob_text(normal_pattern(with_slashes(pattern))).contains('\\'),
{
    reveal_strlit("{locale}");
    reveal_strlit("{namespace}");
    reveal_strlit("*");
    lemma_slashes_only(pattern);
    let slashed = with_slashes(pattern);
    let parts = search::segments(slashed, seq!['/']);
    search::lemma_split_without(slashed, seq!['/'], '\\');
    lemma_climbed_without(parts, parts.len() as int, '\\');
    search::lemma_joined_without(climbed_of(parts, parts.len() as int), seq!['/'], '\\');
    let normal = normal_pattern(slashed);
    search::lemma_replaced_without(normal, "{locale}"@, "*"@, '\\');
    let with_locale = search::replaced(normal, "{locale}"@, "*"@);
    search::lemma_replaced_without(with_locale, "{namespace}"@, "*"@, '\\');
}

/// Whether one of the captures has this name.
pub open spec fn is_captured(captures: Seq<(Seq<char>, Seq<char>)>, token: Seq<char>) -> bool {
    exists|k: int| 0 <= k < captures.len() && (#[trigger] captures[k]).0 == token
}

/// The text captured under a name, from index `from` on.
pub open spec fn capture_from(
    captures: Seq<(Seq<char>, Seq<char>)>,
    token: Seq<char>,
    from: int,
) -> Option<Seq<char>>
    decreases captures.len() - from,
{
    if from >= captures.len() {
        None
    } else if captures[from].0 == token {
        Some(captures[from].1)
    } else {
        capture_from(captures, token, from + 1)
    }
}

/// Where the literal text of `pattern` from `at` on ends: at the next token, or with the pattern.
pub open spec fn literal_end(pattern: Seq<char>, at: int) -> int {
    match search::find_from(pattern, seq!['{'], at) {
        Some(open) => open,
        None => pattern.len() as int,
    }
}

/// Where the capture that starts at `at` ends, when `literal` follows it.
pub open spec fn capture_end(value: Seq<char>, literal: Seq<char>, at: int) -> int {
    if literal.len() == 0 {
        value.len() as int
    } else {
        match search::find_from(value, literal, at) {
            Some(i) => i,
            None => value.len() as int,
        }
    }
}

/// What the tokens of `pattern[p..]` capture in `value[v..]`, behind what is captured already.
/// Each token captures the shortest text before the literal that follows it, without a slash.
pub open spec fn captured(
    pattern: Seq<char>,
    value: Seq<char>,
    p: int,
    v: int,
    captures: Seq<(Seq<char>, Seq<char>)>,
) -> Option<Seq<(Seq<char>, Seq<char>)>>
    decreases pattern.len() - p,
{
    if !(0 <= p <= pattern.len() && 0 <= v <= value.len()) {
        None
    } else {
        match search::find_from(pattern, seq!['{'], p) {
            None => if value.skip(v) == pattern.skip(p) {
                Some(captures)
            } else {
                None
            },
            Some(open) => match search::find_from(pattern, seq!['}'], open) {
                None => None,
                Some(close) => {
                    proof {
                        search::lemma_find(pattern, seq!['{'], p);
                        search::lemma_find(pattern, seq!['}'], open);
                    }
                    let literal = pattern.subrange(p, open);
                    let start = v + literal.len();
                    let token = pattern.subrange(open + 1, close);
                    let next = pattern.subrange(close + 1, literal_end(pattern, close + 1));
                    let end = capture_end(value, next, start);
                    let capture = value.subrange(start, end);
                    if p <= open && open < close && search::occurs_at(value, literal, v)
                        && capture.len() > 0 && !capture.contains('/') && !is_captured(
                        captures,
                        token,
                    ) {
                        captured(pattern, value, close + 1, end, captures.push((token, capture)))
                    } else {
                        None
                    }
                },
            },
        }
    }
}

/// The identity that the tokens of `pattern` find in a relative path.
pub open spec fn identity_in(pattern: Seq<char>, path: Seq<char>) -> Option<IdentityView> {
    match captured(pattern, path, 0, 0, Seq::empty()) {
        None => None,
        Some(captures) => match capture_from(captures, "locale"@, 0) {
            None => None,
            Some(locale) => Some(
                IdentityView { locale, namespace: capture_from(captures, "namespace"@, 0) },
            ),
        },
    }
}

/// The way from `root` to `path` as a pattern sees it.
pub open spec fn seen_from(root: Seq<char>, path: Seq<char>, platform: Platform) -> Option<
    Seq<char>,
> {
    match path::relative(
        path::components(root, platform),
        path::components(path, platform),
        platform,
    ) {
        Some(way) => Some(with_slashes(names::shown(path::path_text(way, platform)))),
        None => None,
    }
}

proof fn lemma_way_has_slashes_only(root: Seq<char>, path: Seq<char>, platform: Platform)
    ensures
        seen_from(root, path, platform) matches Some(way) ==> !way.contains('\\'),
{
    if let Some(way) = path::relative(
        path::components(root, platform),
        path::components(path, platform),
        platform,
    ) {
        lemma_slashes_only(names::shown(path::path_text(way, platform)));
    }
}

/// The identity of the dictionary at `path`, for a pattern in the workspace at `root`.
pub open spec fn identity_at(
    pattern: Seq<char>,
    root: Seq<char>,
    path: Seq<char>,
    platform: Platform,
) -> Option<IdentityView> {
    match seen_from(root, path, platform) {
        None => None,
        Some(way) => if glob_matches(glob_text(pattern), way) {
            identity_in(pattern, way)
        } else {
            None
        },
    }
}

/// The directory that holds everything that a pattern can match: as far as the components before
/// its first token lead from `root`.
pub open spec fn search_components(
    pattern: Seq<char>,
    root: Seq<char>,
    platform: Platform,
) -> Seq<Seq<char>> {
    let lead = path::components(pattern.take(literal_end(pattern, 0)), platform);
    let directory = if lead.len() > 0 {
        lead.drop_last()
    } else {
        lead
    };
    let all = path::components(root, platform) + directory;
    path::normalized(all, all.len() as int, platform)
}

/// A pattern that dictionaries match by their paths.
#[derive(Debug)]
pub struct DictionaryPattern {
    pattern: String,
    has_namespace: bool,
    globs: globset::GlobSet,
}

impl View for DictionaryPattern {
    type V = Seq<char>;

    /// The normal form of the pattern.
    closed spec fn view(&self) -> Seq<char> {
        self.pattern@
    }
}

impl DictionaryPattern {
    #[verifier::type_invariant]
    closed spec fn is_compiled(&self) -> bool {
        &&& self.has_namespace == search::contains(self.pattern@, "{namespace}"@)
        &&& globs_in(self.globs) == seq![glob_text(self.pattern@)]
    }

    /// The pattern, if it has one locale, at most one namespace, is relative, and is a glob.
    pub fn new(pattern: &str) -> (made: Result<Self, ConfigError>)
        ensures
            config::fault_of(made) == pattern_fault(pattern@),
            made matches Ok(made) ==> made@ == normal_pattern(with_slashes(pattern@)),
    {
        if let Some(fault) = token_fault(pattern) {
            return Err(fault);
        }
        proof {
            reveal_strlit("\\");
            reveal_strlit("/");
        }
        assert("\\"@ =~= seq!['\\']);
        assert("/"@ =~= seq!['/']);
        let ghost given = pattern;
        let slashed = search::replace(pattern, "\\", "/");
        if absolute(slashed.as_str()) {
            return Err(ConfigError::AbsoluteDictionaryPattern);
        }
        let pattern = normalize_pattern(slashed.as_str());
        let has_namespace = search::holds(pattern.as_str(), "{namespace}");
        let with_locale = search::replace(pattern.as_str(), "{locale}", "*");
        let glob = search::replace(with_locale.as_str(), "{namespace}", "*");
        proof {
            lemma_glob_has_slashes_only(given@);
        }
        match compile_glob(glob.as_str()) {
            Ok(globs) => Ok(DictionaryPattern { pattern, has_namespace, globs }),
            Err(message) => Err(ConfigError::Glob(message)),
        }
    }

    /// The identity of the dictionary at `path`, for a workspace at `root` on a platform.
    pub fn identity_on(&self, root: &str, path: &str, platform: Platform) -> (identity: Option<
        DictionaryIdentity,
    >)
        ensures
            identity.deep_view() == identity_at(self@, root@, path@, platform),
    {
        proof {
            use_type_invariant(self);
        }
        match way_to(root, path, platform) {
            None => None,
            Some(way) => {
                assert(!way@.contains('\\')) by {
                    lemma_way_has_slashes_only(root@, path@, platform);
                }
                if any_glob_matches(&self.globs, way.as_str()) {
                    identity_of(self.pattern.as_str(), way.as_str())
                } else {
                    None
                }
            },
        }
    }

    /// The identity of the dictionary at `path`, for a workspace at `root`.
    pub fn identity_for(&self, root: &str, path: &str) -> (identity: Option<DictionaryIdentity>)
        ensures
            exists|platform: Platform| #[trigger]
                path::is_here(platform) && identity.deep_view() == identity_at(
                    self@,
                    root@,
                    path@,
                    platform,
                ),
    {
        self.identity_on(root, path, path::platform_here())
    }

    /// The locale of the dictionary at `path`, for a workspace at `root`.
    pub fn locale_for(&self, root: &str, path: &str) -> (locale: Option<String>)
        ensures
            exists|platform: Platform| #[trigger]
                path::is_here(platform) && locale.deep_view() == match identity_at(
                    self@,
                    root@,
                    path@,
                    platform,
                ) {
                    Some(identity) => Some(identity.locale),
                    None => None,
                },
    {
        match self.identity_for(root, path) {
            Some(identity) => Some(identity.locale),
            None => None,
        }
    }

    /// Whether dictionaries have a namespace.
    pub fn has_namespace(&self) -> (found: bool)
        ensures
            found == search::contains(self@, "{namespace}"@),
    {
        proof {
            use_type_invariant(self);
        }
        self.has_namespace
    }

    /// The directory that holds everything that the pattern can match in a workspace at `root`.
    pub fn search_root(&self, root: &str) -> (directory: String)
        ensures
            exists|platform: Platform| #[trigger]
                path::is_here(platform) && directory@ == path::path_text(
                    search_components(self@, root@, platform),
                    platform,
                ),
    {
        self.search_root_on(root, path::platform_here())
    }

    /// The directory that holds everything that the pattern can match in a workspace at `root` on a
    /// platform.
    pub fn search_root_on(&self, root: &str, platform: Platform) -> (directory: String)
        ensures
            directory@ == path::path_text(search_components(self@, root@, platform), platform),
    {
        let chars = text::chars_of(self.pattern.as_str());
        let total: usize = chars.len();
        let brace: [char; 1] = ['{'];
        assert(brace@ =~= seq!['{']);
        let end: usize = match search::find(&chars, &brace, 0) {
            Some(i) => i,
            None => total,
        };
        proof {
            search::lemma_find(self@, seq!['{'], 0);
        }
        let front = text::string_of(&chars, 0, end);
        assert(self@.subrange(0, end as int) =~= self@.take(end as int));
        let mut lead = path::components_in(front.as_str(), platform);
        let ghost whole = lead.deep_view();
        if lead.len() > 0 {
            lead.pop();
            assert(lead.deep_view() =~= whole.drop_last());
        }
        let ghost directory = lead.deep_view();
        let mut all = path::components_in(root, platform);
        let ghost outer = all.deep_view();
        all.append(&mut lead);
        assert(all.deep_view() =~= outer + directory);
        path::text_of(&path::normalize(&all, platform), platform)
    }
}

/// What is wrong with the number of tokens in a pattern.
pub fn token_fault(pattern: &str) -> (fault: Option<ConfigError>)
    ensures
        fault.deep_view() == if search::count(pattern@, "{locale}"@) != 1 {
            Some(config::ConfigErrorView::LocaleToken)
        } else if search::count(pattern@, "{namespace}"@) > 1 {
            Some(config::ConfigErrorView::NamespaceToken)
        } else {
            None
        },
{
    if search::count_in(pattern, "{locale}") != 1 {
        Some(ConfigError::LocaleToken)
    } else if search::count_in(pattern, "{namespace}") > 1 {
        Some(ConfigError::NamespaceToken)
    } else {
        None
    }
}

/// Whether a path with slashes does not depend on a directory.
fn absolute(path: &str) -> (found: bool)
    ensures
        found == is_absolute(path@),
{
    let chars = text::chars_of(path);
    let total: usize = chars.len();
    if total > 0 && chars[0] == '/' {
        return true;
    }
    if total < 3 {
        return false;
    }
    let first: char = chars[0];
    let letter: bool = ('a' <= first && first <= 'z') || ('A' <= first && first <= 'Z');
    letter && chars[1] == ':' && chars[2] == '/'
}

/// A pattern with `.` and `..` carried out.
pub fn normalize_pattern(pattern: &str) -> (normal: String)
    ensures
        normal@ == normal_pattern(pattern@),
{
    proof {
        reveal_strlit("/");
        reveal_strlit(".");
        reveal_strlit("..");
    }
    assert("/"@ =~= seq!['/']);
    assert("."@ =~= seq!['.']);
    assert(".."@ =~= seq!['.', '.']);
    let parts = search::split(pattern, "/");
    let ghost all = search::segments(pattern@, seq!['/']);
    let mut kept: Vec<String> = Vec::new();
    assert(kept.deep_view() =~= Seq::<Seq<char>>::empty());
    let mut n: usize = 0;
    while n < parts.len()
        invariant
            n <= parts@.len(),
            all == parts.deep_view(),
            "."@ == seq!['.'],
            ".."@ == seq!['.', '.'],
            kept.deep_view() == climbed_of(all, n as int),
        decreases parts@.len() - n,
    {
        assert(all[n as int] == parts@[n as int]@);
        let part = parts[n].as_str();
        let ghost before = kept.deep_view();
        let count: usize = kept.len();
        assert(count > 0 ==> before.last() == kept@[count - 1]@);
        if part.is_empty() || text::same(part, ".") {
        } else if text::same(part, "..") && count > 0 && !text::same(
            kept[count - 1].as_str(),
            "..",
        ) {
            kept.pop();
            assert(kept.deep_view() =~= before.drop_last());
        } else {
            kept.push(part.to_owned());
            assert(kept.deep_view() =~= before.push(all[n as int]));
        }
        n += 1;
    }
    search::join(&kept, "/")
}

/// The way from `root` to `path` as a pattern sees it.
pub fn way_to(root: &str, path: &str, platform: Platform) -> (way: Option<String>)
    ensures
        way.deep_view() == seen_from(root@, path@, platform),
{
    proof {
        reveal_strlit("\\");
        reveal_strlit("/");
    }
    assert("\\"@ =~= seq!['\\']);
    assert("/"@ =~= seq!['/']);
    match path::relative_path(
        &path::components_in(root, platform),
        &path::components_in(path, platform),
        platform,
    ) {
        None => None,
        Some(components) => {
            let way = names::show(path::text_of(&components, platform).as_str());
            Some(search::replace(way.as_str(), "\\", "/"))
        },
    }
}

/// Whether one of the captures has this name.
fn has_capture(captures: &[(String, String)], token: &str) -> (found: bool)
    ensures
        found == is_captured(captures.deep_view(), token@),
{
    let ghost all = captures.deep_view();
    let mut k: usize = 0;
    while k < captures.len()
        invariant
            k <= captures@.len(),
            all == captures.deep_view(),
            forall|j: int| 0 <= j < k ==> (#[trigger] all[j]).0 != token@,
        decreases captures@.len() - k,
    {
        assert(all[k as int].0 == captures@[k as int].0@);
        if text::same(captures[k].0.as_str(), token) {
            return true;
        }
        k += 1;
    }
    false
}

/// The text captured under a name.
fn find_capture(captures: &[(String, String)], token: &str) -> (found: Option<String>)
    ensures
        found.deep_view() == capture_from(captures.deep_view(), token@, 0),
{
    let ghost all = captures.deep_view();
    let mut k: usize = 0;
    while k < captures.len()
        invariant
            k <= captures@.len(),
            all == captures.deep_view(),
            capture_from(all, token@, 0) == capture_from(all, token@, k as int),
        decreases captures@.len() - k,
    {
        assert(all[k as int].0 == captures@[k as int].0@);
        assert(all[k as int].1 == captures@[k as int].1@);
        if text::same(captures[k].0.as_str(), token) {
            return Some(captures[k].1.clone());
        }
        k += 1;
    }
    None
}

/// What the tokens of `pattern` capture in `value`, where all of it matches.
pub fn capture_tokens(pattern: &str, value: &str) -> (found: Option<Vec<(String, String)>>)
    ensures
        found.deep_view() == captured(pattern@, value@, 0, 0, Seq::empty()),
{
    let chars = text::chars_of(pattern);
    let text = text::chars_of(value);
    let total: usize = chars.len();
    let size: usize = text.len();
    let left: [char; 1] = ['{'];
    let right: [char; 1] = ['}'];
    assert(left@ =~= seq!['{']);
    assert(right@ =~= seq!['}']);
    let mut captures: Vec<(String, String)> = Vec::new();
    assert(captures.deep_view() =~= Seq::<(Seq<char>, Seq<char>)>::empty());
    let mut p: usize = 0;
    let mut v: usize = 0;
    loop
        invariant
            chars@ == pattern@,
            text@ == value@,
            total == chars@.len(),
            size == text@.len(),
            left@ == seq!['{'],
            right@ == seq!['}'],
            p <= total,
            v <= size,
            captured(pattern@, value@, 0, 0, Seq::empty()) == captured(
                pattern@,
                value@,
                p as int,
                v as int,
                captures.deep_view(),
            ),
        decreases total - p,
    {
        let open: usize = match search::find(&chars, &left, p) {
            None => {
                let rest = text::string_of(&chars, p, total);
                let tail = text::string_of(&text, v, size);
                assert(rest@ =~= pattern@.skip(p as int));
                assert(tail@ =~= value@.skip(v as int));
                return if text::same(rest.as_str(), tail.as_str()) {
                    Some(captures)
                } else {
                    None
                };
            },
            Some(open) => open,
        };
        proof {
            search::lemma_find(pattern@, seq!['{'], p as int);
        }
        let close: usize = match search::find(&chars, &right, open) {
            None => {
                return None;
            },
            Some(close) => close,
        };
        proof {
            search::lemma_find(pattern@, seq!['}'], open as int);
            assert(pattern@.subrange(open as int, open + 1)[0] == '{');
            assert(pattern@.subrange(close as int, close + 1)[0] == '}');
        }
        let literal = text::chars_of(text::string_of(&chars, p, open).as_str());
        if !search::is_at(&text, &literal, v) {
            return None;
        }
        let start: usize = v + literal.len();
        let token = text::string_of(&chars, open + 1, close);
        let next_end: usize = match search::find(&chars, &left, close + 1) {
            Some(i) => i,
            None => total,
        };
        proof {
            search::lemma_find(pattern@, seq!['{'], close + 1);
        }
        let next = text::chars_of(text::string_of(&chars, close + 1, next_end).as_str());
        let end: usize = if next.len() == 0 {
            size
        } else {
            match search::find(&text, &next, start) {
                Some(i) => i,
                None => size,
            }
        };
        proof {
            search::lemma_find(value@, next@, start as int);
        }
        let ghost capture = value@.subrange(start as int, end as int);
        if end == start || text::has_char(&text, start, end, '/') || has_capture(
            &captures,
            token.as_str(),
        ) {
            return None;
        }
        let ghost before = captures.deep_view();
        let ghost pair = (token@, capture);
        captures.push((token, text::string_of(&text, start, end)));
        assert(captures.deep_view() =~= before.push(pair));
        p = close + 1;
        v = end;
    }
}

/// The identity that the tokens of `pattern` find in a relative path.
pub fn identity_of(pattern: &str, path: &str) -> (identity: Option<DictionaryIdentity>)
    ensures
        identity.deep_view() == identity_in(pattern@, path@),
{
    match capture_tokens(pattern, path) {
        None => None,
        Some(captures) => match find_capture(&captures, "locale") {
            None => None,
            Some(locale) => Some(
                DictionaryIdentity { locale, namespace: find_capture(&captures, "namespace") },
            ),
        },
    }
}

} // verus!
