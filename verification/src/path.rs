//! Paths as lists of components, by the rules of a platform.
use crate::names;
use crate::search;
use crate::text;
use vstd::prelude::*;

verus! {

/// The components among the first `n` parts between slashes: empty ones do not count, nor does
/// `.` but at the start.
pub open spec fn components_of(parts: Seq<Seq<char>>, n: int) -> Seq<Seq<char>>
    decreases n,
{
    if n <= 0 {
        Seq::empty()
    } else if parts[n - 1].len() == 0 || (parts[n - 1] == seq!['.'] && n > 1) {
        components_of(parts, n - 1)
    } else {
        components_of(parts, n - 1).push(parts[n - 1])
    }
}

/// How paths are written.
#[derive(Clone, Copy, Debug, PartialEq, Eq, Structural)]
pub enum Platform {
    /// With `/` between components.
    Posix,
    /// With `/` or `\\` between components, behind a drive or a share; files are found whatever the
    /// case of their letters.
    Windows,
}

/// Calls `std::path::is_separator` for a backslash. The result depends on the operating system, so
/// nothing is said of it.
#[verifier::external_body]
fn splits_at_backslash() -> (found: bool) {
    std::path::is_separator('\\')
}

fn called<F: Fn() -> bool>(ask: F) -> (result: bool)
    requires
        call_requires(ask, ()),
    ensures
        call_ensures(ask, (), result),
{
    ask()
}

/// Whether this is the platform that a call of `splits_at_backslash` tells of.
pub closed spec fn is_here(platform: Platform) -> bool {
    call_ensures(splits_at_backslash, (), platform == Platform::Windows)
}

/// The platform that the program runs on.
pub fn platform_here() -> (platform: Platform)
    ensures
        is_here(platform),
{
    if called(splits_at_backslash) {
        Platform::Windows
    } else {
        Platform::Posix
    }
}

/// A path with slashes only between its components.
pub open spec fn slashed(path: Seq<char>, platform: Platform) -> Seq<char> {
    match platform {
        Platform::Posix => path,
        Platform::Windows => search::replaced(path, seq!['\\'], seq!['/']),
    }
}

/// Whether `c` is a letter of ASCII.
pub open spec fn is_letter(c: char) -> bool {
    ('a' <= c && c <= 'z') || ('A' <= c && c <= 'Z')
}

/// Whether a component is a drive, such as `C:`.
pub open spec fn is_drive(component: Seq<char>) -> bool {
    component.len() == 2 && is_letter(component[0]) && component[1] == ':'
}

/// Whether a component is a drive, or a share such as `//server/share`.
pub open spec fn is_prefix(component: Seq<char>) -> bool {
    is_drive(component) || search::starts_with(component, seq!['/', '/'])
}

/// Where the next slash stands, or where the path ends.
pub open spec fn part_end(path: Seq<char>, from: int) -> int {
    match search::find_from(path, seq!['/'], from) {
        Some(i) => i,
        None => path.len() as int,
    }
}

/// Where the drive or the share ends that a path with slashes begins with.
pub open spec fn prefix_end(path: Seq<char>, platform: Platform) -> int {
    if platform == Platform::Posix {
        0
    } else if path.len() >= 2 && is_letter(path[0]) && path[1] == ':' {
        2
    } else if path.len() > 2 && path[0] == '/' && path[1] == '/' && path[2] != '/' {
        let server = part_end(path, 2);
        if server < path.len() {
            part_end(path, server + 1)
        } else {
            server
        }
    } else {
        0
    }
}

/// The components of a path with slashes that begins with no drive or share.
pub open spec fn plain_components(path: Seq<char>, rooted: bool) -> Seq<Seq<char>> {
    let parts = search::segments(path, seq!['/']);
    let rest = components_of(parts, parts.len() as int);
    if rooted {
        seq![seq!['/']] + rest
    } else {
        rest
    }
}

/// The components of a path: its drive or share, the root as the component `/`, and the rest.
pub open spec fn components(path: Seq<char>, platform: Platform) -> Seq<Seq<char>> {
    let plain = slashed(path, platform);
    let end = prefix_end(plain, platform);
    let rest = plain.skip(end);
    let found = plain_components(rest, end > 2 || search::starts_with(rest, seq!['/']));
    if end > 0 {
        seq![plain.take(end)] + found
    } else {
        found
    }
}

/// A character in lower case, where it is of ASCII.
pub open spec fn lower(c: char) -> char {
    if 'A' <= c && c <= 'Z' {
        ((c as u32 + 32) as u32) as char
    } else {
        c
    }
}

/// A text with the letters of ASCII in lower case.
pub open spec fn lowered(text: Seq<char>) -> Seq<char> {
    text.map_values(|c: char| lower(c))
}

/// Components as they are compared: the letter of a drive in lower case.
pub open spec fn folded(components: Seq<Seq<char>>, platform: Platform) -> Seq<Seq<char>> {
    if platform == Platform::Windows && components.len() > 0 && is_drive(components[0]) {
        components.update(0, lowered(components[0]))
    } else {
        components
    }
}

/// Components as the places of files are compared: on Windows as they are shown, in lower case.
pub open spec fn leveled(components: Seq<Seq<char>>, platform: Platform) -> Seq<Seq<char>> {
    match platform {
        Platform::Posix => components,
        Platform::Windows => components.map_values(
            |component: Seq<char>| lowered(names::shown(component)),
        ),
    }
}

/// Whether `..` takes the last component back: not a root, a drive or a share.
pub open spec fn can_climb(path: Seq<Seq<char>>, platform: Platform) -> bool {
    &&& path.len() > 0
    &&& path.last() != seq!['/']
    &&& !(platform == Platform::Windows && path.len() == 1 && is_prefix(path[0]))
}

/// One more component behind a path without `.` and `..`.
pub open spec fn stepped(
    path: Seq<Seq<char>>,
    component: Seq<char>,
    platform: Platform,
) -> Seq<Seq<char>> {
    if component == seq!['.'] {
        path
    } else if component == seq!['.', '.'] {
        if can_climb(path, platform) {
            path.drop_last()
        } else {
            path
        }
    } else {
        path.push(component)
    }
}

/// The first `n` components with `.` and `..` carried out; nothing lies above the root.
pub open spec fn normalized(components: Seq<Seq<char>>, n: int, platform: Platform) -> Seq<Seq<char>>
    decreases n,
{
    if n <= 0 {
        Seq::empty()
    } else {
        stepped(normalized(components, n - 1, platform), components[n - 1], platform)
    }
}

/// The path with these components behind a drive or a share, with slashes.
pub open spec fn plain_text(components: Seq<Seq<char>>) -> Seq<char> {
    if components.len() > 0 && components[0] == seq!['/'] {
        seq!['/'] + search::joined(components.skip(1), seq!['/'])
    } else {
        search::joined(components, seq!['/'])
    }
}

/// The path with these components.
pub open spec fn path_text(components: Seq<Seq<char>>, platform: Platform) -> Seq<char> {
    match platform {
        Platform::Posix => plain_text(components),
        Platform::Windows => {
            let text = if components.len() > 0 && is_prefix(components[0]) {
                components[0] + plain_text(components.skip(1))
            } else {
                plain_text(components)
            };
            search::replaced(text, seq!['/'], seq!['\\'])
        },
    }
}

/// How many components two paths share from index `from` on, and `from` before them.
pub open spec fn shared(left: Seq<Seq<char>>, right: Seq<Seq<char>>, from: int) -> int
    decreases left.len() - from,
{
    if from < left.len() && from < right.len() && left[from] == right[from] {
        shared(left, right, from + 1)
    } else {
        from
    }
}

/// The way from `root` to `path`, where they share a component.
pub open spec fn relative(
    root: Seq<Seq<char>>,
    path: Seq<Seq<char>>,
    platform: Platform,
) -> Option<Seq<Seq<char>>> {
    let from = normalized(root, root.len() as int, platform);
    let to = normalized(path, path.len() as int, platform);
    let common = shared(folded(from, platform), folded(to, platform), 0);
    if common == 0 {
        None
    } else {
        Some(Seq::new((from.len() - common) as nat, |i: int| seq!['.', '.']) + to.skip(common))
    }
}

/// Whether `path` lies in `root` or is it.
pub open spec fn is_within(path: Seq<char>, root: Seq<char>, platform: Platform) -> bool {
    folded(components(root, platform), platform).is_prefix_of(
        folded(components(path, platform), platform),
    )
}

/// Whether the file at `path` lies in `root` or is it, on Windows whatever the case of letters.
pub open spec fn is_inside(path: Seq<char>, root: Seq<char>, platform: Platform) -> bool {
    leveled(components(root, platform), platform).is_prefix_of(
        leveled(components(path, platform), platform),
    )
}

/// The components of a path with slashes that begins with no drive or share.
fn plain_components_in(path: &str, rooted: bool) -> (found: Vec<String>)
    ensures
        found.deep_view() == plain_components(path@, rooted),
{
    proof {
        reveal_strlit("/");
        reveal_strlit(".");
    }
    assert("/"@ =~= seq!['/']);
    assert("."@ =~= seq!['.']);
    let parts = search::split(path, "/");
    let ghost all = search::segments(path@, seq!['/']);
    let mut found: Vec<String> = Vec::new();
    let ghost front: Seq<Seq<char>> = if rooted {
        seq![seq!['/']]
    } else {
        Seq::empty()
    };
    if rooted {
        found.push("/".to_owned());
    }
    assert(found.deep_view() =~= front + components_of(all, 0));
    let mut n: usize = 0;
    while n < parts.len()
        invariant
            n <= parts@.len(),
            all == parts.deep_view(),
            "."@ == seq!['.'],
            found.deep_view() == front + components_of(all, n as int),
        decreases parts@.len() - n,
    {
        assert(all[n as int] == parts@[n as int]@);
        let part = parts[n].as_str();
        if !part.is_empty() && (n == 0 || !text::same(part, ".")) {
            let ghost before = found.deep_view();
            found.push(part.to_owned());
            assert(found.deep_view() =~= before.push(all[n as int]));
            assert(front + components_of(all, n + 1) =~= before.push(all[n as int]));
        }
        n += 1;
    }
    assert(found.deep_view() =~= plain_components(path@, rooted));
    found
}

/// Where the next slash stands, or where the path ends.
fn find_part_end(path: &[char], from: usize) -> (end: usize)
    requires
        from <= path@.len(),
    ensures
        end == part_end(path@, from as int),
        from <= end <= path@.len(),
{
    let slash: [char; 1] = ['/'];
    assert(slash@ =~= seq!['/']);
    proof {
        search::lemma_find(path@, seq!['/'], from as int);
    }
    match search::find(path, &slash, from) {
        Some(i) => i,
        None => path.len(),
    }
}

fn letter(c: char) -> (found: bool)
    ensures
        found == is_letter(c),
{
    ('a' <= c && c <= 'z') || ('A' <= c && c <= 'Z')
}

/// Where the drive or the share ends that a path with slashes begins with.
fn find_prefix_end(path: &[char], platform: Platform) -> (end: usize)
    ensures
        end == prefix_end(path@, platform),
        end <= path@.len(),
{
    let total: usize = path.len();
    match platform {
        Platform::Posix => 0,
        Platform::Windows => if total >= 2 && letter(path[0]) && path[1] == ':' {
            2
        } else if total > 2 && path[0] == '/' && path[1] == '/' && path[2] != '/' {
            let server: usize = find_part_end(path, 2);
            if server < total {
                find_part_end(path, server + 1)
            } else {
                server
            }
        } else {
            0
        },
    }
}

/// A path with slashes only between its components.
fn slash(path: &str, platform: Platform) -> (plain: String)
    ensures
        plain@ == slashed(path@, platform),
{
    proof {
        reveal_strlit("\\");
        reveal_strlit("/");
    }
    assert("\\"@ =~= seq!['\\']);
    assert("/"@ =~= seq!['/']);
    match platform {
        Platform::Posix => path.to_owned(),
        Platform::Windows => search::replace(path, "\\", "/"),
    }
}

/// The components of a path.
pub fn components_in(path: &str, platform: Platform) -> (found: Vec<String>)
    ensures
        found.deep_view() == components(path@, platform),
{
    proof {
        reveal_strlit("/");
    }
    assert("/"@ =~= seq!['/']);
    let plain = slash(path, platform);
    let chars = text::chars_of(plain.as_str());
    let end: usize = find_prefix_end(&chars, platform);
    let rest = text::string_of(&chars, end, chars.len());
    assert(rest@ =~= plain@.skip(end as int));
    let mut more = plain_components_in(
        rest.as_str(),
        end > 2 || search::begins(rest.as_str(), "/"),
    );
    if end == 0 {
        return more;
    }
    let ghost found = more.deep_view();
    let lead = text::string_of(&chars, 0, end);
    assert(lead@ =~= plain@.take(end as int));
    let mut all: Vec<String> = Vec::new();
    all.push(lead);
    all.append(&mut more);
    assert(all.deep_view() =~= seq![lead@] + found);
    all
}

/// A text with the letters of ASCII in lower case.
pub fn lower_text(text: &str) -> (found: String)
    ensures
        found@ == lowered(text@),
{
    let chars = text::chars_of(text);
    let mut found = String::new();
    let mut n: usize = 0;
    assert(found@ =~= lowered(text@).take(0));
    while n < chars.len()
        invariant
            n <= chars@.len(),
            chars@ == text@,
            found@ == lowered(text@).take(n as int),
        decreases chars@.len() - n,
    {
        let c = chars[n];
        let ghost before = found@;
        if 'A' <= c && c <= 'Z' {
            if let Some(small) = char::from_u32(c as u32 + 32) {
                proof {
                    vstd::utf8::char_u32_cast(small, (c as u32 + 32) as u32);
                }
                found.push(small);
            }
        } else {
            found.push(c);
        }
        assert(found@ =~= before.push(lower(c)));
        assert(lowered(text@).take(n + 1) =~= before.push(lower(c)));
        n += 1;
    }
    assert(lowered(text@).take(n as int) =~= lowered(text@));
    found
}

/// Whether a component is a drive.
fn drive(component: &str) -> (found: bool)
    ensures
        found == is_drive(component@),
{
    let chars = text::chars_of(component);
    chars.len() == 2 && letter(chars[0]) && chars[1] == ':'
}

/// Whether a component is a drive or a share.
fn prefix(component: &str) -> (found: bool)
    ensures
        found == is_prefix(component@),
{
    proof {
        reveal_strlit("//");
    }
    assert("//"@ =~= seq!['/', '/']);
    drive(component) || search::begins(component, "//")
}

/// Components as they are compared.
fn fold(components: &[String], platform: Platform) -> (found: Vec<String>)
    ensures
        found.deep_view() == folded(components.deep_view(), platform),
{
    let ghost all = components.deep_view();
    let mut found = text::copies(components);
    assert(found.deep_view().len() == found@.len());
    match platform {
        Platform::Posix => {},
        Platform::Windows => {
            if found.len() > 0 {
                assert(all[0] == found@[0]@);
                if drive(found[0].as_str()) {
                    let small = lower_text(found[0].as_str());
                    found.set(0, small);
                    assert(found.deep_view() =~= all.update(0, lowered(all[0])));
                }
            }
        },
    }
    found
}

/// The components of a path as they are compared.
pub fn folded_in(path: &str, platform: Platform) -> (found: Vec<String>)
    ensures
        found.deep_view() == folded(components(path@, platform), platform),
{
    fold(&components_in(path, platform), platform)
}

/// Components as the places of files are compared.
fn level(components: &[String], platform: Platform) -> (found: Vec<String>)
    ensures
        found.deep_view() == leveled(components.deep_view(), platform),
{
    let ghost all = components.deep_view();
    match platform {
        Platform::Posix => text::copies(components),
        Platform::Windows => {
            let ghost low = leveled(all, platform);
            let mut found: Vec<String> = Vec::new();
            let mut n: usize = 0;
            assert(found.deep_view() =~= low.take(0));
            while n < components.len()
                invariant
                    n <= components@.len(),
                    all == components.deep_view(),
                    low == all.map_values(
                        |component: Seq<char>| lowered(names::shown(component)),
                    ),
                    found.deep_view() == low.take(n as int),
                decreases components@.len() - n,
            {
                assert(all[n as int] == components@[n as int]@);
                let ghost before = found.deep_view();
                found.push(lower_text(names::show(components[n].as_str()).as_str()));
                assert(found.deep_view() =~= before.push(low[n as int]));
                assert(low.take(n + 1) =~= before.push(low[n as int]));
                n += 1;
            }
            assert(low.take(n as int) =~= low);
            found
        },
    }
}

/// The components with `.` and `..` carried out.
pub fn normalize(components: &[String], platform: Platform) -> (found: Vec<String>)
    ensures
        found.deep_view() == normalized(
            components.deep_view(),
            components@.len() as int,
            platform,
        ),
{
    proof {
        reveal_strlit("/");
        reveal_strlit(".");
        reveal_strlit("..");
    }
    assert("/"@ =~= seq!['/']);
    assert("."@ =~= seq!['.']);
    assert(".."@ =~= seq!['.', '.']);
    let ghost all = components.deep_view();
    let mut found: Vec<String> = Vec::new();
    assert(found.deep_view() =~= Seq::<Seq<char>>::empty());
    let mut n: usize = 0;
    while n < components.len()
        invariant
            n <= components@.len(),
            all == components.deep_view(),
            "/"@ == seq!['/'],
            "."@ == seq!['.'],
            ".."@ == seq!['.', '.'],
            found.deep_view() == normalized(all, n as int, platform),
        decreases components@.len() - n,
    {
        assert(all[n as int] == components@[n as int]@);
        let component = components[n].as_str();
        let ghost before = found.deep_view();
        if text::same(component, ".") {
        } else if text::same(component, "..") {
            let count: usize = found.len();
            assert(count > 0 ==> before.last() == found@[count - 1]@);
            let fixed: bool = count == 0 || text::same(found[count - 1].as_str(), "/") || match platform {
                Platform::Posix => false,
                Platform::Windows => count == 1 && prefix(found[0].as_str()),
            };
            if !fixed {
                found.pop();
                assert(found.deep_view() =~= before.drop_last());
            }
        } else {
            found.push(component.to_owned());
            assert(found.deep_view() =~= before.push(all[n as int]));
        }
        n += 1;
    }
    found
}

/// The path with these components behind a drive or a share, from `from` on, with slashes.
fn write_plain(components: &[String], from: usize) -> (path: String)
    requires
        from <= components@.len(),
    ensures
        path@ == plain_text(components.deep_view().skip(from as int)),
{
    proof {
        reveal_strlit("/");
    }
    assert("/"@ =~= seq!['/']);
    let ghost all = components.deep_view();
    let mut path = String::new();
    let mut start: usize = from;
    if from < components.len() {
        assert(all[from as int] == components@[from as int]@);
        if text::same(components[from].as_str(), "/") {
            path.append("/");
            start = from + 1;
        }
    }
    let ghost lead = path@;
    let mut rest: Vec<String> = Vec::new();
    let mut n: usize = start;
    assert(rest.deep_view() =~= all.subrange(start as int, start as int));
    while n < components.len()
        invariant
            start <= n <= components@.len(),
            all == components.deep_view(),
            rest.deep_view() == all.subrange(start as int, n as int),
        decreases components@.len() - n,
    {
        assert(all[n as int] == components@[n as int]@);
        let ghost before = rest.deep_view();
        rest.push(components[n].clone());
        assert(rest.deep_view() =~= before.push(all[n as int]));
        assert(all.subrange(start as int, n + 1) =~= before.push(all[n as int]));
        n += 1;
    }
    assert(rest.deep_view() =~= all.skip(start as int));
    path.append(search::join(&rest, "/").as_str());
    assert(from < all.len() ==> all.skip(from as int).skip(1) =~= all.skip(from + 1));
    assert(Seq::<char>::empty() + search::joined(all.skip(from as int), seq!['/'])
        =~= search::joined(all.skip(from as int), seq!['/']));
    assert(lead =~= seq!['/'] || lead =~= Seq::<char>::empty());
    path
}

/// The path with these components.
pub fn text_of(components: &[String], platform: Platform) -> (path: String)
    ensures
        path@ == path_text(components.deep_view(), platform),
{
    proof {
        reveal_strlit("/");
        reveal_strlit("\\");
    }
    assert("/"@ =~= seq!['/']);
    assert("\\"@ =~= seq!['\\']);
    let ghost all = components.deep_view();
    assert(all.skip(0) =~= all);
    match platform {
        Platform::Posix => write_plain(components, 0),
        Platform::Windows => {
            if components.len() > 0 {
                assert(all[0] == components@[0]@);
                if prefix(components[0].as_str()) {
                    let mut path = components[0].clone();
                    path.append(write_plain(components, 1).as_str());
                    return search::replace(path.as_str(), "/", "\\");
                }
            }
            search::replace(write_plain(components, 0).as_str(), "/", "\\")
        },
    }
}

/// How many components two paths share at their start.
fn shared_count(left: &[String], right: &[String]) -> (count: usize)
    ensures
        count == shared(left.deep_view(), right.deep_view(), 0),
        count <= left@.len(),
        count <= right@.len(),
{
    let mut n: usize = 0;
    while n < left.len() && n < right.len()
        invariant
            n <= left@.len(),
            n <= right@.len(),
            shared(left.deep_view(), right.deep_view(), 0) == shared(
                left.deep_view(),
                right.deep_view(),
                n as int,
            ),
        decreases left@.len() - n,
    {
        assert(left.deep_view()[n as int] == left@[n as int]@);
        assert(right.deep_view()[n as int] == right@[n as int]@);
        if !text::same(left[n].as_str(), right[n].as_str()) {
            return n;
        }
        n += 1;
    }
    n
}

/// The way from `root` to `path`, where they share a component.
pub fn relative_path(root: &[String], path: &[String], platform: Platform) -> (way: Option<
    Vec<String>,
>)
    ensures
        way.deep_view() == relative(root.deep_view(), path.deep_view(), platform),
{
    let from = normalize(root, platform);
    let to = normalize(path, platform);
    let common: usize = shared_count(&fold(&from, platform), &fold(&to, platform));
    assert(folded(from.deep_view(), platform).len() == from@.len());
    assert(folded(to.deep_view(), platform).len() == to@.len());
    if common == 0 {
        return None;
    }
    proof {
        reveal_strlit("..");
    }
    assert(".."@ =~= seq!['.', '.']);
    let ghost up = Seq::new((from@.len() - common) as nat, |i: int| seq!['.', '.']);
    let mut way: Vec<String> = Vec::new();
    assert(way.deep_view() =~= up.take(0));
    let mut n: usize = common;
    while n < from.len()
        invariant
            common <= n <= from@.len(),
            ".."@ == seq!['.', '.'],
            up == Seq::new((from@.len() - common) as nat, |i: int| seq!['.', '.']),
            way.deep_view() == up.take(n - common),
        decreases from@.len() - n,
    {
        let ghost before = way.deep_view();
        way.push("..".to_owned());
        assert(way.deep_view() =~= before.push(".."@));
        assert(up.take(n + 1 - common) =~= before.push(up[n - common]));
        n += 1;
    }
    assert(up.take(n - common) =~= up);
    let ghost target = to.deep_view();
    let mut m: usize = common;
    assert(up + target.subrange(common as int, common as int) =~= up);
    while m < to.len()
        invariant
            common <= m <= to@.len(),
            target == to.deep_view(),
            way.deep_view() == up + target.subrange(common as int, m as int),
        decreases to@.len() - m,
    {
        let ghost before = way.deep_view();
        way.push(to[m].clone());
        assert(way.deep_view() =~= before.push(target[m as int]));
        assert(up + target.subrange(common as int, m + 1) =~= before.push(target[m as int]));
        m += 1;
    }
    assert(target.subrange(common as int, m as int) =~= target.skip(common as int));
    Some(way)
}

/// Whether the components of a directory are those that a path begins with.
fn leads(outer: &[String], inner: &[String]) -> (found: bool)
    ensures
        found == outer.deep_view().is_prefix_of(inner.deep_view()),
{
    let count: usize = shared_count(outer, inner);
    proof {
        lemma_shared(outer.deep_view(), inner.deep_view(), 0);
    }
    let ghost a = outer.deep_view();
    let ghost b = inner.deep_view();
    if count == outer.len() {
        assert(a =~= b.take(a.len() as int));
        true
    } else {
        assert(!a.is_prefix_of(b)) by {
            if a.is_prefix_of(b) {
                assert(a[count as int] == b.subrange(0, a.len() as int)[count as int]);
            }
        }
        false
    }
}

/// Whether `path` lies in `root` or is it.
pub fn within(path: &str, root: &str, platform: Platform) -> (found: bool)
    ensures
        found == is_within(path@, root@, platform),
{
    leads(&folded_in(root, platform), &folded_in(path, platform))
}

/// Whether the file at `path` lies in `root` or is it, on Windows whatever the case of letters.
pub fn path_is_within(path: &str, root: &str, platform: Platform) -> (found: bool)
    ensures
        found == is_inside(path@, root@, platform),
{
    let outer = level(&components_in(root, platform), platform);
    let inner = level(&components_in(path, platform), platform);
    leads(&outer, &inner)
}

pub(crate) proof fn lemma_shared(left: Seq<Seq<char>>, right: Seq<Seq<char>>, from: int)
    requires
        0 <= from <= left.len(),
        from <= right.len(),
    ensures
        from <= shared(left, right, from) <= left.len(),
        shared(left, right, from) <= right.len(),
        forall|k: int| from <= k < shared(left, right, from) ==> left[k] == right[k],
        shared(left, right, from) < left.len() && shared(left, right, from) < right.len()
            ==> left[shared(left, right, from)] != right[shared(left, right, from)],
    decreases left.len() - from,
{
    if from < left.len() && from < right.len() && left[from] == right[from] {
        lemma_shared(left, right, from + 1);
    }
}

/// Where a component stands by its kind: the root first, then `.` and `..`, then names.
pub open spec fn component_rank(component: Seq<char>) -> int {
    if component == seq!['/'] {
        0
    } else if component == seq!['.'] {
        1
    } else if component == seq!['.', '.'] {
        2
    } else {
        3
    }
}

/// Whether the first of two components comes before the second.
pub open spec fn component_ahead(first: Seq<char>, second: Seq<char>) -> bool {
    ||| component_rank(first) < component_rank(second)
    ||| component_rank(first) == component_rank(second) && text::precedes(first, second)
}

/// Where two paths first differ, with `a` the earlier one there: `a` ends, or has the earlier
/// component.
pub open spec fn ahead_at(a: Seq<Seq<char>>, b: Seq<Seq<char>>, k: int) -> bool {
    &&& 0 <= k <= a.len()
    &&& k < b.len()
    &&& a.take(k) == b.take(k)
    &&& k == a.len() || component_ahead(a[k], b[k])
}

/// The order of paths: component by component, a directory before what is in it.
pub open spec fn path_ahead(a: Seq<Seq<char>>, b: Seq<Seq<char>>) -> bool {
    exists|k: int| ahead_at(a, b, k)
}

proof fn lemma_component_total(a: Seq<char>, b: Seq<char>)
    ensures
        component_ahead(a, b) || component_ahead(b, a) || a == b,
        !(component_ahead(a, b) && component_ahead(b, a)),
        !component_ahead(a, a),
{
    text::precedes_total(a, b);
    text::precedes_irreflexive(a);
}

proof fn lemma_component_transitive(a: Seq<char>, b: Seq<char>, c: Seq<char>)
    requires
        component_ahead(a, b),
        component_ahead(b, c),
    ensures
        component_ahead(a, c),
{
    if text::precedes(a, b) && text::precedes(b, c) {
        text::precedes_transitive(a, b, c);
    }
}

/// Of two different paths one comes before the other, and not both.
pub proof fn path_ahead_total(a: Seq<Seq<char>>, b: Seq<Seq<char>>)
    ensures
        path_ahead(a, b) || path_ahead(b, a) || a == b,
        !(path_ahead(a, b) && path_ahead(b, a)),
{
    if path_ahead(a, b) && path_ahead(b, a) {
        let j = choose|j: int| ahead_at(a, b, j);
        let k = choose|k: int| ahead_at(b, a, k);
        if j < k {
            assert(b.take(k)[j] == a.take(k)[j]);
            lemma_component_total(a[j], a[j]);
        } else if k < j {
            assert(a.take(j)[k] == b.take(j)[k]);
            lemma_component_total(b[k], b[k]);
        } else {
            lemma_component_total(a[j], b[j]);
        }
    }
    assert(a.take(0) =~= b.take(0));
    lemma_first_difference(a, b, 0);
}

proof fn lemma_first_difference(a: Seq<Seq<char>>, b: Seq<Seq<char>>, k: int)
    requires
        0 <= k <= a.len(),
        k <= b.len(),
        a.take(k) == b.take(k),
    ensures
        path_ahead(a, b) || path_ahead(b, a) || a == b,
    decreases a.len() - k,
{
    if k == a.len() {
        if k < b.len() {
            assert(ahead_at(a, b, k));
        } else {
            assert(a.take(k) =~= a);
            assert(b.take(k) =~= b);
        }
    } else if k == b.len() {
        assert(ahead_at(b, a, k));
    } else if a[k] == b[k] {
        assert(a.take(k + 1) =~= a.take(k).push(a[k]));
        assert(b.take(k + 1) =~= b.take(k).push(b[k]));
        lemma_first_difference(a, b, k + 1);
    } else {
        lemma_component_total(a[k], b[k]);
        if component_ahead(a[k], b[k]) {
            assert(ahead_at(a, b, k));
        } else {
            assert(ahead_at(b, a, k));
        }
    }
}

/// The order of paths is transitive.
pub proof fn path_ahead_transitive(a: Seq<Seq<char>>, b: Seq<Seq<char>>, c: Seq<Seq<char>>)
    requires
        path_ahead(a, b),
        path_ahead(b, c),
    ensures
        path_ahead(a, c),
{
    let j = choose|j: int| ahead_at(a, b, j);
    let k = choose|k: int| ahead_at(b, c, k);
    let m = if j < k {
        j
    } else {
        k
    };
    assert(a.take(m) =~= a.take(j).take(m));
    assert(b.take(m) =~= b.take(j).take(m));
    assert(b.take(m) =~= b.take(k).take(m));
    assert(c.take(m) =~= c.take(k).take(m));
    if j < k {
        assert(b.take(k)[j] == c.take(k)[j]);
    } else if k < j {
        assert(a.take(j)[k] == b.take(j)[k]);
    } else if j < a.len() && j < b.len() {
        lemma_component_transitive(a[j], b[j], c[j]);
    }
    assert(ahead_at(a, c, m));
}

/// Where a component stands by its kind.
fn rank_component(component: &str) -> (rank: u8)
    ensures
        rank == component_rank(component@),
{
    proof {
        reveal_strlit("/");
        reveal_strlit(".");
        reveal_strlit("..");
    }
    assert("/"@ =~= seq!['/']);
    assert("."@ =~= seq!['.']);
    assert(".."@ =~= seq!['.', '.']);
    if text::same(component, "/") {
        0
    } else if text::same(component, ".") {
        1
    } else if text::same(component, "..") {
        2
    } else {
        3
    }
}

/// Whether the first of two paths comes before the second.
pub fn comes_before(left: &[String], right: &[String]) -> (found: bool)
    ensures
        found == path_ahead(left.deep_view(), right.deep_view()),
{
    let ghost a = left.deep_view();
    let ghost b = right.deep_view();
    let count: usize = shared_count(left, right);
    proof {
        lemma_shared(a, b, 0);
        assert(a.take(count as int) =~= b.take(count as int));
        path_ahead_total(a, b);
    }
    if count == right.len() {
        proof {
            if path_ahead(a, b) {
                let k = choose|k: int| ahead_at(a, b, k);
                assert(a.take(count as int)[k] == b.take(count as int)[k]);
                lemma_component_total(b[k], b[k]);
            }
        }
        return false;
    }
    if count == left.len() {
        assert(ahead_at(a, b, count as int));
        return true;
    }
    assert(a[count as int] == left@[count as int]@);
    assert(b[count as int] == right@[count as int]@);
    let first = left[count].as_str();
    let second = right[count].as_str();
    let rank_first: u8 = rank_component(first);
    let rank_second: u8 = rank_component(second);
    let ahead: bool = rank_first < rank_second || (rank_first == rank_second && text::less(
        first,
        second,
    ));
    proof {
        lemma_component_total(a[count as int], b[count as int]);
        if ahead {
            assert(ahead_at(a, b, count as int));
        } else {
            assert(ahead_at(b, a, count as int));
        }
    }
    ahead
}

/// Whether two paths have the same components.
pub fn same_components(left: &[String], right: &[String]) -> (same: bool)
    ensures
        same == (left.deep_view() == right.deep_view()),
{
    let ghost a = left.deep_view();
    let ghost b = right.deep_view();
    let count: usize = shared_count(left, right);
    proof {
        lemma_shared(a, b, 0);
    }
    if count == left.len() && count == right.len() {
        assert(a =~= b);
        true
    } else {
        assert(a.len() == left@.len());
        assert(b.len() == right@.len());
        false
    }
}

/// Whether a name follows a directory without a separator between them.
pub open spec fn is_open(directory: Seq<char>, platform: Platform) -> bool {
    ||| directory.len() == 0
    ||| directory.last() == '/'
    ||| platform == Platform::Windows && (directory.last() == '\\' || is_drive(directory))
}

/// A name behind a directory.
pub open spec fn below(directory: Seq<char>, name: Seq<char>, platform: Platform) -> Seq<char> {
    if is_open(directory, platform) {
        directory + name
    } else {
        match platform {
            Platform::Posix => directory + seq!['/'] + name,
            Platform::Windows => directory + seq!['\\'] + name,
        }
    }
}

/// A name behind a directory.
pub fn join(directory: &str, name: &str, platform: Platform) -> (path: String)
    ensures
        path@ == below(directory@, name@, platform),
{
    proof {
        reveal_strlit("/");
        reveal_strlit("\\");
    }
    assert("/"@ =~= seq!['/']);
    assert("\\"@ =~= seq!['\\']);
    let chars = text::chars_of(directory);
    let total: usize = chars.len();
    let mut path = directory.to_owned();
    match platform {
        Platform::Posix => {
            if total > 0 && chars[total - 1] != '/' {
                path.append("/");
            }
        },
        Platform::Windows => {
            if total > 0 && chars[total - 1] != '/' && chars[total - 1] != '\\' && !drive(
                directory,
            ) {
                path.append("\\");
            }
        },
    }
    path.append(name);
    path
}

/// Whether two paths have the same components, but for the case of a drive.
pub open spec fn is_equal(left: Seq<char>, right: Seq<char>, platform: Platform) -> bool {
    folded(components(left, platform), platform) == folded(components(right, platform), platform)
}

/// Whether two paths have the same components, but for the case of a drive.
pub fn equal_paths(left: &str, right: &str, platform: Platform) -> (same: bool)
    ensures
        same == is_equal(left@, right@, platform),
{
    same_components(&folded_in(left, platform), &folded_in(right, platform))
}

/// Whether two paths are one: on Windows where they are written alike but for the case of letters.
pub open spec fn is_same(left: Seq<char>, right: Seq<char>, platform: Platform) -> bool {
    match platform {
        Platform::Posix => components(left, platform) == components(right, platform),
        Platform::Windows => lowered(names::shown(left)) == lowered(names::shown(right)),
    }
}

/// Whether two paths are one: on Windows where they are written alike but for the case of letters.
pub fn same_path(left: &str, right: &str, platform: Platform) -> (same: bool)
    ensures
        same == is_same(left@, right@, platform),
{
    match platform {
        Platform::Posix => same_components(
            &components_in(left, platform),
            &components_in(right, platform),
        ),
        Platform::Windows => text::same(
            lower_text(names::show(left).as_str()).as_str(),
            lower_text(names::show(right).as_str()).as_str(),
        ),
    }
}

} // verus!
