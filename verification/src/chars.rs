//! Classes of characters, and what is cut off at them.
use crate::text;
use vstd::prelude::*;

verus! {

/// A class of characters.
#[derive(Clone, Copy, Debug, PartialEq, Eq, Structural)]
pub enum CharClass {
    /// Quotes around a string.
    Quote,
    /// What ends a line.
    LineBreak,
    /// What is no white space, as Unicode has it.
    Ink,
    /// What stands before the name of a function.
    CalleeBreak,
    /// What stands between the words of a key.
    WordBreak,
    /// An opening parenthesis.
    Parenthesis,
    /// An opening brace.
    OpenBrace,
    /// A closing brace.
    CloseBrace,
}

/// Whether `c` is white space: the code points with the property `White_Space`.
pub open spec fn is_space(c: char) -> bool {
    let code = c as u32;
    ||| 0x9 <= code <= 0xd
    ||| code == 0x20
    ||| code == 0x85
    ||| code == 0xa0
    ||| code == 0x1680
    ||| 0x2000 <= code <= 0x200a
    ||| code == 0x2028
    ||| code == 0x2029
    ||| code == 0x202f
    ||| code == 0x205f
    ||| code == 0x3000
}

/// Whether `c` belongs to a class.
pub open spec fn belongs(c: char, class: CharClass) -> bool {
    match class {
        CharClass::Quote => c == '\'' || c == '"',
        CharClass::LineBreak => c == '\n' || c == '\r',
        CharClass::Ink => !is_space(c),
        CharClass::CalleeBreak => is_space(c) || c == ';' || c == '=' || c == '{' || c == '}',
        CharClass::WordBreak => c == '.' || c == '_' || c == '-',
        CharClass::Parenthesis => c == '(',
        CharClass::OpenBrace => c == '{',
        CharClass::CloseBrace => c == '}',
    }
}

/// The first place at or after `from` with a character of the class.
pub open spec fn first_in(chars: Seq<char>, class: CharClass, from: int) -> Option<int>
    decreases chars.len() - from,
{
    if from >= chars.len() {
        None
    } else if belongs(chars[from], class) {
        Some(from)
    } else {
        first_in(chars, class, from + 1)
    }
}

/// The last place before `end` with a character of the class.
pub open spec fn last_in(chars: Seq<char>, class: CharClass, end: int) -> Option<int>
    decreases end,
{
    if end <= 0 {
        None
    } else if belongs(chars[end - 1], class) {
        Some(end - 1)
    } else {
        last_in(chars, class, end - 1)
    }
}

/// Where white space at the start of `chars` ends.
pub open spec fn ink_start(chars: Seq<char>) -> int {
    match first_in(chars, CharClass::Ink, 0) {
        Some(i) => i,
        None => chars.len() as int,
    }
}

/// Where white space at the end of `chars` starts.
pub open spec fn ink_end(chars: Seq<char>) -> int {
    match last_in(chars, CharClass::Ink, chars.len() as int) {
        Some(i) => i + 1,
        None => 0,
    }
}

/// `chars` without the white space at its start.
pub open spec fn trimmed_start(chars: Seq<char>) -> Seq<char> {
    chars.skip(ink_start(chars))
}

/// `chars` without the white space at its end.
pub open spec fn trimmed_end(chars: Seq<char>) -> Seq<char> {
    chars.take(ink_end(chars))
}

/// Whether `chars` holds nothing but white space.
pub open spec fn is_blank(chars: Seq<char>) -> bool {
    first_in(chars, CharClass::Ink, 0) is None
}

pub proof fn lemma_first_in(chars: Seq<char>, class: CharClass, from: int)
    requires
        0 <= from,
    ensures
        first_in(chars, class, from) matches Some(i) ==> from <= i < chars.len() && belongs(
            chars[i],
            class,
        ),
        first_in(chars, class, from) is None ==> forall|i: int|
            from <= i < chars.len() ==> !belongs(#[trigger] chars[i], class),
    decreases chars.len() - from,
{
    if from < chars.len() && !belongs(chars[from], class) {
        lemma_first_in(chars, class, from + 1);
    }
}

pub proof fn lemma_last_in(chars: Seq<char>, class: CharClass, end: int)
    requires
        end <= chars.len(),
    ensures
        last_in(chars, class, end) matches Some(i) ==> 0 <= i < end && belongs(chars[i], class),
    decreases end,
{
    if end > 0 && !belongs(chars[end - 1], class) {
        lemma_last_in(chars, class, end - 1);
    }
}

/// Whether `c` is white space.
pub fn is_white_space(c: char) -> (found: bool)
    ensures
        found == is_space(c),
{
    let code: u32 = c as u32;
    (0x9 <= code && code <= 0xd) || code == 0x20 || code == 0x85 || code == 0xa0 || code == 0x1680
        || (0x2000 <= code && code <= 0x200a) || code == 0x2028 || code == 0x2029 || code == 0x202f
        || code == 0x205f || code == 0x3000
}

/// Whether `c` belongs to a class.
pub fn is_in(c: char, class: CharClass) -> (found: bool)
    ensures
        found == belongs(c, class),
{
    match class {
        CharClass::Quote => c == '\'' || c == '"',
        CharClass::LineBreak => c == '\n' || c == '\r',
        CharClass::Ink => !is_white_space(c),
        CharClass::CalleeBreak => is_white_space(c) || c == ';' || c == '=' || c == '{' || c == '}',
        CharClass::WordBreak => c == '.' || c == '_' || c == '-',
        CharClass::Parenthesis => c == '(',
        CharClass::OpenBrace => c == '{',
        CharClass::CloseBrace => c == '}',
    }
}

/// The first place at or after `from` with a character of the class.
pub fn find_first(chars: &[char], class: CharClass, from: usize) -> (at: Option<usize>)
    requires
        from <= chars@.len(),
    ensures
        match at {
            Some(i) => first_in(chars@, class, from as int) == Some(i as int) && from <= i
                < chars@.len(),
            None => first_in(chars@, class, from as int) is None,
        },
{
    let mut i: usize = from;
    while i < chars.len()
        invariant
            from <= i <= chars@.len(),
            first_in(chars@, class, from as int) == first_in(chars@, class, i as int),
        decreases chars@.len() - i,
    {
        if is_in(chars[i], class) {
            return Some(i);
        }
        i += 1;
    }
    None
}

/// The last place before `end` with a character of the class.
pub fn find_last(chars: &[char], class: CharClass, end: usize) -> (at: Option<usize>)
    requires
        end <= chars@.len(),
    ensures
        match at {
            Some(i) => last_in(chars@, class, end as int) == Some(i as int) && i < end,
            None => last_in(chars@, class, end as int) is None,
        },
{
    let mut i: usize = end;
    while i > 0
        invariant
            i <= end <= chars@.len(),
            last_in(chars@, class, end as int) == last_in(chars@, class, i as int),
        decreases i,
    {
        if is_in(chars[i - 1], class) {
            return Some(i - 1);
        }
        i -= 1;
    }
    None
}

/// `chars` without the white space at its start.
pub fn trim_start(text: &str) -> (result: String)
    ensures
        result@ == trimmed_start(text@),
{
    let chars = text::chars_of(text);
    let total: usize = chars.len();
    let start: usize = match find_first(&chars, CharClass::Ink, 0) {
        Some(i) => i,
        None => total,
    };
    let result = text::string_of(&chars, start, total);
    assert(result@ =~= trimmed_start(text@));
    result
}

/// `chars` without the white space at its end.
pub fn trim_end(text: &str) -> (result: String)
    ensures
        result@ == trimmed_end(text@),
{
    let chars = text::chars_of(text);
    let end: usize = match find_last(&chars, CharClass::Ink, chars.len()) {
        Some(i) => i + 1,
        None => 0,
    };
    let result = text::string_of(&chars, 0, end);
    assert(result@ =~= trimmed_end(text@));
    result
}

/// Whether a text holds nothing but white space.
pub fn blank(text: &str) -> (found: bool)
    ensures
        found == is_blank(text@),
{
    find_first(&text::chars_of(text), CharClass::Ink, 0).is_none()
}

/// The decimal digit of a number below ten.
pub open spec fn digit(n: int) -> char {
    if n == 0 {
        '0'
    } else if n == 1 {
        '1'
    } else if n == 2 {
        '2'
    } else if n == 3 {
        '3'
    } else if n == 4 {
        '4'
    } else if n == 5 {
        '5'
    } else if n == 6 {
        '6'
    } else if n == 7 {
        '7'
    } else if n == 8 {
        '8'
    } else {
        '9'
    }
}

/// A number in decimal digits, at least `width` of them.
pub open spec fn decimal(n: nat, width: nat) -> Seq<char>
    decreases n, width,
{
    if n < 10 && width <= 1 {
        seq![digit(n as int)]
    } else {
        decimal(n / 10, if width == 0 { 0 } else { (width - 1) as nat }).push(digit((n % 10) as int))
    }
}

fn digit_of(n: u64) -> (c: char)
    requires
        n < 10,
    ensures
        c == digit(n as int),
{
    if n == 0 {
        '0'
    } else if n == 1 {
        '1'
    } else if n == 2 {
        '2'
    } else if n == 3 {
        '3'
    } else if n == 4 {
        '4'
    } else if n == 5 {
        '5'
    } else if n == 6 {
        '6'
    } else if n == 7 {
        '7'
    } else if n == 8 {
        '8'
    } else {
        '9'
    }
}

/// A number in decimal digits, at least `width` of them.
pub fn decimal_text(n: u64, width: u64) -> (text: String)
    ensures
        text@ == decimal(n as nat, width as nat),
    decreases n, width,
{
    if n < 10 && width <= 1 {
        let mut text = String::new();
        text.push(digit_of(n));
        assert(text@ =~= seq![digit(n as int)]);
        return text;
    }
    let mut text = decimal_text(
        n / 10,
        if width == 0 {
            0
        } else {
            width - 1
        },
    );
    text.push(digit_of(n % 10));
    text
}

} // verus!
