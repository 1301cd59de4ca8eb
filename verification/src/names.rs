//! Paths as texts, one text for each path: bytes that are no part of a text have stand-ins, from
//! the private characters at the end of Unicode.
use vstd::prelude::*;
use vstd::utf8::{decode_first_scalar, encode_scalar, encode_utf8, is_scalar};
use vstd::utf8::{length_of_first_scalar, pop_first_scalar, take_first_scalar, valid_first_scalar};
use vstd::utf8::valid_utf8;

verus! {

/// The first of the characters that stand for a byte.
pub const STAND_INS: u32 = 0x10ff80;

/// `char::from_u32` gives the character of a Unicode scalar, and nothing for other numbers.
pub assume_specification[ char::from_u32 ](i: u32) -> (c: Option<char>)
    ensures
        match c {
            Some(c) => is_scalar(i) && c as u32 == i,
            None => !is_scalar(i),
        },
;

/// The text of `bytes` with replacement characters for what is no UTF-8.
pub uninterp spec fn lossy(bytes: Seq<u8>) -> Seq<char>;

/// Calls `String::from_utf8_lossy`; the result is named by `lossy`.
#[verifier::external_body]
fn read_lossy(bytes: &[u8]) -> (text: String)
    ensures
        text@ == lossy(bytes@),
{
    String::from_utf8_lossy(bytes).into_owned()
}

/// Whether a character stands for a byte.
pub open spec fn is_stand_in(c: char) -> bool {
    c as u32 >= STAND_INS
}

/// The character that stands for a byte behind ASCII.
pub open spec fn stand_in(byte: u8) -> char {
    ((STAND_INS - 0x80 + byte) as u32) as char
}

/// Whether `bytes` begin with a character that stands for itself.
pub open spec fn starts_plain(bytes: Seq<u8>) -> bool {
    valid_first_scalar(bytes) && decode_first_scalar(bytes) < STAND_INS
}

/// The text for the bytes of a path.
pub open spec fn name_of(bytes: Seq<u8>) -> Seq<char>
    decreases bytes.len(),
{
    if bytes.len() == 0 {
        Seq::empty()
    } else if starts_plain(bytes) {
        seq![decode_first_scalar(bytes) as char] + name_of(pop_first_scalar(bytes))
    } else {
        seq![stand_in(bytes[0])] + name_of(bytes.drop_first())
    }
}

/// The bytes of a character in a path.
pub open spec fn bytes_at(c: char) -> Seq<u8> {
    if is_stand_in(c) {
        seq![(c as u32 - (STAND_INS - 0x80)) as u8]
    } else {
        encode_scalar(c as u32)
    }
}

/// The bytes of the path that a text stands for.
pub open spec fn bytes_of(name: Seq<char>) -> Seq<u8>
    decreases name.len(),
{
    if name.len() == 0 {
        Seq::empty()
    } else {
        bytes_at(name[0]) + bytes_of(name.drop_first())
    }
}

/// Whether a text has a stand-in for a byte.
pub open spec fn has_stand_in(name: Seq<char>) -> bool {
    exists|i: int| 0 <= i < name.len() && is_stand_in(#[trigger] name[i])
}

/// A path as it is shown: with replacement characters for what is no text.
pub open spec fn shown(name: Seq<char>) -> Seq<char> {
    if has_stand_in(name) {
        lossy(bytes_of(name))
    } else {
        name
    }
}

proof fn lemma_not_plain(bytes: Seq<u8>)
    requires
        bytes.len() > 0,
        !starts_plain(bytes),
    ensures
        bytes[0] >= 0x80,
{
    let first = bytes[0];
    if first < 0x80 {
        assert((first & 0x7f) as u32 <= 0x7f) by (bit_vector);
    }
}

proof fn lemma_plain(bytes: Seq<u8>)
    requires
        starts_plain(bytes),
    ensures
        0 < length_of_first_scalar(bytes) <= bytes.len(),
        is_scalar(decode_first_scalar(bytes)),
        encode_scalar((decode_first_scalar(bytes) as char) as u32) == take_first_scalar(bytes),
{
    let first = take_first_scalar(bytes);
    let scalar = decode_first_scalar(bytes);
    let b = bytes[0];
    assert((b & 0x7f) as u32 <= 0x7f) by (bit_vector);
    assert(forall|i: int| 0 <= i < first.len() ==> first[i] == bytes[i]);
    assert(valid_first_scalar(first));
    assert(pop_first_scalar(first) =~= Seq::<u8>::empty());
    assert(valid_utf8(pop_first_scalar(first)));
    assert(decode_first_scalar(first) == scalar);
    vstd::utf8::decode_utf8_first_scalar(first);
    assert(take_first_scalar(first) =~= first);
}

/// The text for a path leads back to the bytes of the path.
pub proof fn names_and_back(bytes: Seq<u8>)
    ensures
        bytes_of(name_of(bytes)) == bytes,
    decreases bytes.len(),
{
    if bytes.len() > 0 {
        let name = name_of(bytes);
        if starts_plain(bytes) {
            lemma_plain(bytes);
            names_and_back(pop_first_scalar(bytes));
            assert(name.drop_first() =~= name_of(pop_first_scalar(bytes)));
            let c = decode_first_scalar(bytes) as char;
            assert(c as u32 == decode_first_scalar(bytes));
            assert(take_first_scalar(bytes) + pop_first_scalar(bytes) =~= bytes);
        } else {
            lemma_not_plain(bytes);
            names_and_back(bytes.drop_first());
            assert(name.drop_first() =~= name_of(bytes.drop_first()));
            let byte = bytes[0];
            assert(stand_in(byte) as u32 == STAND_INS - 0x80 + byte);
            assert(seq![byte] + bytes.drop_first() =~= bytes);
        }
    }
}

/// Two paths have the same text only where they are the same.
pub proof fn names_stay_apart(first: Seq<u8>, second: Seq<u8>)
    requires
        name_of(first) == name_of(second),
    ensures
        first == second,
{
    names_and_back(first);
    names_and_back(second);
}

/// A text without stand-ins is the text for the path with its UTF-8 as bytes.
pub proof fn texts_name_themselves(text: Seq<char>)
    requires
        !has_stand_in(text),
    ensures
        bytes_of(text) == encode_utf8(text),
        name_of(encode_utf8(text)) == text,
    decreases text.len(),
{
    if text.len() > 0 {
        let rest = text.drop_first();
        assert forall|i: int| 0 <= i < rest.len() implies !is_stand_in(#[trigger] rest[i]) by {
            assert(rest[i] == text[i + 1]);
        }
        texts_name_themselves(rest);
        let bytes = encode_utf8(text);
        vstd::utf8::encode_utf8_first_scalar(text);
        assert(!is_stand_in(text[0]));
        vstd::utf8::char_u32_cast(text[0], decode_first_scalar(bytes));
        assert(pop_first_scalar(bytes) =~= encode_utf8(rest));
        assert(seq![text[0]] + rest =~= text);
    }
}

/// The scalar that the bytes from `at` on begin with, and its width.
fn front(bytes: &[u8], at: usize) -> (found: Option<(u32, usize)>)
    requires
        at < bytes@.len(),
    ensures
        match found {
            Some((scalar, width)) => {
                let rest = bytes@.skip(at as int);
                &&& valid_first_scalar(rest)
                &&& scalar == decode_first_scalar(rest)
                &&& width == length_of_first_scalar(rest)
                &&& is_scalar(scalar)
                &&& 0 < width <= rest.len()
            },
            None => !valid_first_scalar(bytes@.skip(at as int)),
        },
{
    let ghost rest = bytes@.skip(at as int);
    let left: usize = bytes.len() - at;
    let one: u8 = bytes[at];
    assert(rest[0] == one);
    assert((one & 0x7f) as u32 <= 0x7f) by (bit_vector);
    if one <= 0x7f {
        return Some(((one & 0x7f) as u32, 1));
    }
    if left < 2 {
        return None;
    }
    let two: u8 = bytes[at + 1];
    assert(rest[1] == two);
    if 0xc0 <= one && one <= 0xdf {
        let scalar: u32 = (((one & 0x1f) as u32) << 6) | ((two & 0x3f) as u32);
        assert(scalar <= 0x7ff) by (bit_vector)
            requires
                scalar == (((one & 0x1f) as u32) << 6) | ((two & 0x3f) as u32),
        ;
        return if 0x80 <= two && two <= 0xbf && scalar >= 0x80 {
            Some((scalar, 2))
        } else {
            None
        };
    }
    if left < 3 {
        return None;
    }
    let three: u8 = bytes[at + 2];
    assert(rest[2] == three);
    if 0xe0 <= one && one <= 0xef {
        let scalar: u32 = (((one & 0x0f) as u32) << 12) | (((two & 0x3f) as u32) << 6) | ((three
            & 0x3f) as u32);
        assert(scalar <= 0xffff) by (bit_vector)
            requires
                scalar == (((one & 0x0f) as u32) << 12) | (((two & 0x3f) as u32) << 6) | ((three
                    & 0x3f) as u32),
        ;
        return if 0x80 <= two && two <= 0xbf && 0x80 <= three && three <= 0xbf && scalar >= 0x800
            && !(0xd800 <= scalar && scalar <= 0xdfff) {
            Some((scalar, 3))
        } else {
            None
        };
    }
    if left < 4 {
        return None;
    }
    let four: u8 = bytes[at + 3];
    assert(rest[3] == four);
    if 0xf0 <= one && one <= 0xf7 {
        let scalar: u32 = (((one & 0x07) as u32) << 18) | (((two & 0x3f) as u32) << 12) | (((three
            & 0x3f) as u32) << 6) | ((four & 0x3f) as u32);
        return if 0x80 <= two && two <= 0xbf && 0x80 <= three && three <= 0xbf && 0x80 <= four
            && four <= 0xbf && scalar >= 0x10000 && scalar <= 0x10ffff {
            Some((scalar, 4))
        } else {
            None
        };
    }
    None
}

/// The text for the bytes of a path.
pub fn name_bytes(bytes: &[u8]) -> (name: String)
    ensures
        name@ == name_of(bytes@),
{
    let mut name = String::new();
    let mut at: usize = 0;
    assert(bytes@.skip(0) =~= bytes@);
    while at < bytes.len()
        invariant
            at <= bytes@.len(),
            name@ + name_of(bytes@.skip(at as int)) == name_of(bytes@),
        decreases bytes@.len() - at,
    {
        let ghost rest = bytes@.skip(at as int);
        let ghost before = name@;
        let plain: Option<(char, usize)> = match front(bytes, at) {
            Some((scalar, width)) => if scalar < STAND_INS {
                match char::from_u32(scalar) {
                    Some(c) => Some((c, width)),
                    None => None,
                }
            } else {
                None
            },
            None => None,
        };
        match plain {
            Some((c, width)) => {
                assert(starts_plain(rest));
                proof {
                    vstd::utf8::char_u32_cast(c, decode_first_scalar(rest));
                }
                name.push(c);
                assert(rest.subrange(width as int, rest.len() as int) =~= bytes@.skip(at + width));
                assert(name@ + name_of(bytes@.skip(at + width)) =~= before + name_of(rest));
                at += width;
            },
            None => {
                assert(!starts_plain(rest));
                proof {
                    lemma_not_plain(rest);
                }
                let byte: u8 = bytes[at];
                if let Some(c) = char::from_u32(STAND_INS - 0x80 + byte as u32) {
                    proof {
                        vstd::utf8::char_u32_cast(c, (STAND_INS - 0x80 + byte) as u32);
                    }
                    name.push(c);
                }
                assert(rest.drop_first() =~= bytes@.skip(at + 1));
                assert(name@ + name_of(bytes@.skip(at + 1)) =~= before + name_of(rest));
                at += 1;
            },
        }
    }
    assert(bytes@.skip(at as int) =~= Seq::<u8>::empty());
    assert(name@ + Seq::<char>::empty() =~= name@);
    name
}

/// Whether a text has a stand-in for a byte.
pub fn stands_in(name: &str) -> (found: bool)
    ensures
        found == has_stand_in(name@),
{
    let chars = crate::text::chars_of(name);
    let mut n: usize = 0;
    while n < chars.len()
        invariant
            n <= chars@.len(),
            chars@ == name@,
            forall|i: int| 0 <= i < n ==> !is_stand_in(#[trigger] chars@[i]),
        decreases chars@.len() - n,
    {
        if chars[n] as u32 >= STAND_INS {
            assert(is_stand_in(name@[n as int]));
            return true;
        }
        n += 1;
    }
    false
}

/// The bytes of the path that a text stands for.
pub fn list_bytes(name: &str) -> (bytes: Vec<u8>)
    ensures
        bytes@ == bytes_of(name@),
{
    let chars = crate::text::chars_of(name);
    let mut bytes: Vec<u8> = Vec::new();
    let mut n: usize = 0;
    assert(chars@.skip(0) =~= chars@);
    while n < chars.len()
        invariant
            n <= chars@.len(),
            bytes@ + bytes_of(chars@.skip(n as int)) == bytes_of(chars@),
        decreases chars@.len() - n,
    {
        let ghost rest = chars@.skip(n as int);
        let ghost before = bytes@;
        let c = chars[n];
        assert(rest[0] == c);
        assert(rest.drop_first() =~= chars@.skip(n + 1));
        let scalar: u32 = c as u32;
        if scalar >= STAND_INS {
            let byte: u8 = (scalar - (STAND_INS - 0x80)) as u8;
            bytes.push(byte);
            assert(bytes@ =~= before + bytes_at(c));
        } else {
            let mut one = String::new();
            one.push(c);
            let more = one.as_str().as_bytes();
            assert(one@ =~= seq![c]);
            assert(one@.drop_first() =~= Seq::<char>::empty());
            assert(encode_utf8(one@.drop_first()) =~= Seq::<u8>::empty());
            assert(more@ =~= bytes_at(c));
            let mut m: usize = 0;
            while m < more.len()
                invariant
                    m <= more@.len(),
                    bytes@ == before + more@.take(m as int),
                decreases more@.len() - m,
            {
                bytes.push(more[m]);
                assert(bytes@ =~= before + more@.take(m + 1));
                m += 1;
            }
            assert(more@.take(m as int) =~= more@);
        }
        assert(bytes@ + bytes_of(chars@.skip(n + 1)) =~= before + bytes_of(rest));
        n += 1;
    }
    assert(chars@.skip(n as int) =~= Seq::<char>::empty());
    assert(bytes@ + Seq::<u8>::empty() =~= bytes@);
    bytes
}

/// Whether a byte stands for itself in a URI.
pub open spec fn stays(byte: u8) -> bool {
    ||| 0x2d <= byte <= 0x39
    ||| 0x41 <= byte <= 0x5a
    ||| byte == 0x5f
    ||| 0x61 <= byte <= 0x7a
    ||| byte == 0x7e
}

/// A hexadecimal digit.
pub open spec fn digit(value: u8) -> char {
    if value < 10 {
        ((0x30 + value) as u32) as char
    } else {
        ((0x37 + value) as u32) as char
    }
}

/// The first `n` bytes as they stand in a URI.
pub open spec fn spelled(bytes: Seq<u8>, n: int) -> Seq<char>
    decreases n,
{
    if n <= 0 {
        Seq::empty()
    } else {
        let byte = bytes[n - 1];
        let front = spelled(bytes, n - 1);
        if stays(byte) {
            front.push((byte as u32) as char)
        } else {
            front.push('%').push(digit(byte / 16)).push(digit(byte % 16))
        }
    }
}

/// A URI for the bytes of an absolute path.
pub open spec fn file_uri(bytes: Seq<u8>) -> Seq<char> {
    "file://"@ + spelled(bytes, bytes.len() as int)
}

fn push_scalar(text: &mut String, scalar: u32)
    requires
        scalar <= 0x7f,
    ensures
        final(text)@ == old(text)@.push(scalar as char),
{
    if let Some(c) = char::from_u32(scalar) {
        proof {
            vstd::utf8::char_u32_cast(c, scalar);
        }
        text.push(c);
    }
}

fn push_digit(text: &mut String, value: u8)
    requires
        value < 16,
    ensures
        final(text)@ == old(text)@.push(digit(value)),
{
    if value < 10 {
        push_scalar(text, 0x30 + value as u32);
    } else {
        push_scalar(text, 0x37 + value as u32);
    }
}

/// A URI for the bytes of an absolute path.
pub fn spell_uri(bytes: &[u8]) -> (uri: String)
    ensures
        uri@ == file_uri(bytes@),
{
    let mut uri = "file://".to_owned();
    let ghost lead = uri@;
    let mut n: usize = 0;
    assert(uri@ =~= lead + spelled(bytes@, 0));
    while n < bytes.len()
        invariant
            n <= bytes@.len(),
            uri@ == lead + spelled(bytes@, n as int),
        decreases bytes@.len() - n,
    {
        let byte: u8 = bytes[n];
        if (0x2d <= byte && byte <= 0x39) || (0x41 <= byte && byte <= 0x5a) || byte == 0x5f || (
        0x61 <= byte && byte <= 0x7a) || byte == 0x7e {
            push_scalar(&mut uri, byte as u32);
        } else {
            push_scalar(&mut uri, 0x25);
            push_digit(&mut uri, byte / 16);
            push_digit(&mut uri, byte % 16);
        }
        assert(uri@ =~= lead + spelled(bytes@, n + 1));
        n += 1;
    }
    uri
}

/// A path as it is shown.
pub fn show(name: &str) -> (text: String)
    ensures
        text@ == shown(name@),
{
    if stands_in(name) {
        read_lossy(&list_bytes(name))
    } else {
        name.to_owned()
    }
}

} // verus!
