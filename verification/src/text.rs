//! Characters, numerals and the small string operations the crate relies on.

use vstd::prelude::*;
use vstd::string::StringExecFns;

use crate::codec::text_of;

verus! {

/// The decimal digit for a value below ten.
pub open spec fn decimal_digit(value: nat) -> char {
    (48 + value) as u8 as char
}

/// The digits of a number in base ten, without leading zeros.
pub open spec fn decimal(value: nat) -> Seq<char>
    decreases value,
{
    if value < 10 {
        seq![decimal_digit(value)]
    } else {
        decimal(value / 10).push(decimal_digit(value % 10))
    }
}

/// The lower-case hexadecimal digit for a value below sixteen.
pub open spec fn hex_digit(value: nat) -> char {
    if value < 10 {
        (48 + value) as u8 as char
    } else {
        (87 + value) as u8 as char
    }
}

/// The last `width` hexadecimal digits of a number, zero-padded.
pub open spec fn hex_digits(value: nat, width: nat) -> Seq<char>
    decreases width,
{
    if width == 0 {
        seq![]
    } else {
        hex_digits(value / 16, (width - 1) as nat).push(hex_digit(value % 16))
    }
}

/// `String::push` appends one character.
pub assume_specification[ String::push ](text: &mut String, c: char)
    ensures
        final(text)@ == old(text)@.push(c),
;

pub(crate) fn push_decimal(out: &mut String, value: u128)
    ensures
        final(out)@ == old(out)@ + decimal(value as nat),
    decreases value,
{
    if value >= 10 {
        push_decimal(out, value / 10);
    }
    let digit: u8 = 48 + (value % 10) as u8;
    out.push(digit as char);
    assert(out@ =~= old(out)@ + decimal(value as nat));
}

/// The decimal rendering of a number.
pub fn decimal_text(value: u128) -> (text: String)
    ensures
        text@ == decimal(value as nat),
{
    let mut out = String::new();
    push_decimal(&mut out, value);
    assert(out@ =~= decimal(value as nat));
    out
}

pub(crate) fn push_hex(out: &mut String, value: u64, width: usize)
    ensures
        final(out)@ == old(out)@ + hex_digits(value as nat, width as nat),
    decreases width,
{
    if width > 0 {
        push_hex(out, value / 16, width - 1);
        let low: u8 = (value % 16) as u8;
        let digit: u8 = if low < 10 {
            48 + low
        } else {
            87 + low
        };
        out.push(digit as char);
    }
    assert(out@ =~= old(out)@ + hex_digits(value as nat, width as nat));
}

/// Whether a character has the Unicode property White_Space.
pub open spec fn whitespace(c: char) -> bool {
    ||| '\u{9}' <= c <= '\u{d}'
    ||| c == '\u{20}'
    ||| c == '\u{85}'
    ||| c == '\u{a0}'
    ||| c == '\u{1680}'
    ||| '\u{2000}' <= c <= '\u{200a}'
    ||| c == '\u{2028}'
    ||| c == '\u{2029}'
    ||| c == '\u{202f}'
    ||| c == '\u{205f}'
    ||| c == '\u{3000}'
}

/// `char::is_whitespace` says whether a character has the Unicode property
/// White_Space; the characters that have it are those that are listed.
pub assume_specification[ char::is_whitespace ](c: char) -> (white: bool)
    ensures
        white == whitespace(c),
;

/// Text that is empty once surrounding whitespace is taken away.
pub open spec fn blank(text: Seq<char>) -> bool {
    forall|i: int| 0 <= i < text.len() ==> whitespace(#[trigger] text[i])
}

/// The characters of a text.
pub(crate) fn chars_of(text: &str) -> (chars: Vec<char>)
    ensures
        chars@ == text@,
{
    let mut chars: Vec<char> = Vec::new();
    for c in iter: text.chars()
        invariant
            iter.seq() == text@,
            chars@ == text@.take(iter.index() as int),
    {
        chars.push(c);
        assert(chars@ =~= text@.take(iter.index() + 1));
    }
    assert(chars@ =~= text@);
    chars
}

/// The text made of some characters.
pub(crate) fn text_of_chars(chars: &[char]) -> (text: String)
    ensures
        text@ == chars@,
{
    let mut text = String::new();
    let mut index: usize = 0;
    while index < chars.len()
        invariant
            index <= chars@.len(),
            text@ == chars@.take(index as int),
        decreases chars.len() - index,
    {
        text.push(chars[index]);
        index += 1;
        assert(text@ =~= chars@.take(index as int));
    }
    assert(text@ =~= chars@);
    text
}

pub(crate) fn is_blank(text: &str) -> (result: bool)
    ensures
        result == blank(text@),
{
    let chars = chars_of(text);
    let mut index: usize = 0;
    while index < chars.len()
        invariant
            index <= chars@.len(),
            chars@ == text@,
            forall|i: int| 0 <= i < index ==> whitespace(#[trigger] text@[i]),
        decreases chars.len() - index,
    {
        if !chars[index].is_whitespace() {
            return false;
        }
        index += 1;
    }
    true
}

/// Two pieces of text, one behind the other.
pub(crate) fn joined(first: &str, second: &str) -> (text: String)
    ensures
        text@ == first@ + second@,
{
    let mut out = first.to_owned();
    out.append(second);
    out
}

/// A message that ends in a number.
pub(crate) fn numbered(message: &str, value: u128) -> (text: String)
    ensures
        text@ == message@ + decimal(value as nat),
{
    let mut out = message.to_owned();
    push_decimal(&mut out, value);
    out
}

/// The views of a list of strings.
pub open spec fn texts(list: Seq<String>) -> Seq<Seq<char>> {
    list.map_values(|text: String| text@)
}

pub(crate) fn clone_texts(list: &Vec<String>) -> (copy: Vec<String>)
    ensures
        copy@ == list@,
{
    let mut copy: Vec<String> = Vec::new();
    let mut index: usize = 0;
    while index < list.len()
        invariant
            index <= list@.len(),
            copy@ == list@.take(index as int),
        decreases list.len() - index,
    {
        copy.push(list[index].clone());
        index += 1;
        assert(copy@ =~= list@.take(index as int));
    }
    assert(list@.take(list@.len() as int) =~= list@);
    copy
}

/// Lists of strings are equal text by text.
pub(crate) fn same_texts(left: &Vec<String>, right: &Vec<String>) -> (same: bool)
    ensures
        same == (texts(left@) == texts(right@)),
{
    if left.len() != right.len() {
        assert(texts(left@).len() != texts(right@).len());
        return false;
    }
    let mut index: usize = 0;
    while index < left.len()
        invariant
            left@.len() == right@.len(),
            index <= left@.len(),
            forall|i: int| 0 <= i < index ==> (#[trigger] left@[i])@ == right@[i]@,
        decreases left.len() - index,
    {
        if left[index] != right[index] {
            assert(texts(left@)[index as int] != texts(right@)[index as int]);
            return false;
        }
        index += 1;
    }
    assert(texts(left@) =~= texts(right@));
    true
}

pub(crate) fn clone_bytes(bytes: &Vec<u8>) -> (copy: Vec<u8>)
    ensures
        copy@ == bytes@,
{
    vstd::slice::slice_to_vec(bytes.as_slice())
}

/// An ASCII letter in lower case; any other character as it is.
pub open spec fn lower_letter(c: char) -> char {
    if 'A' <= c <= 'Z' {
        (c as u32 - 'A' as u32 + 'a' as u32) as u8 as char
    } else {
        c
    }
}

/// The text with its ASCII letters in lower case.
pub open spec fn ascii_lower(text: Seq<char>) -> Seq<char> {
    Seq::new(text.len(), |i: int| lower_letter(text[i]))
}

/// Text of ASCII characters.
pub open spec fn ascii(text: Seq<char>) -> bool {
    forall|i: int| 0 <= i < text.len() ==> (#[trigger] text[i]) <= '\u{7f}'
}

/// Text beyond ASCII in lower case, as Unicode defines it.
pub uninterp spec fn lower_case(text: Seq<char>) -> Seq<char>;

/// Text in lower case.
pub open spec fn lowered(text: Seq<char>) -> Seq<char> {
    if ascii(text) {
        ascii_lower(text)
    } else {
        lower_case(text)
    }
}

/// `str::to_lowercase` depends on the text alone. Of ASCII text it changes
/// the letters from `A` to `Z`, as `str::to_ascii_lowercase` does; beyond
/// ASCII nothing more is said of it.
#[verifier::external_body]
pub(crate) fn to_lower_case(text: &str) -> (lower: String)
    ensures
        lower@ == if ascii(text@) {
            ascii_lower(text@)
        } else {
            lower_case(text@)
        },
{
    text.to_lowercase()
}

/// The text of bytes, with a replacement character for what is not UTF-8.
pub uninterp spec fn lossy_text(bytes: Seq<u8>) -> Seq<char>;

/// `String::from_utf8_lossy` depends on the bytes alone, and gives the text
/// back where they are UTF-8.
#[verifier::external_body]
pub(crate) fn text_lossy(bytes: &[u8]) -> (text: String)
    ensures
        text@ == lossy_text(bytes@),
        text_of(bytes@) matches Some(exact) ==> text@ == exact,
{
    String::from_utf8_lossy(bytes).into_owned()
}

/// `needle` stands in `text` at `place`.
pub open spec fn stands_at(text: Seq<char>, needle: Seq<char>, place: int) -> bool {
    0 <= place && place + needle.len() <= text.len() && text.subrange(
        place,
        place + needle.len(),
    ) == needle
}

/// `needle` stands somewhere in `text`.
pub open spec fn found_in(text: Seq<char>, needle: Seq<char>) -> bool {
    exists|place: int| stands_at(text, needle, place)
}

pub(crate) fn stands_here(text: &Vec<char>, needle: &Vec<char>, place: usize) -> (answer: bool)
    requires
        place + needle@.len() <= text@.len(),
    ensures
        answer == stands_at(text@, needle@, place as int),
{
    let mut index: usize = 0;
    let length: usize = text.len();
    while index < needle.len()
        invariant
            index <= needle@.len(),
            length == text@.len(),
            place + needle@.len() <= length,
            forall|i: int| 0 <= i < index ==> text@[place + i] == needle@[i],
        decreases needle.len() - index,
    {
        if text[place + index] != needle[index] {
            assert(text@.subrange(place as int, place + needle@.len())[index as int]
                != needle@[index as int]);
            return false;
        }
        index += 1;
    }
    assert(text@.subrange(place as int, place + needle@.len()) =~= needle@);
    true
}

pub(crate) fn contains_text(text: &str, needle: &str) -> (answer: bool)
    ensures
        answer == found_in(text@, needle@),
{
    let chars = chars_of(text);
    let wanted = chars_of(needle);
    if wanted.len() > chars.len() {
        return false;
    }
    let last: usize = chars.len() - wanted.len();
    let mut place: usize = 0;
    while place <= last
        invariant
            chars@ == text@,
            wanted@ == needle@,
            last == text@.len() - needle@.len(),
            place <= last,
            forall|i: int| 0 <= i < place ==> !stands_at(text@, needle@, i),
        decreases last - place,
    {
        if stands_here(&chars, &wanted, place) {
            return true;
        }
        if place == last {
            return false;
        }
        place += 1;
    }
    false
}

} // verus!
