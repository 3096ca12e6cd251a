//! Taking texts apart: trimming, splitting, and reading numbers.

use vstd::prelude::*;
use vstd::string::StringExecFns;

use crate::text::{ascii_lower, chars_of, stands_at, text_of_chars, texts, whitespace};

verus! {

// ---------------------------------------------------------------------------
// Comparing.

pub(crate) fn is_text(text: &str, other: &str) -> (same: bool)
    ensures
        same == (text@ == other@),
{
    text.to_owned() == other.to_owned()
}

/// `text` begins with `start`.
pub open spec fn begins_with(text: Seq<char>, start: Seq<char>) -> bool {
    start.len() <= text.len() && text.take(start.len() as int) == start
}

/// What follows `start`, where the text begins with it.
pub open spec fn after_prefix(text: Seq<char>, start: Seq<char>) -> Option<Seq<char>> {
    if begins_with(text, start) {
        Some(text.skip(start.len() as int))
    } else {
        None
    }
}

/// The characters from one place up to another, as a text.
pub(crate) fn part(chars: &Vec<char>, from: usize, to: usize) -> (text: String)
    requires
        from <= to <= chars@.len(),
    ensures
        text@ == chars@.subrange(from as int, to as int),
{
    text_of_chars(vstd::slice::slice_subrange(chars.as_slice(), from, to))
}

pub(crate) fn strip_prefix(text: &str, start: &str) -> (rest: Option<String>)
    ensures
        match rest {
            Some(rest) => after_prefix(text@, start@) == Some(rest@),
            None => after_prefix(text@, start@) is None,
        },
{
    let chars = chars_of(text);
    let wanted = chars_of(start);
    if wanted.len() > chars.len() {
        return None;
    }
    let mut index: usize = 0;
    while index < wanted.len()
        invariant
            index <= wanted@.len() <= chars@.len(),
            chars@ == text@,
            wanted@ == start@,
            forall|i: int| 0 <= i < index ==> chars@[i] == wanted@[i],
        decreases wanted.len() - index,
    {
        if chars[index] != wanted[index] {
            assert(text@.take(start@.len() as int)[index as int] != start@[index as int]);
            return None;
        }
        index += 1;
    }
    assert(text@.take(start@.len() as int) =~= start@);
    assert(text@.subrange(start@.len() as int, text@.len() as int) =~= text@.skip(
        start@.len() as int,
    ));
    Some(part(&chars, wanted.len(), chars.len()))
}

pub(crate) fn starts_with_text(text: &str, start: &str) -> (answer: bool)
    ensures
        answer == begins_with(text@, start@),
{
    strip_prefix(text, start).is_some()
}

/// The characters between the first and the last, where those are both
/// `mark`.
pub open spec fn between(text: Seq<char>, mark: char) -> Option<Seq<char>> {
    if text.len() >= 2 && text[0] == mark && text.last() == mark {
        Some(text.subrange(1, text.len() - 1))
    } else {
        None
    }
}

pub(crate) fn strip_marks(text: &str, mark: char) -> (inner: Option<String>)
    ensures
        match inner {
            Some(inner) => between(text@, mark) == Some(inner@),
            None => between(text@, mark) is None,
        },
{
    let chars = chars_of(text);
    let length: usize = chars.len();
    if length >= 2 && chars[0] == mark && chars[length - 1] == mark {
        Some(part(&chars, 1, length - 1))
    } else {
        None
    }
}

// ---------------------------------------------------------------------------
// Trimming.

pub open spec fn trimmed_start(text: Seq<char>) -> Seq<char>
    decreases text.len(),
{
    if text.len() > 0 && whitespace(text[0]) {
        trimmed_start(text.skip(1))
    } else {
        text
    }
}

pub open spec fn trimmed_end(text: Seq<char>) -> Seq<char>
    decreases text.len(),
{
    if text.len() > 0 && whitespace(text.last()) {
        trimmed_end(text.drop_last())
    } else {
        text
    }
}

/// The text without the whitespace around it.
pub open spec fn trimmed(text: Seq<char>) -> Seq<char> {
    trimmed_end(trimmed_start(text))
}

pub(crate) fn trim(text: &str) -> (result: String)
    ensures
        result@ == trimmed(text@),
{
    let chars = chars_of(text);
    let mut from: usize = 0;
    assert(text@.skip(0) =~= text@);
    while from < chars.len() && chars[from].is_whitespace()
        invariant
            from <= chars@.len(),
            chars@ == text@,
            trimmed_start(text@.skip(from as int)) == trimmed_start(text@),
        decreases chars.len() - from,
    {
        assert(text@.skip(from as int).skip(1) =~= text@.skip(from + 1));
        from += 1;
    }
    let ghost start = text@.skip(from as int);
    assert(start == trimmed_start(text@));
    let mut to: usize = chars.len();
    assert(chars@.subrange(from as int, to as int) =~= start);
    while to > from && chars[to - 1].is_whitespace()
        invariant
            from <= to <= chars@.len(),
            trimmed_end(chars@.subrange(from as int, to as int)) == trimmed_end(start),
        decreases to - from,
    {
        assert(chars@.subrange(from as int, to as int).drop_last() =~= chars@.subrange(
            from as int,
            to - 1,
        ));
        to -= 1;
    }
    part(&chars, from, to)
}

/// A text is blank exactly where nothing is left of it.
pub proof fn blank_texts_trim_to_nothing(text: Seq<char>)
    ensures
        crate::text::blank(text) == (trimmed(text).len() == 0),
    decreases text.len(),
{
    if text.len() > 0 {
        if whitespace(text[0]) {
            blank_texts_trim_to_nothing(text.skip(1));
            assert(forall|i: int| 0 <= i < text.skip(1).len() ==> text.skip(1)[i] == text[i + 1]);
            if crate::text::blank(text.skip(1)) {
                assert forall|i: int| 0 <= i < text.len() implies whitespace(
                    #[trigger] text[i],
                ) by {
                    if i > 0 {
                        assert(whitespace(text.skip(1)[i - 1]));
                    }
                }
            }
            if crate::text::blank(text) {
                assert forall|i: int| 0 <= i < text.skip(1).len() implies whitespace(
                    #[trigger] text.skip(1)[i],
                ) by {
                    assert(whitespace(text[i + 1]));
                }
            }
        } else {
            trimmed_end_keeps_the_first(text);
        }
    }
}

proof fn trimmed_end_keeps_the_first(text: Seq<char>)
    requires
        text.len() > 0,
        !whitespace(text[0]),
    ensures
        trimmed_end(text).len() > 0,
    decreases text.len(),
{
    if whitespace(text.last()) {
        trimmed_end_keeps_the_first(text.drop_last());
    }
}

// ---------------------------------------------------------------------------
// Splitting.

/// Where `c` stands first, or the length of the text.
pub open spec fn place_of(text: Seq<char>, c: char) -> int
    decreases text.len(),
{
    if text.len() == 0 || text[0] == c {
        0
    } else {
        1 + place_of(text.skip(1), c)
    }
}

/// The first place of a character is where it stands with none before it.
pub proof fn place_is_first(text: Seq<char>, c: char, place: int)
    requires
        0 <= place <= text.len(),
        forall|i: int| 0 <= i < place ==> text[i] != c,
        place < text.len() ==> text[place] == c,
    ensures
        place_of(text, c) == place,
    decreases text.len(),
{
    if place > 0 {
        assert(text[0] != c);
        assert forall|i: int| 0 <= i < place - 1 implies text.skip(1)[i] != c by {
            assert(text[i + 1] != c);
        }
        place_is_first(text.skip(1), c, place - 1);
    }
}

/// Where `c` stands first from `from` on.
fn find_char(chars: &Vec<char>, from: usize, c: char) -> (place: usize)
    requires
        from <= chars@.len(),
    ensures
        from <= place <= chars@.len(),
        place - from == place_of(chars@.skip(from as int), c),
        place < chars@.len() ==> chars@[place as int] == c,
{
    let mut place: usize = from;
    while place < chars.len() && chars[place] != c
        invariant
            from <= place <= chars@.len(),
            forall|i: int| from <= i < place ==> chars@[i] != c,
        decreases chars.len() - place,
    {
        place += 1;
    }
    proof {
        let rest = chars@.skip(from as int);
        assert forall|i: int| 0 <= i < place - from implies rest[i] != c by {
            assert(chars@[from + i] != c);
        }
        place_is_first(rest, c, place - from);
    }
    place
}

/// The pieces of a text between the places where `c` stands.
pub open spec fn pieces(text: Seq<char>, c: char) -> Seq<Seq<char>>
    decreases text.len(),
{
    let place = place_of(text, c);
    if place == text.len() {
        seq![text]
    } else {
        proof {
            place_in_range(text, c);
        }
        seq![text.take(place)] + pieces(text.skip(place + 1), c)
    }
}

/// The first place of a character is within the text.
pub proof fn place_in_range(text: Seq<char>, c: char)
    ensures
        0 <= place_of(text, c) <= text.len(),
        forall|i: int| 0 <= i < place_of(text, c) ==> text[i] != c,
        place_of(text, c) < text.len() ==> text[place_of(text, c)] == c,
    decreases text.len(),
{
    if text.len() > 0 && text[0] != c {
        place_in_range(text.skip(1), c);
        let place = place_of(text.skip(1), c);
        assert forall|i: int| 0 <= i < place + 1 implies text[i] != c by {
            if i > 0 {
                assert(text.skip(1)[i - 1] == text[i]);
            }
        }
        if place < text.skip(1).len() {
            assert(text.skip(1)[place] == text[place + 1]);
        }
    }
}

pub(crate) fn split_on(text: &str, c: char) -> (list: Vec<String>)
    ensures
        texts(list@) == pieces(text@, c),
{
    let chars = chars_of(text);
    let mut list: Vec<String> = Vec::new();
    let mut from: usize = 0;
    let ghost all = text@;
    proof {
        assert(all.skip(0) =~= all);
        assert(texts(list@) + pieces(all, c) =~= pieces(all, c));
    }
    loop
        invariant
            from <= chars@.len(),
            chars@ == all,
            all == text@,
            texts(list@) + pieces(all.skip(from as int), c) == pieces(all, c),
        decreases chars@.len() - from,
    {
        let place: usize = find_char(&chars, from, c);
        let ghost rest = all.skip(from as int);
        let ghost before = list@;
        list.push(part(&chars, from, place));
        proof {
            place_in_range(rest, c);
            assert(chars@.subrange(from as int, place as int) =~= rest.take(place - from));
            assert(texts(list@) =~= texts(before).push(rest.take(place - from)));
        }
        if place == chars.len() {
            proof {
                assert(rest.take(place - from) =~= rest);
                assert(texts(list@) =~= texts(before) + seq![rest]);
            }
            return list;
        }
        proof {
            let next = rest.skip(place - from + 1);
            assert(next =~= all.skip(place + 1));
            assert(texts(before) + (seq![rest.take(place - from)] + pieces(next, c))
                =~= texts(list@) + pieces(next, c));
        }
        from = place + 1;
    }
}

/// What stands before the first `c`.
pub open spec fn before_first(text: Seq<char>, c: char) -> Seq<char> {
    text.take(place_of(text, c))
}

pub(crate) fn text_before(text: &str, c: char) -> (before: String)
    ensures
        before@ == before_first(text@, c),
{
    let chars = chars_of(text);
    assert(text@.skip(0) =~= text@);
    let place: usize = find_char(&chars, 0, c);
    assert(text@.subrange(0, place as int) =~= text@.take(place as int));
    part(&chars, 0, place)
}

/// The two sides of the first `c`.
pub open spec fn sides(text: Seq<char>, c: char) -> Option<(Seq<char>, Seq<char>)> {
    let place = place_of(text, c);
    if place == text.len() {
        None
    } else {
        Some((text.take(place), text.skip(place + 1)))
    }
}

pub(crate) fn split_once(text: &str, c: char) -> (result: Option<(String, String)>)
    ensures
        match result {
            Some((left, right)) => sides(text@, c) == Some((left@, right@)),
            None => sides(text@, c) is None,
        },
{
    let chars = chars_of(text);
    assert(text@.skip(0) =~= text@);
    let place: usize = find_char(&chars, 0, c);
    if place == chars.len() {
        return None;
    }
    assert(text@.subrange(0, place as int) =~= text@.take(place as int));
    assert(text@.subrange(place + 1, text@.len() as int) =~= text@.skip(place + 1));
    Some((part(&chars, 0, place), part(&chars, place + 1, chars.len())))
}

/// The first place, from `from` on, where `needle` stands.
pub open spec fn first_stand(text: Seq<char>, needle: Seq<char>, from: int) -> Option<int>
    decreases text.len() - from + 1,
{
    if from + needle.len() > text.len() {
        None
    } else if stands_at(text, needle, from) {
        Some(from)
    } else {
        first_stand(text, needle, from + 1)
    }
}

/// The two sides of the first `separator`.
pub open spec fn sides_of_text(text: Seq<char>, separator: Seq<char>) -> Option<
    (Seq<char>, Seq<char>),
> {
    match first_stand(text, separator, 0) {
        Some(place) => Some((text.take(place), text.skip(place + separator.len()))),
        None => None,
    }
}

pub(crate) fn split_once_text(text: &str, separator: &str) -> (result: Option<(String, String)>)
    ensures
        match result {
            Some((left, right)) => sides_of_text(text@, separator@) == Some((left@, right@)),
            None => sides_of_text(text@, separator@) is None,
        },
{
    let chars = chars_of(text);
    let wanted = chars_of(separator);
    let mut place: usize = 0;
    if wanted.len() > chars.len() {
        return None;
    }
    let total: usize = chars.len();
    let last: usize = total - wanted.len();
    loop
        invariant
            place <= last,
            total == text@.len(),
            last == text@.len() - separator@.len(),
            chars@ == text@,
            wanted@ == separator@,
            first_stand(text@, separator@, 0) == first_stand(text@, separator@, place as int),
        decreases last - place,
    {
        if crate::text::stands_here(&chars, &wanted, place) {
            assert(text@.subrange(0, place as int) =~= text@.take(place as int));
            assert(text@.subrange(place + separator@.len(), text@.len() as int) =~= text@.skip(
                place + separator@.len(),
            ));
            return Some((part(&chars, 0, place), part(&chars, place + wanted.len(), chars.len())));
        }
        if place == last {
            assert(first_stand(text@, separator@, place + 1) is None);
            return None;
        }
        place += 1;
    }
}

/// A line without the carriage return at its end.
pub open spec fn without_return(line: Seq<char>) -> Seq<char> {
    if line.len() > 0 && line.last() == '\r' {
        line.drop_last()
    } else {
        line
    }
}

/// The lines of a text. A line ends with a line feed, before which a carriage
/// return may stand; after the last line feed nothing need follow.
pub open spec fn lines_of(text: Seq<char>) -> Seq<Seq<char>>
    decreases text.len(),
{
    let place = place_of(text, '\n');
    if text.len() == 0 {
        seq![]
    } else if place == text.len() {
        seq![text]
    } else {
        proof {
            place_in_range(text, '\n');
        }
        seq![without_return(text.take(place))] + lines_of(text.skip(place + 1))
    }
}

pub(crate) fn lines(text: &str) -> (list: Vec<String>)
    ensures
        texts(list@) == lines_of(text@),
{
    let chars = chars_of(text);
    let mut list: Vec<String> = Vec::new();
    let mut from: usize = 0;
    let ghost all = text@;
    proof {
        assert(all.skip(0) =~= all);
        assert(texts(list@) + lines_of(all) =~= lines_of(all));
    }
    while from < chars.len()
        invariant
            from <= chars@.len(),
            chars@ == all,
            all == text@,
            texts(list@) + lines_of(all.skip(from as int)) == lines_of(all),
        decreases chars@.len() - from,
    {
        let place: usize = find_char(&chars, from, '\n');
        let ghost rest = all.skip(from as int);
        let ghost before = list@;
        proof {
            place_in_range(rest, '\n');
        }
        if place == chars.len() {
            list.push(part(&chars, from, place));
            proof {
                assert(chars@.subrange(from as int, place as int) =~= rest);
                assert(texts(list@) =~= texts(before) + seq![rest]);
                assert(all.skip(place as int) =~= Seq::<char>::empty());
                place_in_range(Seq::empty(), '\n');
                assert(lines_of(Seq::<char>::empty()) =~= Seq::<Seq<char>>::empty());
                assert(texts(list@) + lines_of(all.skip(place as int)) =~= texts(list@));
            }
            from = place;
        } else {
            let ghost line = rest.take(place - from);
            assert(chars@.subrange(from as int, place as int) =~= line);
            if place > from && chars[place - 1] == '\r' {
                assert(line.last() == chars@[place - 1]);
                list.push(part(&chars, from, place - 1));
                assert(chars@.subrange(from as int, place - 1) =~= line.drop_last());
            } else {
                list.push(part(&chars, from, place));
                assert(place > from ==> line.last() == chars@[place - 1]);
            }
            proof {
                let next = rest.skip(place - from + 1);
                assert(next =~= all.skip(place + 1));
                assert(texts(list@) =~= texts(before).push(without_return(line)));
                assert(texts(before) + (seq![without_return(line)] + lines_of(next)) =~= texts(
                    list@,
                ) + lines_of(next));
            }
            from = place + 1;
        }
    }
    proof {
        assert(all.skip(from as int) =~= Seq::<char>::empty());
        place_in_range(Seq::empty(), '\n');
        assert(lines_of(Seq::<char>::empty()) =~= Seq::<Seq<char>>::empty());
        assert(texts(list@) + lines_of(all.skip(from as int)) =~= texts(list@));
    }
    list
}

/// Where the first run of non-space characters ends.
pub open spec fn word_end(text: Seq<char>) -> int
    decreases text.len(),
{
    if text.len() == 0 || whitespace(text[0]) {
        0
    } else {
        1 + word_end(text.skip(1))
    }
}

/// The words of a text: what stands between its spaces.
pub open spec fn words_of(text: Seq<char>) -> Seq<Seq<char>>
    decreases text.len(),
{
    if text.len() == 0 {
        seq![]
    } else if whitespace(text[0]) {
        words_of(text.skip(1))
    } else {
        proof {
            word_end_in_range(text);
        }
        seq![text.take(word_end(text))] + words_of(text.skip(word_end(text)))
    }
}

/// The first word ends within the text.
pub proof fn word_end_in_range(text: Seq<char>)
    ensures
        0 <= word_end(text) <= text.len(),
        text.len() > 0 && !whitespace(text[0]) ==> word_end(text) > 0,
    decreases text.len(),
{
    if text.len() > 0 && !whitespace(text[0]) {
        word_end_in_range(text.skip(1));
    }
}

proof fn word_end_is(text: Seq<char>, end: int)
    requires
        0 <= end <= text.len(),
        forall|i: int| 0 <= i < end ==> !whitespace(#[trigger] text[i]),
        end < text.len() ==> whitespace(text[end]),
    ensures
        word_end(text) == end,
    decreases text.len(),
{
    if end > 0 {
        assert(!whitespace(text[0]));
        assert forall|i: int| 0 <= i < end - 1 implies !whitespace(#[trigger] text.skip(1)[i]) by {
            assert(!whitespace(text[i + 1]));
        }
        word_end_is(text.skip(1), end - 1);
    }
}

pub(crate) fn split_whitespace(text: &str) -> (list: Vec<String>)
    ensures
        texts(list@) == words_of(text@),
{
    let chars = chars_of(text);
    let mut list: Vec<String> = Vec::new();
    let mut from: usize = 0;
    let ghost all = text@;
    proof {
        assert(all.skip(0) =~= all);
        assert(texts(list@) + words_of(all) =~= words_of(all));
    }
    while from < chars.len()
        invariant
            from <= chars@.len(),
            chars@ == all,
            all == text@,
            texts(list@) + words_of(all.skip(from as int)) == words_of(all),
        decreases chars@.len() - from,
    {
        let ghost rest = all.skip(from as int);
        proof {
            word_end_in_range(rest);
        }
        if chars[from].is_whitespace() {
            assert(rest.skip(1) =~= all.skip(from + 1));
            from += 1;
        } else {
            let mut end: usize = from;
            while end < chars.len() && !chars[end].is_whitespace()
                invariant
                    from <= end <= chars@.len(),
                    forall|i: int| from <= i < end ==> !whitespace(#[trigger] chars@[i]),
                decreases chars.len() - end,
            {
                end += 1;
            }
            let ghost before = list@;
            list.push(part(&chars, from, end));
            proof {
                assert forall|i: int| 0 <= i < end - from implies !whitespace(
                    #[trigger] rest[i],
                ) by {
                    assert(!whitespace(chars@[from + i]));
                }
                word_end_is(rest, end - from);
                let next = rest.skip(end - from);
                assert(next =~= all.skip(end as int));
                assert(chars@.subrange(from as int, end as int) =~= rest.take(end - from));
                assert(texts(list@) =~= texts(before).push(rest.take(end - from)));
                assert(texts(before) + (seq![rest.take(end - from)] + words_of(next)) =~= texts(
                    list@,
                ) + words_of(next));
                assert(!whitespace(rest[0]));
            }
            from = end;
        }
    }
    proof {
        assert(all.skip(from as int) =~= Seq::<char>::empty());
        word_end_in_range(Seq::empty());
        assert(words_of(Seq::<char>::empty()) =~= Seq::<Seq<char>>::empty());
        assert(texts(list@) + words_of(all.skip(from as int)) =~= texts(list@));
    }
    list
}

// ---------------------------------------------------------------------------
// Joining.

/// The texts with `separator` between them.
pub open spec fn joined_with(list: Seq<Seq<char>>, separator: Seq<char>) -> Seq<char>
    decreases list.len(),
{
    if list.len() == 0 {
        seq![]
    } else if list.len() == 1 {
        list[0]
    } else {
        joined_with(list.drop_last(), separator) + separator + list.last()
    }
}

/// The texts from `from` on, with `separator` between them.
pub(crate) fn join(list: &Vec<String>, from: usize, separator: &str) -> (text: String)
    requires
        from <= list@.len(),
    ensures
        text@ == joined_with(texts(list@).skip(from as int), separator@),
{
    let mut text = String::new();
    let mut index: usize = from;
    let ghost all = texts(list@).skip(from as int);
    proof {
        assert(all.take(0) =~= Seq::<Seq<char>>::empty());
        assert(text@ =~= Seq::<char>::empty());
    }
    while index < list.len()
        invariant
            from <= index <= list@.len(),
            all == texts(list@).skip(from as int),
            text@ == joined_with(all.take(index - from), separator@),
        decreases list.len() - index,
    {
        if index > from {
            text.append(separator);
        }
        text.append(list[index].as_str());
        proof {
            let now = all.take(index + 1 - from);
            assert(now.drop_last() =~= all.take(index - from));
            assert(now.last() == list@[index as int]@);
            if index == from {
                assert(now.len() == 1);
                assert(now[0] == list@[index as int]@);
                assert(text@ =~= now[0]);
            }
        }
        index += 1;
    }
    assert(all.take(list@.len() - from) =~= all);
    text
}

// ---------------------------------------------------------------------------
// Numbers.

/// The value of a digit in a base of at most sixteen.
pub open spec fn digit_value(c: char, base: nat) -> Option<nat> {
    let value = if '0' <= c && c <= '9' {
        (c as u32 - '0' as u32) as nat
    } else if 'a' <= c && c <= 'f' {
        (c as u32 - 'a' as u32 + 10) as nat
    } else if 'A' <= c && c <= 'F' {
        (c as u32 - 'A' as u32 + 10) as nat
    } else {
        base
    };
    if value < base {
        Some(value)
    } else {
        None
    }
}

pub(crate) fn read_digit(c: char, base: u32) -> (value: Option<u32>)
    requires
        base <= 16,
    ensures
        match value {
            Some(value) => digit_value(c, base as nat) == Some(value as nat),
            None => digit_value(c, base as nat) is None,
        },
{
    let value: u32 = if '0' <= c && c <= '9' {
        c as u32 - '0' as u32
    } else if 'a' <= c && c <= 'f' {
        c as u32 - 'a' as u32 + 10
    } else if 'A' <= c && c <= 'F' {
        c as u32 - 'A' as u32 + 10
    } else {
        base
    };
    if value < base {
        Some(value)
    } else {
        None
    }
}

/// The number that digits spell.
pub open spec fn digits_value(digits: Seq<char>, base: nat) -> Option<nat>
    decreases digits.len(),
{
    if digits.len() == 0 {
        Some(0)
    } else {
        match (digits_value(digits.drop_last(), base), digit_value(digits.last(), base)) {
            (Some(before), Some(digit)) => Some(before * base + digit),
            _ => None,
        }
    }
}

/// The number that a text spells: digits, at least one, with a plus sign
/// before them or none, for at most `largest`.
pub open spec fn number_in(text: Seq<char>, base: nat, largest: nat) -> Option<nat> {
    let digits = if text.len() > 0 && text[0] == '+' {
        text.skip(1)
    } else {
        text
    };
    if digits.len() == 0 {
        None
    } else {
        match digits_value(digits, base) {
            Some(value) => if value <= largest {
                Some(value)
            } else {
                None
            },
            None => None,
        }
    }
}

proof fn digits_value_grows(digits: Seq<char>, base: nat, count: int, bound: nat)
    requires
        0 <= count <= digits.len(),
        base >= 1,
        digits_value(digits.take(count), base) matches Some(value) ==> value > bound,
    ensures
        digits_value(digits, base) matches Some(value) ==> value > bound,
    decreases digits.len(),
{
    if count == digits.len() {
        assert(digits.take(count) =~= digits);
    } else {
        assert(digits.drop_last().take(count) =~= digits.take(count));
        digits_value_grows(digits.drop_last(), base, count, bound);
        if digits_value(digits, base) is Some {
            let before = digits_value(digits.drop_last(), base)->0;
            assert(before * base >= before) by (nonlinear_arith)
                requires
                    base >= 1,
            ;
        }
    }
}

/// Reads a number of a base of at most sixteen.
pub(crate) fn parse_number(text: &str, base: u32, largest: u64) -> (value: Option<u64>)
    requires
        2 <= base <= 16,
    ensures
        match value {
            Some(value) => number_in(text@, base as nat, largest as nat) == Some(value as nat),
            None => number_in(text@, base as nat, largest as nat) is None,
        },
{
    let chars = chars_of(text);
    let from: usize = if chars.len() > 0 && chars[0] == '+' {
        1
    } else {
        0
    };
    if from == chars.len() {
        return None;
    }
    let ghost digits = text@.skip(from as int);
    assert(text@.skip(0) =~= text@);
    let mut value: u64 = 0;
    let mut index: usize = from;
    assert(digits.take(0) =~= Seq::<char>::empty());
    while index < chars.len()
        invariant
            from <= index <= chars@.len(),
            2 <= base <= 16,
            chars@ == text@,
            digits == text@.skip(from as int),
            digits.len() > 0,
            digits == (if text@.len() > 0 && text@[0] == '+' {
                text@.skip(1)
            } else {
                text@
            }),
            value <= largest,
            digits_value(digits.take(index - from), base as nat) == Some(value as nat),
        decreases chars.len() - index,
    {
        proof {
            let now = digits.take(index + 1 - from);
            assert(now.drop_last() =~= digits.take(index - from));
            assert(now.last() == chars@[index as int]);
        }
        match read_digit(chars[index], base) {
            None => {
                proof {
                    digits_value_grows(digits, base as nat, index + 1 - from, largest as nat);
                }
                return None;
            },
            Some(digit) => {
                assert(value * base <= u64::MAX * 16) by (nonlinear_arith)
                    requires
                        value <= u64::MAX,
                        base <= 16,
                ;
                let next: u128 = value as u128 * base as u128 + digit as u128;
                if next > largest as u128 {
                    proof {
                        digits_value_grows(digits, base as nat, index + 1 - from, largest as nat);
                    }
                    return None;
                }
                value = next as u64;
            },
        }
        index += 1;
    }
    assert(digits.take(chars@.len() - from) =~= digits);
    Some(value)
}

// ---------------------------------------------------------------------------
// Letters.

pub(crate) fn to_ascii_lower(text: &str) -> (lower: String)
    ensures
        lower@ == ascii_lower(text@),
{
    let chars = chars_of(text);
    let mut lower = String::new();
    let mut index: usize = 0;
    assert(lower@ =~= ascii_lower(text@).take(0));
    while index < chars.len()
        invariant
            index <= chars@.len(),
            chars@ == text@,
            lower@ == ascii_lower(text@).take(index as int),
        decreases chars.len() - index,
    {
        let c: char = chars[index];
        if 'A' <= c && c <= 'Z' {
            lower.push((c as u32 - 'A' as u32 + 'a' as u32) as u8 as char);
        } else {
            lower.push(c);
        }
        index += 1;
        assert(lower@ =~= ascii_lower(text@).take(index as int));
    }
    assert(ascii_lower(text@).take(text@.len() as int) =~= ascii_lower(text@));
    lower
}

} // verus!
