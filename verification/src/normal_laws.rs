//! What holds of normalized text, and so of what counts as the same claim.

use vstd::prelude::*;

use crate::assumptions::{collapsed, normalized};
use crate::scan::{joined_with, word_end, word_end_in_range, words_of};
use crate::text::{ascii, ascii_lower, lower_letter, whitespace};

verus! {

// ---------------------------------------------------------------------------
// Words.

/// Leading whitespace does not count.
proof fn collapsing_skips_a_leading_space(text: Seq<char>)
    requires
        text.len() > 0,
        whitespace(text[0]),
    ensures
        collapsed(text) == collapsed(text.skip(1)),
    decreases text.len(),
{
    if text.len() == 1 {
        assert(text.skip(1) =~= Seq::<char>::empty());
        assert(text.drop_last() =~= Seq::<char>::empty());
    } else {
        let rest = text.skip(1);
        assert(rest.drop_last() =~= text.drop_last().skip(1));
        collapsing_skips_a_leading_space(text.drop_last());
        assert(rest.last() == text.last());
        if rest.len() >= 2 {
            assert(rest[rest.len() - 2] == text[text.len() - 2]);
        } else {
            assert(rest.drop_last() =~= Seq::<char>::empty());
        }
    }
}

proof fn a_word_stays(word: Seq<char>)
    requires
        forall|i: int| 0 <= i < word.len() ==> !whitespace(#[trigger] word[i]),
    ensures
        collapsed(word) == word,
    decreases word.len(),
{
    if word.len() > 0 {
        a_word_stays(word.drop_last());
        assert(!whitespace(word.last()));
        if word.len() >= 2 {
            assert(!whitespace(word[word.len() - 2]));
        }
        assert(word.drop_last().push(word.last()) =~= word);
    } else {
        assert(word =~= Seq::<char>::empty());
    }
}

proof fn something_is_left(text: Seq<char>)
    requires
        text.len() > 0,
        !whitespace(text.last()),
    ensures
        collapsed(text).len() > 0,
{
}

/// The first word and the rest.
proof fn collapsing_splits_off_a_word(word: Seq<char>, rest: Seq<char>)
    requires
        word.len() > 0,
        forall|i: int| 0 <= i < word.len() ==> !whitespace(#[trigger] word[i]),
        rest.len() > 0 ==> whitespace(rest[0]),
    ensures
        collapsed(word + rest) == if collapsed(rest).len() == 0 {
            word
        } else {
            word.push(' ') + collapsed(rest)
        },
    decreases rest.len(),
{
    if rest.len() == 0 {
        assert(word + rest =~= word);
        assert(collapsed(rest).len() == 0);
        a_word_stays(word);
    } else {
        let all = word + rest;
        let r = rest.drop_last();
        assert(all.drop_last() =~= word + r);
        assert(all.last() == rest.last());
        if r.len() > 0 {
            assert(r[0] == rest[0]);
        }
        collapsing_splits_off_a_word(word, r);
        if !whitespace(rest.last()) {
            assert(r.len() > 0);
            assert(all[all.len() - 2] == rest[rest.len() - 2]);
            assert(rest[rest.len() - 2] == r.last());
            if whitespace(r.last()) {
                if collapsed(r).len() > 0 {
                    assert((word.push(' ') + collapsed(r)).push(' ').push(rest.last())
                        =~= word.push(' ') + collapsed(r).push(' ').push(rest.last()));
                } else {
                    assert(word.push(' ').push(rest.last()) =~= word.push(' ') + collapsed(r).push(
                        rest.last(),
                    ));
                }
            } else {
                something_is_left(r);
                assert((word.push(' ') + collapsed(r)).push(rest.last()) =~= word.push(' ')
                    + collapsed(r).push(rest.last()));
            }
        }
    }
}

proof fn joining_from_the_front(first: Seq<char>, rest: Seq<Seq<char>>)
    ensures
        joined_with(seq![first] + rest, seq![' ']) == if rest.len() == 0 {
            first
        } else {
            first.push(' ') + joined_with(rest, seq![' '])
        },
    decreases rest.len(),
{
    let all = seq![first] + rest;
    if rest.len() == 0 {
        assert(all[0] == first);
    } else {
        assert(all.drop_last() =~= seq![first] + rest.drop_last());
        assert(all.last() == rest.last());
        joining_from_the_front(first, rest.drop_last());
        if rest.len() == 1 {
            assert(first + seq![' '] + rest.last() =~= first.push(' ') + rest[0]);
        } else {
            let inner = joined_with(rest.drop_last(), seq![' ']);
            assert((first.push(' ') + inner) + seq![' '] + rest.last() =~= first.push(' ') + (inner
                + seq![' '] + rest.last()));
        }
    }
}

proof fn first_words_hold_no_space(text: Seq<char>)
    ensures
        0 <= word_end(text) <= text.len(),
        forall|i: int| 0 <= i < word_end(text) ==> !whitespace(#[trigger] text[i]),
        word_end(text) < text.len() ==> whitespace(text[word_end(text)]),
    decreases text.len(),
{
    word_end_in_range(text);
    if text.len() > 0 && !whitespace(text[0]) {
        let rest = text.skip(1);
        first_words_hold_no_space(rest);
        assert forall|i: int| 0 <= i < word_end(text) implies !whitespace(#[trigger] text[i]) by {
            if i > 0 {
                assert(!whitespace(rest[i - 1]));
            }
        }
    }
}

/// Collapsing a text joins its words by single spaces.
pub proof fn collapsing_joins_the_words(text: Seq<char>)
    ensures
        collapsed(text) == joined_with(words_of(text), " "@),
        collapsed(text).len() == 0 <==> words_of(text).len() == 0,
    decreases text.len(),
{
    reveal_strlit(" ");
    assert(" "@ =~= seq![' ']);
    if text.len() == 0 {
        assert(collapsed(text) =~= Seq::<char>::empty());
    } else if whitespace(text[0]) {
        collapsing_skips_a_leading_space(text);
        collapsing_joins_the_words(text.skip(1));
    } else {
        word_end_in_range(text);
        first_words_hold_no_space(text);
        let end = word_end(text);
        let word = text.take(end);
        let rest = text.skip(end);
        assert forall|i: int| 0 <= i < word.len() implies !whitespace(#[trigger] word[i]) by {
            assert(!whitespace(text[i]));
        }
        if rest.len() > 0 {
            assert(rest[0] == text[end]);
        }
        assert(word + rest =~= text);
        collapsing_splits_off_a_word(word, rest);
        collapsing_joins_the_words(rest);
        joining_from_the_front(word, words_of(rest));
    }
}

// ---------------------------------------------------------------------------
// Letters.

proof fn letters_stay_what_they_are(c: char)
    requires
        c <= '\u{7f}',
    ensures
        lower_letter(c) <= '\u{7f}',
        whitespace(lower_letter(c)) == whitespace(c),
        lower_letter(lower_letter(c)) == lower_letter(c),
        !('A' <= lower_letter(c) <= 'Z'),
        whitespace(c) ==> lower_letter(c) == c,
{
}

pub proof fn collapsing_and_lowering_commute(text: Seq<char>)
    requires
        ascii(text),
    ensures
        ascii(collapsed(text)),
        collapsed(ascii_lower(text)) == ascii_lower(collapsed(text)),
    decreases text.len(),
{
    if text.len() == 0 {
        assert(ascii_lower(text) =~= Seq::<char>::empty());
        assert(collapsed(text) =~= Seq::<char>::empty());
        assert(ascii_lower(collapsed(text)) =~= Seq::<char>::empty());
    } else {
        let before = text.drop_last();
        let lower = ascii_lower(text);
        assert forall|i: int| 0 <= i < before.len() implies (#[trigger] before[i]) <= '\u{7f}' by {
            assert(text[i] <= '\u{7f}');
        }
        collapsing_and_lowering_commute(before);
        assert(lower.drop_last() =~= ascii_lower(before));
        assert(text[text.len() - 1] <= '\u{7f}');
        letters_stay_what_they_are(text.last());
        if text.len() >= 2 {
            assert(text[text.len() - 2] <= '\u{7f}');
            letters_stay_what_they_are(text[text.len() - 2]);
        }
        let kept = collapsed(before);
        let c = text.last();
        assert(lower.last() == lower_letter(c));
        assert(ascii_lower(kept.push(c)) =~= ascii_lower(kept).push(lower_letter(c)));
        assert(ascii_lower(kept.push(' ').push(c)) =~= ascii_lower(kept).push(' ').push(
            lower_letter(c),
        ));
        assert(ascii_lower(kept).len() == kept.len());
    }
}

/// No whitespace but single spaces, and none around.
pub open spec fn single_spaced(text: Seq<char>) -> bool {
    &&& text.len() > 0 ==> !whitespace(text[0]) && !whitespace(text.last())
    &&& forall|i: int| 0 <= i < text.len() && whitespace(#[trigger] text[i]) ==> text[i] == ' '
    &&& forall|i: int|
        0 <= i < text.len() - 1 && whitespace(#[trigger] text[i]) ==> !whitespace(text[i + 1])
}

/// Not a letter from `A` to `Z`.
pub open spec fn without_capitals(text: Seq<char>) -> bool {
    forall|i: int| 0 <= i < text.len() ==> !('A' <= #[trigger] text[i] <= 'Z')
}

/// What is collapsed is spaced by single spaces.
pub proof fn collapsed_texts_are_single_spaced(text: Seq<char>)
    ensures
        single_spaced(collapsed(text)),
    decreases text.len(),
{
    if text.len() > 0 {
        collapsed_texts_are_single_spaced(text.drop_last());
        let before = collapsed(text.drop_last());
        let now = collapsed(text);
        if !whitespace(text.last()) {
            assert forall|i: int| 0 <= i < now.len() && whitespace(#[trigger] now[i]) implies now[i]
                == ' ' by {
                if i < before.len() {
                    assert(now[i] == before[i]);
                }
            }
            assert forall|i: int|
                0 <= i < now.len() - 1 && whitespace(#[trigger] now[i]) implies !whitespace(
                now[i + 1],
            ) by {
                if i < before.len() - 1 {
                    assert(now[i] == before[i]);
                    assert(now[i + 1] == before[i + 1]);
                } else if i == before.len() - 1 {
                    assert(now[i] == before.last());
                }
            }
            if before.len() > 0 {
                assert(now[0] == before[0]);
            }
        }
    }
}

proof fn single_spaced_prefixes_stay(text: Seq<char>)
    requires
        text.len() > 0 ==> !whitespace(text[0]),
        forall|i: int| 0 <= i < text.len() && whitespace(#[trigger] text[i]) ==> text[i] == ' ',
        forall|i: int|
            0 <= i < text.len() - 1 && whitespace(#[trigger] text[i]) ==> !whitespace(text[i + 1]),
    ensures
        collapsed(text) == if text.len() > 0 && whitespace(text.last()) {
            text.drop_last()
        } else {
            text
        },
    decreases text.len(),
{
    if text.len() == 0 {
        assert(text =~= Seq::<char>::empty());
    } else {
        let before = text.drop_last();
        assert forall|i: int| 0 <= i < before.len() && whitespace(#[trigger] before[i]) implies
            before[i] == ' ' by {
            assert(before[i] == text[i]);
        }
        assert forall|i: int|
            0 <= i < before.len() - 1 && whitespace(#[trigger] before[i]) implies !whitespace(
            before[i + 1],
        ) by {
            assert(before[i] == text[i]);
        }
        single_spaced_prefixes_stay(before);
        if before.len() > 0 {
            let last = text[text.len() - 2];
            assert(before.last() == last);
            if whitespace(last) {
                assert(last == ' ');
                assert(!whitespace(text[text.len() - 2 + 1]));
                assert(before.len() > 1);
                assert(before.drop_last().push(' ').push(text.last()) =~= text);
            } else {
                assert(before.push(text.last()) =~= text);
            }
        } else {
            assert(before.push(text.last()) =~= text);
        }
    }
}

/// Normalizing twice is normalizing once. What is normalized has no capital
/// and no whitespace but single spaces between words.
pub proof fn normalizing_is_idempotent(text: Seq<char>)
    requires
        ascii(text),
    ensures
        normalized(normalized(text)) == normalized(text),
        single_spaced(normalized(text)),
        without_capitals(normalized(text)),
        ascii(normalized(text)),
{
    collapsing_and_lowering_commute(text);
    let lower = ascii_lower(text);
    let once = normalized(text);
    assert(once == ascii_lower(collapsed(text)));
    assert(once == collapsed(lower));
    collapsed_texts_are_single_spaced(lower);
    single_spaced_prefixes_stay(once);
    assert(collapsed(once) == once);
    let kept = collapsed(text);
    assert forall|i: int| 0 <= i < once.len() implies (#[trigger] once[i]) <= '\u{7f}' && !('A'
        <= once[i] <= 'Z') && lower_letter(once[i]) == once[i] by {
        assert(kept[i] <= '\u{7f}');
        letters_stay_what_they_are(kept[i]);
    }
    assert(ascii_lower(once) =~= once);
}

/// Texts whose words are the same but for capitals normalize alike, however
/// much whitespace stands between and around the words.
pub proof fn case_and_spacing_do_not_count(left: Seq<char>, right: Seq<char>)
    requires
        ascii(left),
        ascii(right),
        words_of(ascii_lower(left)) == words_of(ascii_lower(right)),
    ensures
        normalized(left) == normalized(right),
{
    collapsing_and_lowering_commute(left);
    collapsing_and_lowering_commute(right);
    collapsing_joins_the_words(ascii_lower(left));
    collapsing_joins_the_words(ascii_lower(right));
}

} // verus!
