//! What holds of every text.

use crate::text::{
    drop_end, first_word_of, is_white, lowered, trim, trim_end, trim_start, until_white, words_of,
};
use vstd::prelude::*;

verus! {

/// Whether a text is nothing but white space.
pub open spec fn is_blank(text: Seq<char>) -> bool {
    forall|i: int| 0 <= i < text.len() ==> is_white(#[trigger] text[i])
}

/// The white space at the start of a text is taken away.
proof fn starts_are_trimmed(text: Seq<char>) -> (lead: Seq<char>)
    ensures
        text == lead + trim_start(text),
        is_blank(lead),
        trim_start(text).len() > 0 ==> !is_white(trim_start(text)[0]),
    decreases text.len(),
{
    if text.len() > 0 && is_white(text[0]) {
        let rest = starts_are_trimmed(text.drop_first());
        let lead = seq![text[0]] + rest;
        let kept = trim_start(text);
        assert(text =~= seq![text[0]] + text.drop_first());
        assert(seq![text[0]] + (rest + kept) =~= lead + kept);
        lead
    } else {
        assert(text =~= Seq::<char>::empty() + trim_start(text));
        Seq::empty()
    }
}

/// The white space at the end of a text is taken away.
proof fn ends_are_trimmed(text: Seq<char>) -> (trail: Seq<char>)
    ensures
        text == trim_end(text) + trail,
        is_blank(trail),
        trim_end(text).len() > 0 ==> !is_white(trim_end(text).last()),
    decreases text.len(),
{
    if text.len() > 0 && is_white(text.last()) {
        let rest = ends_are_trimmed(text.drop_last());
        let trail = rest.push(text.last());
        let kept = trim_end(text);
        assert(text =~= text.drop_last().push(text.last()));
        assert((kept + rest).push(text.last()) =~= kept + trail);
        trail
    } else {
        assert(text =~= trim_end(text) + Seq::<char>::empty());
        Seq::empty()
    }
}

/// Trimming takes away white space at the ends of a text, all of it and nothing else.
pub proof fn only_white_space_is_trimmed(text: Seq<char>) -> (ends: (Seq<char>, Seq<char>))
    ensures
        text == ends.0 + trim(text) + ends.1,
        is_blank(ends.0),
        is_blank(ends.1),
        trim(text).len() > 0 ==> !is_white(trim(text)[0]) && !is_white(trim(text).last()),
{
    let lead = starts_are_trimmed(text);
    let rest = trim_start(text);
    let trail = ends_are_trimmed(rest);
    assert(text =~= lead + trim(text) + trail);
    if trim(text).len() > 0 {
        assert(trim(text)[0] == rest[0]);
    }
    (lead, trail)
}

/// Taking characters away at the end of a text takes all of them there and nothing else.
pub proof fn only_the_end_is_dropped(text: Seq<char>, c: char) -> (dropped: Seq<char>)
    ensures
        text == drop_end(text, c) + dropped,
        forall|i: int| 0 <= i < dropped.len() ==> #[trigger] dropped[i] == c,
        drop_end(text, c).len() > 0 ==> drop_end(text, c).last() != c,
    decreases text.len(),
{
    if text.len() > 0 && text.last() == c {
        let rest = only_the_end_is_dropped(text.drop_last(), c);
        let dropped = rest.push(c);
        let kept = drop_end(text, c);
        assert(text =~= text.drop_last().push(c));
        assert((kept + rest).push(c) =~= kept + dropped);
        dropped
    } else {
        assert(text =~= drop_end(text, c) + Seq::<char>::empty());
        Seq::empty()
    }
}

/// A word goes up to white space.
proof fn words_end_at_white_space(word: Seq<char>, rest: Seq<char>)
    requires
        forall|i: int| 0 <= i < word.len() ==> !is_white(#[trigger] word[i]),
        rest.len() == 0 || is_white(rest[0]),
    ensures
        until_white(word + rest) == word,
    decreases word.len(),
{
    let text = word + rest;
    if word.len() == 0 {
        assert(text =~= rest);
        assert(until_white(text) =~= word);
    } else {
        assert(!is_white(word[0]));
        assert(text[0] == word[0]);
        let shorter = word.drop_first();
        assert forall|i: int| 0 <= i < shorter.len() implies !is_white(#[trigger] shorter[i]) by {
            assert(shorter[i] == word[i + 1]);
        }
        words_end_at_white_space(shorter, rest);
        assert(text.drop_first() =~= shorter + rest);
        assert(until_white(text) =~= word);
    }
}

/// White space before a text is no word, and what is no white space up to white space is one word:
/// the words of a text are counted so.
pub proof fn white_space_parts_words(word: Seq<char>, white: char, rest: Seq<char>)
    requires
        word.len() > 0,
        forall|i: int| 0 <= i < word.len() ==> !is_white(#[trigger] word[i]),
        is_white(white),
    ensures
        words_of(Seq::empty()) == Seq::<Seq<char>>::empty(),
        words_of(seq![white] + rest) == words_of(rest),
        words_of(word) == seq![word],
        words_of(word + (seq![white] + rest)) == seq![word] + words_of(rest),
        first_word_of(word + (seq![white] + rest)) == word,
        first_word_of(seq![white] + rest) == first_word_of(rest),
{
    let after = seq![white] + rest;
    assert(after.drop_first() =~= rest);
    assert(trim_start(after) == trim_start(rest));
    white_is_no_word(white, rest);
    let text = word + after;
    assert(!is_white(word[0]));
    assert(text[0] == word[0]);
    words_end_at_white_space(word, after);
    words_end_at_white_space(word, Seq::empty());
    assert(word + Seq::<char>::empty() =~= word);
    assert(text.skip(word.len() as int) =~= after);
    assert(word.skip(word.len() as int) =~= Seq::<char>::empty());
    assert(words_of(Seq::<char>::empty()) =~= Seq::<Seq<char>>::empty());
    assert(trim_start(text) == text);
    assert(trim_start(word) == word);
    assert(words_of(text) == seq![word] + words_of(after));
    assert(words_of(word) =~= seq![word] + Seq::<Seq<char>>::empty());
    assert(words_of(word) =~= seq![word]);
}

/// White space before a text is no word.
proof fn white_is_no_word(white: char, rest: Seq<char>)
    requires
        is_white(white),
    ensures
        words_of(seq![white] + rest) == words_of(rest),
{
    let after = seq![white] + rest;
    assert(after.drop_first() =~= rest);
    assert(trim_start(after) == trim_start(rest));
}

/// Letters in lower case are as many, where they were, and none but the capital letters change.
pub proof fn only_capitals_are_lowered(text: Seq<char>, i: int)
    requires
        0 <= i < text.len(),
    ensures
        lowered(text).len() == text.len(),
        !('A' <= text[i] <= 'Z') ==> lowered(text)[i] == text[i],
        'A' <= text[i] <= 'Z' ==> 'a' <= lowered(text)[i] <= 'z' && lowered(text)[i] as int
            == text[i] as int + 32,
{
}

}
