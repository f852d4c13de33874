//! What holds of emoji in every document.

use crate::around::in_code_block;
use crate::emoji::{
    all_spelled, emoji_at, emoji_in, emoji_of, emoji_text, emoji_text_in, emojied, html_spelled,
    is_missing, spelled, with_found,
};
use crate::event::{EventView, MdEvent};
use crate::text::{find_at, found_first};
use vstd::prelude::*;

verus! {

/// The events so far, and whether code is open.
proof fn emoji_follow(events: Seq<EventView>, missing: Seq<(Seq<char>, Seq<char>)>, n: int)
    requires
        0 <= n <= events.len(),
    ensures
        emojied(events, missing, n).0.len() == n,
        emojied(events, missing, n).1 == in_code_block(events, n),
        all_spelled(events, missing, n).0.len() == n,
        all_spelled(events, missing, n).1 == in_code_block(events, n),
    decreases n,
{
    if n > 0 {
        emoji_follow(events, missing, n - 1);
    }
}

/// What was read stays as more is read.
proof fn emoji_stay(events: Seq<EventView>, missing: Seq<(Seq<char>, Seq<char>)>, a: int, b: int)
    requires
        0 <= a <= b <= events.len(),
    ensures
        emojied(events, missing, a).0.is_prefix_of(emojied(events, missing, b).0),
        all_spelled(events, missing, a).0.is_prefix_of(all_spelled(events, missing, b).0),
    decreases b - a,
{
    if a < b {
        emoji_stay(events, missing, a, b - 1);
        let first = emojied(events, missing, a).0;
        let before = emojied(events, missing, b - 1).0;
        let last = emojied(events, missing, b).0;
        assert(last.drop_last() =~= before);
        assert(last.take(first.len() as int) =~= before.take(first.len() as int));
        let first = all_spelled(events, missing, a).0;
        let before = all_spelled(events, missing, b - 1).0;
        let last = all_spelled(events, missing, b).0;
        assert(last.drop_last() =~= before);
        assert(last.take(first.len() as int) =~= before.take(first.len() as int));
    }
}

/// Only text outside code blocks gets its emoji: every other event stays as it is.
pub proof fn only_text_gets_emoji(
    events: Seq<EventView>,
    missing: Seq<(Seq<char>, Seq<char>)>,
    n: int,
)
    requires
        0 <= n < events.len(),
    ensures
        emojied(events, missing, events.len() as int).0.len() == events.len(),
        emojied(events, missing, events.len() as int).0[n] == match events[n] {
            MdEvent::Text(text) if !in_code_block(events, n) => EventView::Text(
                emoji_text_in(text, missing),
            ),
            event => event,
        },
{
    let all = events.len() as int;
    emoji_follow(events, missing, n);
    emoji_follow(events, missing, n + 1);
    emoji_follow(events, missing, all);
    emoji_stay(events, missing, n + 1, all);
    assert(emojied(events, missing, n + 1).0[n] == emojied(events, missing, all).0[n]);
}

/// Only text outside code blocks, and raw HTML, has its missing emoji spelled out: every other
/// event stays as it is.
pub proof fn only_text_is_spelled_out(
    events: Seq<EventView>,
    missing: Seq<(Seq<char>, Seq<char>)>,
    n: int,
)
    requires
        0 <= n < events.len(),
    ensures
        all_spelled(events, missing, events.len() as int).0.len() == events.len(),
        all_spelled(events, missing, events.len() as int).0[n] == match events[n] {
            MdEvent::Text(text) if !in_code_block(events, n) => EventView::Text(
                spelled(text, missing, 0),
            ),
            MdEvent::Html(html) => EventView::Text(html_spelled(html, missing)),
            MdEvent::InlineHtml(html) => EventView::Text(html_spelled(html, missing)),
            event => event,
        },
{
    let all = events.len() as int;
    emoji_follow(events, missing, n);
    emoji_follow(events, missing, n + 1);
    emoji_follow(events, missing, all);
    emoji_stay(events, missing, n + 1, all);
    assert(all_spelled(events, missing, n + 1).0[n] == all_spelled(events, missing, all).0[n]);
}

/// Text up to a colon stays as it is.
proof fn text_before_colons_stays(
    text: Seq<char>,
    found: Seq<Option<Seq<char>>>,
    at: int,
    colon: int,
)
    requires
        0 <= at <= colon <= text.len(),
        forall|k: int| at <= k < colon ==> #[trigger] text[k] != ':',
    ensures
        with_found(text, found, at) == text.subrange(at, colon) + with_found(text, found, colon),
    decreases colon - at,
{
    if at < colon {
        assert(text[at] != ':');
        text_before_colons_stays(text, found, at + 1, colon);
        assert(seq![text[at]] + (text.subrange(at + 1, colon) + with_found(text, found, colon))
            =~= text.subrange(at, colon) + with_found(text, found, colon));
    } else {
        assert(text.subrange(at, colon) + with_found(text, found, colon) =~= with_found(
            text,
            found,
            colon,
        ));
    }
}

/// A shortcode between colons is the emoji of that name, and the text around it stays as it is;
/// what is no shortcode stays too.
pub proof fn shortcodes_become_emoji(before: Seq<char>, name: Seq<char>, after: Seq<char>)
    requires
        !before.contains(':'),
        !name.contains(':'),
        !after.contains(':'),
    ensures
        emoji_text(before + seq![':'] + name + seq![':'] + after) == match emoji_of(name) {
            Some(emoji) => before + emoji + after,
            None => before + seq![':'] + name + seq![':'] + after,
        },
{
    reveal_strlit(":");
    let text = before + seq![':'] + name + seq![':'] + after;
    let missing = Seq::<(Seq<char>, Seq<char>)>::empty();
    let found = emoji_in(text, missing);
    let open = before.len() as int;
    let close = open + 1 + name.len();
    let end = text.len() as int;
    assert forall|k: int| 0 <= k < open implies #[trigger] text[k] != ':' by {
        assert(text[k] == before[k]);
    }
    assert forall|k: int| open < k < close implies #[trigger] text[k] != ':' by {
        assert(text[k] == name[k - open - 1]);
    }
    assert forall|k: int| close < k < end implies #[trigger] text[k] != ':' by {
        assert(text[k] == after[k - close - 1]);
    }
    assert(text[open] == ':' && text[close] == ':');
    assert(text.subrange(close, close + 1) =~= ":"@);
    found_first(text, open + 1, ":"@);
    assert(crate::text::stands_at(text, close, ":"@));
    let next = find_at(text, open + 1, ":"@)->0;
    if next < close {
        assert(text.subrange(next, next + 1)[0] == ':');
        assert(text[next] == ':');
    }
    assert(find_at(text, open + 1, ":"@) == Some(close));
    assert(text.subrange(open + 1, close) =~= name);
    found_first(text, close + 1, ":"@);
    if let Some(third) = find_at(text, close + 1, ":"@) {
        assert(text.subrange(third, third + 1)[0] == ':');
        assert(text[third] == ':');
    }
    assert(emoji_at(text, open) == emoji_of(name));
    text_before_colons_stays(text, found, 0, open);
    text_before_colons_stays(text, found, close + 1, end);
    assert(with_found(text, found, end) =~= Seq::<char>::empty());
    assert(text.subrange(0, open) =~= before);
    assert(text.subrange(close + 1, end) =~= after);
    assert(with_found(text, found, close + 1) =~= after);
    match emoji_of(name) {
        Some(emoji) => {
            assert(!is_missing(missing, emoji));
            assert(found[open] == Some(emoji));
            assert(before + (emoji + after) =~= before + emoji + after);
        },
        None => {
            assert(found[open] is None);
            text_before_colons_stays(text, found, open + 1, close);
            assert(with_found(text, found, close) =~= seq![':'] + after);
            assert(emoji_text(text) =~= text);
        },
    }
}

}
