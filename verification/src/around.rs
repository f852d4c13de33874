//! What stands around an event of a document, told from the events alone.

use crate::event::{EventView, MdEvent, MdTag};
use pulldown_cmark::{HeadingLevel, TagEnd};
use vstd::prelude::*;

verus! {

/// What an event can stand in.
pub enum Around {
    Emphasis,
    Strong,
    Title,
    Strikethrough,
    Link,
    Image,
    Quote,
    List,
    Table,
}

/// Whether an event starts something to stand in.
pub open spec fn starts(event: EventView, around: Around) -> bool {
    match event {
        MdEvent::Start(MdTag::Emphasis) => around is Emphasis,
        MdEvent::Start(MdTag::Strong) => around is Strong,
        MdEvent::Start(MdTag::DefinitionListTitle) => around is Title,
        MdEvent::Start(MdTag::Strikethrough) => around is Strikethrough,
        MdEvent::Start(MdTag::Link { .. }) => around is Link,
        MdEvent::Start(MdTag::Image { .. }) => around is Image,
        MdEvent::Start(MdTag::BlockQuote(_)) => around is Quote,
        MdEvent::Start(MdTag::List(_)) => around is List,
        MdEvent::Start(MdTag::Table(_)) => around is Table,
        _ => false,
    }
}

/// Whether an event ends something to stand in.
pub open spec fn ends(event: EventView, around: Around) -> bool {
    match event {
        MdEvent::End(TagEnd::Emphasis) => around is Emphasis,
        MdEvent::End(TagEnd::Strong) => around is Strong,
        MdEvent::End(TagEnd::DefinitionListTitle) => around is Title,
        MdEvent::End(TagEnd::Strikethrough) => around is Strikethrough,
        MdEvent::End(TagEnd::Link) => around is Link,
        MdEvent::End(TagEnd::Image) => around is Image,
        MdEvent::End(TagEnd::BlockQuote(_)) => around is Quote,
        MdEvent::End(TagEnd::List(_)) => around is List,
        MdEvent::End(TagEnd::Table) => around is Table,
        _ => false,
    }
}

/// Whether a code block is open after the first `n` events.
pub open spec fn in_code_block(events: Seq<EventView>, n: int) -> bool
    decreases n,
{
    if n <= 0 {
        false
    } else {
        match events[n - 1] {
            MdEvent::Start(MdTag::CodeBlock(_)) => true,
            MdEvent::End(TagEnd::CodeBlock) => false,
            _ => in_code_block(events, n - 1),
        }
    }
}

/// How many of something are open after the first `n` events: how many started and did not end,
/// outside code blocks.
pub open spec fn open_around(events: Seq<EventView>, n: int, around: Around) -> nat
    decreases n,
{
    if n <= 0 {
        0
    } else {
        let before = open_around(events, n - 1, around);
        if in_code_block(events, n - 1) {
            before
        } else if starts(events[n - 1], around) {
            before + 1
        } else if ends(events[n - 1], around) && before > 0 {
            (before - 1) as nat
        } else {
            before
        }
    }
}

/// Whether one or the other started, outside code blocks, and neither ended since.
pub open spec fn is_on(events: Seq<EventView>, n: int, one: Around, other: Around) -> bool
    decreases n,
{
    if n <= 0 {
        false
    } else if in_code_block(events, n - 1) {
        is_on(events, n - 1, one, other)
    } else if starts(events[n - 1], one) || starts(events[n - 1], other) {
        true
    } else if ends(events[n - 1], one) || ends(events[n - 1], other) {
        false
    } else {
        is_on(events, n - 1, one, other)
    }
}

/// The lists that are open after the first `n` events, the innermost last: the number of the
/// next item of each that is numbered.
pub open spec fn open_lists(events: Seq<EventView>, n: int) -> Seq<Option<int>>
    decreases n,
{
    if n <= 0 {
        Seq::empty()
    } else {
        let before = open_lists(events, n - 1);
        if in_code_block(events, n - 1) {
            before
        } else {
            match events[n - 1] {
                MdEvent::Start(MdTag::List(None)) => before.push(None),
                MdEvent::Start(MdTag::List(Some(first))) => before.push(Some(first as int)),
                MdEvent::Start(MdTag::Item) if before.len() > 0 => before.drop_last().push(
                    match before.last() {
                        Some(number) => Some(number + 1),
                        None => None,
                    },
                ),
                MdEvent::End(TagEnd::List(_)) if before.len() > 0 => before.drop_last(),
                _ => before,
            }
        }
    }
}

/// What an item starts with: its number, or a bullet, which is another in every other list.
pub open spec fn item_marker(lists: Seq<Option<int>>) -> Seq<char> {
    if lists.len() == 0 {
        "\u{25e6} "@
    } else {
        match lists.last() {
            Some(number) => crate::text::decimal(number as nat) + ". "@,
            None => if lists.len() % 2 == 1 {
                "\u{2022} "@
            } else {
                "\u{25e6} "@
            },
        }
    }
}

/// Which of the six levels a heading has.
pub open spec fn rank(level: HeadingLevel) -> int {
    match level {
        HeadingLevel::H1 => 1,
        HeadingLevel::H2 => 2,
        HeadingLevel::H3 => 3,
        HeadingLevel::H4 => 4,
        HeadingLevel::H5 => 5,
        HeadingLevel::H6 => 6,
    }
}

/// What an event of a line says: the text of text and code, a space for a break in the source,
/// and a line break for one that was asked for.
pub open spec fn words(event: EventView) -> Seq<char> {
    match event {
        MdEvent::Text(text) => text,
        MdEvent::Code(text) => text,
        MdEvent::SoftBreak => " "@,
        MdEvent::HardBreak => "\n"@,
        _ => Seq::empty(),
    }
}

/// What the events from `a` up to `b` say, one after the other.
pub open spec fn said(events: Seq<EventView>, a: int, b: int) -> Seq<char>
    decreases b - a,
{
    if a >= b {
        Seq::empty()
    } else {
        said(events, a, b - 1) + words(events[b - 1])
    }
}

/// Whether an event is part of a line of text, code and breaks, with what is emphasised, struck
/// out and linked in it.
pub open spec fn is_in_line(event: EventView) -> bool {
    match event {
        MdEvent::Text(_) | MdEvent::Code(_) | MdEvent::SoftBreak | MdEvent::HardBreak => true,
        MdEvent::Start(tag) => tag is Emphasis || tag is Strong || tag is Strikethrough
            || tag is Superscript || tag is Subscript || tag is Link,
        MdEvent::End(tag) => tag is Emphasis || tag is Strong || tag is Strikethrough
            || tag is Superscript || tag is Subscript || tag is Link,
        _ => false,
    }
}

/// Events of a line neither start nor end a code block or an image.
pub proof fn lines_stay_outside(events: Seq<EventView>, a: int, b: int)
    requires
        0 <= a <= b <= events.len(),
        forall|k: int| a <= k < b ==> is_in_line(#[trigger] events[k]),
    ensures
        in_code_block(events, b) == in_code_block(events, a),
        open_around(events, b, Around::Image) == open_around(events, a, Around::Image),
    decreases b - a,
{
    if a < b {
        lines_stay_outside(events, a, b - 1);
        assert(is_in_line(events[b - 1]));
    }
}

/// The numbers of open lists.
pub open spec fn numbers_of(lists: Seq<Option<u128>>) -> Seq<Option<int>> {
    lists.map_values(
        |next: Option<u128>|
            match next {
                Some(number) => Some(number as int),
                None => None,
            },
    )
}

/// Whether no open list has come to a number past `u64::MAX` and `n` more.
pub open spec fn numbers_fit(lists: Seq<Option<u128>>, n: int) -> bool {
    forall|i: int|
        0 <= i < lists.len() && #[trigger] lists[i] is Some ==> lists[i]->0 <= u64::MAX + n
}

/// A list that starts or ends, and an item that is numbered.
pub proof fn lists_are_followed(lists: Seq<Option<u128>>, first: Option<u64>, n: int)
    requires
        numbers_fit(lists, n),
        0 <= n < u64::MAX,
    ensures
        ({
            let next = match first {
                Some(first) => Some(first as u128),
                None => None,
            };
            let started = match first {
                Some(first) => Some(first as int),
                None => None,
            };
            &&& numbers_of(lists.push(next)) == numbers_of(lists).push(started)
            &&& numbers_fit(lists.push(next), n + 1)
        }),
        numbers_fit(lists, n + 1),
        numbers_fit(crate::rewrite::without_last(lists), n + 1),
        numbers_of(crate::rewrite::without_last(lists)) == if lists.len() > 0 {
            numbers_of(lists).drop_last()
        } else {
            numbers_of(lists)
        },
        numbers_fit(crate::preview::lists_after_item(lists), n + 1),
        numbers_of(crate::preview::lists_after_item(lists)) == if lists.len() > 0 {
            numbers_of(lists).drop_last().push(
                match numbers_of(lists).last() {
                    Some(number) => Some(number + 1),
                    None => None,
                },
            )
        } else {
            numbers_of(lists)
        },
        crate::preview::marker_of(lists) == item_marker(numbers_of(lists)),
{
    let next = match first {
        Some(first) => Some(first as u128),
        None => None,
    };
    let started = match first {
        Some(first) => Some(first as int),
        None => None,
    };
    assert(numbers_of(lists.push(next)) =~= numbers_of(lists).push(started));
    if lists.len() > 0 {
        assert(numbers_of(lists.drop_last()) =~= numbers_of(lists).drop_last());
        let after = crate::preview::lists_after_item(lists);
        assert(numbers_of(lists).last() == match lists.last() {
            Some(number) => Some(number as int),
            None => None,
        });
        assert(numbers_of(after) =~= numbers_of(lists).drop_last().push(
            match numbers_of(lists).last() {
                Some(number) => Some(number + 1),
                None => None,
            },
        ));
    }
}

}
