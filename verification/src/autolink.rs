//! Web addresses written out in the text, which are links.

use crate::event::{copy_event, views, DocEvent, EventView, MdEvent, MdTag};
use crate::text::{chars_of, has_at, is_white, stands_at, starts_with, text_of};
use pulldown_cmark::{LinkType, TagEnd};
use vstd::prelude::*;
use vstd::string::*;

verus! {

/// How long the start of the address at `at` is, or 0 if none starts there.
pub open spec fn opening(text: Seq<char>, at: int) -> int {
    if stands_at(text, at, "https://"@) {
        8
    } else if stands_at(text, at, "http://"@) {
        7
    } else if stands_at(text, at, "www."@) {
        4
    } else {
        0
    }
}

/// Whether an address may start at `at`: at the start of the text, or after white space or what
/// opens emphasis or brackets.
pub open spec fn may_start(text: Seq<char>, at: int) -> bool {
    at == 0 || is_white(text[at - 1]) || text[at - 1] == '*' || text[at - 1] == '_' || text[at - 1]
        == '~' || text[at - 1] == '('
}

/// Where the stretch from `at` ends that has no white space and no `<`.
pub open spec fn stretch_end(text: Seq<char>, at: int) -> int
    decreases text.len() - at,
{
    if 0 <= at < text.len() && !is_white(text[at]) && text[at] != '<' {
        stretch_end(text, at + 1)
    } else {
        at
    }
}

/// How often `c` stands in the text from `at` up to `end`.
pub open spec fn count_of(text: Seq<char>, at: int, end: int, c: char) -> int
    decreases end - at,
{
    if at >= end {
        0
    } else {
        count_of(text, at, end - 1, c) + if text[end - 1] == c {
            1int
        } else {
            0int
        }
    }
}

/// Whether a character that ends an address is punctuation of the sentence around it.
pub open spec fn is_trailing(c: char) -> bool {
    c == '?' || c == '!' || c == '.' || c == ',' || c == ':' || c == ';' || c == '*' || c == '_'
        || c == '~' || c == '\'' || c == '"'
}

/// Where the address from `at` ends, if it ends at `end` at the latest: without the punctuation
/// of the sentence around it, and without a closing bracket that it does not open.
pub open spec fn address_end(text: Seq<char>, at: int, end: int) -> int
    decreases end - at,
{
    if at < end && (is_trailing(text[end - 1]) || (text[end - 1] == ')' && count_of(
        text,
        at,
        end,
        ')',
    ) > count_of(text, at, end, '('))) {
        address_end(text, at, end - 1)
    } else {
        end
    }
}

/// Where the address at `at` ends; `at` if none starts there.
pub open spec fn address_at(text: Seq<char>, at: int) -> int {
    let end = address_end(text, at, stretch_end(text, at));
    if opening(text, at) > 0 && may_start(text, at) && end > at + opening(text, at) {
        end
    } else {
        at
    }
}

/// Where an address written out leads to.
pub open spec fn address_of(text: Seq<char>) -> Seq<char> {
    if starts_with(text, "www."@) {
        "http://"@ + text
    } else {
        text
    }
}

/// A stretch of text.
pub open spec fn text_piece(text: Seq<char>) -> Seq<EventView> {
    if text.len() == 0 {
        Seq::empty()
    } else {
        seq![MdEvent::Text(text)]
    }
}

/// An address written out as a link.
pub open spec fn link_piece(text: Seq<char>) -> Seq<EventView> {
    seq![
        MdEvent::Start(
            MdTag::Link {
                link_type: LinkType::Autolink,
                dest_url: address_of(text),
                title: Seq::empty(),
                id: Seq::empty(),
            },
        ),
        MdEvent::Text(text),
        MdEvent::End(TagEnd::Link),
    ]
}

/// A stretch ends after it starts.
proof fn stretch_ends(text: Seq<char>, at: int)
    requires
        0 <= at <= text.len(),
    ensures
        at <= stretch_end(text, at) <= text.len(),
    decreases text.len() - at,
{
    if at < text.len() && !is_white(text[at]) && text[at] != '<' {
        stretch_ends(text, at + 1);
    }
}

/// An address ends no later than it may.
proof fn address_ends(text: Seq<char>, at: int, end: int)
    requires
        0 <= at <= end <= text.len(),
    ensures
        at <= address_end(text, at, end) <= end,
    decreases end - at,
{
    if at < end && (is_trailing(text[end - 1]) || (text[end - 1] == ')' && count_of(
        text,
        at,
        end,
        ')',
    ) > count_of(text, at, end, '('))) {
        address_ends(text, at, end - 1);
    }
}

/// An address ends inside the text.
pub proof fn address_fits(text: Seq<char>, at: int)
    requires
        0 <= at <= text.len(),
    ensures
        at <= address_at(text, at) <= text.len(),
{
    stretch_ends(text, at);
    address_ends(text, at, stretch_end(text, at));
}

/// Text read from `at` on, of which what stands before `from` is done, with its addresses as
/// links.
pub open spec fn linked(text: Seq<char>, at: int, from: int) -> Seq<EventView>
    decreases text.len() - at,
{
    if at < 0 || at >= text.len() {
        text_piece(text.skip(from))
    } else {
        let end = address_at(text, at);
        proof {
            address_fits(text, at);
        }
        if end > at {
            text_piece(text.subrange(from, at)) + link_piece(text.subrange(at, end)) + linked(
                text,
                end,
                end,
            )
        } else {
            linked(text, at + 1, from)
        }
    }
}

/// How many links, images and code blocks are open after an event, in which text is left as it
/// is.
pub open spec fn open_after(open: int, event: EventView) -> int {
    match event {
        MdEvent::Start(MdTag::Link { .. }) => open + 1,
        MdEvent::Start(MdTag::Image { .. }) => open + 1,
        MdEvent::Start(MdTag::CodeBlock(_)) => open + 1,
        MdEvent::End(TagEnd::Link) | MdEvent::End(TagEnd::Image) | MdEvent::End(
            TagEnd::CodeBlock,
        ) => if open > 0 {
            open - 1
        } else {
            0
        },
        _ => open,
    }
}

/// The first `n` events with the addresses in their text as links, and how many links, images
/// and code blocks are open.
pub open spec fn autolinked(events: Seq<EventView>, n: int) -> (Seq<EventView>, int)
    decreases n,
{
    if n <= 0 {
        (Seq::empty(), 0)
    } else {
        let (before, open) = autolinked(events, n - 1);
        let event = events[n - 1];
        (
            match event {
                MdEvent::Text(text) if open == 0 => before + linked(text, 0, 0),
                _ => before.push(event),
            },
            open_after(open, event),
        )
    }
}

/// The text of events.
pub open spec fn text_in(events: Seq<EventView>) -> Seq<char>
    decreases events.len(),
{
    if events.len() == 0 {
        Seq::empty()
    } else {
        text_in(events.drop_last()) + match events.last() {
            MdEvent::Text(text) => text,
            _ => Seq::empty(),
        }
    }
}

/// The text of events one after the other.
proof fn text_in_both(a: Seq<EventView>, b: Seq<EventView>)
    ensures
        text_in(a + b) == text_in(a) + text_in(b),
    decreases b.len(),
{
    if b.len() == 0 {
        assert(a + b =~= a);
        assert(text_in(a) + text_in(b) =~= text_in(a));
    } else {
        text_in_both(a, b.drop_last());
        assert((a + b).drop_last() =~= a + b.drop_last());
        let last = match b.last() {
            MdEvent::Text(text) => text,
            _ => Seq::empty(),
        };
        assert(text_in(a) + (text_in(b.drop_last()) + last) =~= text_in(a) + text_in(b.drop_last())
            + last);
    }
}

/// The text of a stretch of text is that stretch.
proof fn text_in_piece(text: Seq<char>)
    ensures
        text_in(text_piece(text)) == text,
{
    let piece = text_piece(text);
    if text.len() > 0 {
        assert(piece.drop_last() =~= Seq::<EventView>::empty());
        assert(text_in(piece.drop_last()) =~= Seq::<char>::empty());
        assert(Seq::<char>::empty() + text =~= text);
    } else {
        assert(text =~= Seq::<char>::empty());
    }
}

/// The text of a link is the address as it was written.
proof fn text_in_link(text: Seq<char>)
    ensures
        text_in(link_piece(text)) == text,
{
    let piece = link_piece(text);
    let two = piece.drop_last();
    let one = two.drop_last();
    assert(one.drop_last() =~= Seq::<EventView>::empty());
    assert(text_in(one.drop_last()) =~= Seq::<char>::empty());
    assert(text_in(one) =~= Seq::<char>::empty());
    assert(two.last() == MdEvent::<Seq<char>, Seq<pulldown_cmark::Alignment>>::Text(text));
    assert(text_in(two) =~= text);
    assert(text_in(piece) =~= text);
}

/// Whether every link that starts among events leads to a web address.
pub open spec fn leads_to_the_web(events: Seq<EventView>) -> bool {
    forall|i: int|
        0 <= i < events.len() ==> match #[trigger] events[i] {
            MdEvent::Start(MdTag::Link { dest_url, .. }) => starts_with(dest_url, "http://"@)
                || starts_with(dest_url, "https://"@),
            _ => true,
        }
}

/// Taking the addresses in a text as links keeps the text as it is, and every link leads to the
/// web.
pub proof fn addresses_keep_the_text(text: Seq<char>, at: int, from: int)
    requires
        0 <= from <= at <= text.len(),
    ensures
        text_in(linked(text, at, from)) == text.skip(from),
        leads_to_the_web(linked(text, at, from)),
    decreases text.len() - at,
{
    if at >= text.len() {
        text_in_piece(text.skip(from));
    } else {
        address_fits(text, at);
        let end = address_at(text, at);
        if end > at {
            let before = text_piece(text.subrange(from, at));
            let link = link_piece(text.subrange(at, end));
            let rest = linked(text, end, end);
            addresses_keep_the_text(text, end, end);
            text_in_piece(text.subrange(from, at));
            text_in_link(text.subrange(at, end));
            text_in_both(before + link, rest);
            text_in_both(before, link);
            assert(text.subrange(from, at) + text.subrange(at, end) + text.skip(end)
                =~= text.skip(from));
            link_leads_to_the_web(text, at);
            let whole = before + link + rest;
            assert forall|i: int| 0 <= i < whole.len() implies match #[trigger] whole[i] {
                MdEvent::Start(MdTag::Link { dest_url, .. }) => starts_with(dest_url, "http://"@)
                    || starts_with(dest_url, "https://"@),
                _ => true,
            } by {
                if i >= before.len() + link.len() {
                    assert(whole[i] == rest[i - before.len() - link.len()]);
                } else if i >= before.len() {
                    assert(whole[i] == link[i - before.len()]);
                } else {
                    assert(whole[i] == before[i]);
                }
            }
        } else {
            addresses_keep_the_text(text, at + 1, from);
        }
    }
}

/// A link made of an address leads to the web.
proof fn link_leads_to_the_web(text: Seq<char>, at: int)
    requires
        0 <= at < text.len(),
        address_at(text, at) > at,
    ensures
        leads_to_the_web(link_piece(text.subrange(at, address_at(text, at)))),
{
    reveal_strlit("https://");
    reveal_strlit("http://");
    reveal_strlit("www.");
    address_fits(text, at);
    let end = address_at(text, at);
    let address = text.subrange(at, end);
    let n = opening(text, at);
    assert(address.subrange(0, n) =~= text.subrange(at, at + n));
    if starts_with(address, "www."@) {
        assert(address_of(address).subrange(0, 7) =~= "http://"@);
        assert(starts_with(address_of(address), "http://"@));
    } else if n == 8 {
        assert(starts_with(address, "https://"@));
    } else if n == 7 {
        assert(starts_with(address, "http://"@));
    } else {
        assert(starts_with(address, "www."@));
    }
}

/// Add a stretch of text.
fn push_text_piece(events: &mut Vec<DocEvent>, text: &Vec<char>, start: usize, end: usize)
    requires
        start <= end <= text@.len(),
    ensures
        views(final(events)@) == views(old(events)@) + text_piece(
            text@.subrange(start as int, end as int),
        ),
{
    let ghost before = events@;
    if start < end {
        let event: DocEvent = MdEvent::Text(text_of(text, start, end));
        proof {
            assert(views(before.push(event)) =~= views(before) + text_piece(
                text@.subrange(start as int, end as int),
            ));
        }
        events.push(event);
    } else {
        proof {
            assert(views(before) + Seq::<EventView>::empty() =~= views(before));
        }
    }
}

/// Add an address written out as a link.
fn push_link_piece(events: &mut Vec<DocEvent>, text: &Vec<char>, start: usize, end: usize)
    requires
        start <= end <= text@.len(),
    ensures
        views(final(events)@) == views(old(events)@) + link_piece(
            text@.subrange(start as int, end as int),
        ),
{
    let ghost before = events@;
    let address = text_of(text, start, end);
    let dest_url = if crate::text::begins(address.as_str(), "www.") {
        let mut url = String::from_str("http://");
        url.append(address.as_str());
        url
    } else {
        address.clone()
    };
    let first: DocEvent = MdEvent::Start(
        MdTag::Link {
            link_type: LinkType::Autolink,
            dest_url,
            title: String::new(),
            id: String::new(),
        },
    );
    let second: DocEvent = MdEvent::Text(address);
    let third: DocEvent = MdEvent::End(TagEnd::Link);
    let ghost added = seq![first, second, third];
    events.push(first);
    events.push(second);
    events.push(third);
    proof {
        assert(views(added) =~= link_piece(text@.subrange(start as int, end as int)));
        assert(events@ =~= before + added);
        assert(views(before + added) =~= views(before) + views(added));
    }
}

/// How long the start of the address at `at` is, or 0 if none starts there.
fn find_opening(text: &Vec<char>, at: usize) -> (length: usize)
    requires
        at <= text@.len(),
    ensures
        length == opening(text@, at as int),
        length > 0 ==> at + length <= text@.len(),
{
    proof {
        reveal_strlit("https://");
        reveal_strlit("http://");
        reveal_strlit("www.");
    }
    if has_at(text, at, &chars_of("https://")) {
        8
    } else if has_at(text, at, &chars_of("http://")) {
        7
    } else if has_at(text, at, &chars_of("www.")) {
        4
    } else {
        0
    }
}

/// How often `c` stands in the text from `at` up to `end`.
fn count_char(text: &Vec<char>, at: usize, end: usize, c: char) -> (count: usize)
    requires
        at <= end <= text@.len(),
    ensures
        count == count_of(text@, at as int, end as int, c),
        count <= end - at,
{
    let mut count: usize = 0;
    for i in at..end
        invariant
            at <= end <= text@.len(),
            count == count_of(text@, at as int, i as int, c),
            count <= i - at,
    {
        if text[i] == c {
            count = count + 1;
        }
    }
    count
}

/// Where the address at `at` ends; `at` if none starts there.
fn find_address(text: &Vec<char>, at: usize) -> (end: usize)
    requires
        at < text@.len(),
    ensures
        end == address_at(text@, at as int),
        at <= end <= text@.len(),
{
    proof {
        address_fits(text@, at as int);
    }
    let length = find_opening(text, at);
    if length == 0 {
        return at;
    }
    if at > 0 {
        let before = text[at - 1];
        if !(before.is_whitespace() || before == '*' || before == '_' || before == '~' || before
            == '(') {
            return at;
        }
    }
    let mut end: usize = at;
    while end < text.len() && !text[end].is_whitespace() && text[end] != '<'
        invariant
            at <= end <= text@.len(),
            stretch_end(text@, at as int) == stretch_end(text@, end as int),
        decreases text.len() - end,
    {
        end = end + 1;
    }
    let ghost last = end as int;
    while at < end && trails(text, at, end)
        invariant
            at <= end <= text@.len(),
            address_end(text@, at as int, last) == address_end(text@, at as int, end as int),
        decreases end,
    {
        end = end - 1;
    }
    if end - at > length {
        end
    } else {
        at
    }
}

/// Whether the character before `end` is not part of an address that starts at `at`.
fn trails(text: &Vec<char>, at: usize, end: usize) -> (found: bool)
    requires
        at < end <= text@.len(),
    ensures
        found == (is_trailing(text@[end - 1]) || (text@[end - 1] == ')' && count_of(
            text@,
            at as int,
            end as int,
            ')',
        ) > count_of(text@, at as int, end as int, '('))),
{
    let c = text[end - 1];
    if c == '?' || c == '!' || c == '.' || c == ',' || c == ':' || c == ';' || c == '*' || c == '_'
        || c == '~' || c == '\'' || c == '"' {
        return true;
    }
    c == ')' && count_char(text, at, end, ')') > count_char(text, at, end, '(')
}

/// Add a text with its addresses as links.
fn push_linked(events: &mut Vec<DocEvent>, text: &str)
    ensures
        views(final(events)@) == views(old(events)@) + linked(text@, 0, 0),
{
    let chars = chars_of(text);
    let ghost given = views(events@);
    let mut at: usize = 0;
    let mut from: usize = 0;
    while at < chars.len()
        invariant
            from <= at <= chars@.len(),
            chars@ == text@,
            views(events@) + linked(chars@, at as int, from as int) == given + linked(
                chars@,
                0,
                0,
            ),
        decreases chars.len() - at,
    {
        let ghost before = views(events@);
        let end = find_address(&chars, at);
        if end > at {
            push_text_piece(events, &chars, from, at);
            push_link_piece(events, &chars, at, end);
            proof {
                let piece = text_piece(chars@.subrange(from as int, at as int));
                let link = link_piece(chars@.subrange(at as int, end as int));
                let rest = linked(chars@, end as int, end as int);
                assert(before + (piece + link + rest) =~= before + piece + link + rest);
            }
            at = end;
            from = end;
        } else {
            at = at + 1;
        }
    }
    proof {
        assert(chars@.subrange(from as int, chars@.len() as int) =~= chars@.skip(from as int));
    }
    push_text_piece(events, &chars, from, chars.len());
}

/// The events of a document with the addresses written out in its text as links.
pub fn autolink(events: &Vec<DocEvent>) -> (list: Vec<DocEvent>)
    ensures
        views(list@) == autolinked(views(events@), events@.len() as int).0,
{
    let mut list: Vec<DocEvent> = Vec::new();
    let mut open: usize = 0;
    let ghost all = views(events@);
    proof {
        assert(views(list@) =~= autolinked(all, 0).0);
    }
    for i in 0..events.len()
        invariant
            all == views(events@),
            views(list@) == autolinked(all, i as int).0,
            open == autolinked(all, i as int).1,
            open <= i,
    {
        let ghost before = list@;
        proof {
            assert(all[i as int] == events@[i as int]@);
        }
        let mut plain = true;
        if open == 0 {
            if let MdEvent::Text(text) = &events[i] {
                push_linked(&mut list, text.as_str());
                plain = false;
            }
        }
        if plain {
            let copy = copy_event(&events[i]);
            proof {
                assert(views(before.push(copy)) =~= views(before).push(copy@));
            }
            list.push(copy);
        }
        match &events[i] {
            MdEvent::Start(MdTag::Link { .. }) => {
                open = open + 1;
            },
            MdEvent::Start(MdTag::Image { .. }) => {
                open = open + 1;
            },
            MdEvent::Start(MdTag::CodeBlock(_)) => {
                open = open + 1;
            },
            MdEvent::End(TagEnd::Link) | MdEvent::End(TagEnd::Image) | MdEvent::End(
                TagEnd::CodeBlock,
            ) => {
                if open > 0 {
                    open = open - 1;
                }
            },
            _ => {},
        }
    }
    list
}

}
