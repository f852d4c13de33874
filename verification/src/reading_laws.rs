//! What reading a document the way GitHub does keeps of it.

use crate::around::{is_in_line, said, words};
use crate::autolink::text_in;
use crate::event::{EventView, MdEvent, MdTag};
use crate::github::{
    all_read_as, heading_text, is_alnum, joined_text, named, read_as, slug, slug_char,
    with_images,
};
use crate::labels::times;
use crate::page::joined_html;
use crate::text::{decimal, lowercase, spread_push};
use pulldown_cmark::{BlockQuoteKind, TagEnd};
use vstd::prelude::*;

verus! {

/// One more event among events.
proof fn filters_push(events: Seq<EventView>, event: EventView, kind: spec_fn(EventView) -> bool)
    ensures
        events.push(event).filter(kind) == if kind(event) {
            events.filter(kind).push(event)
        } else {
            events.filter(kind)
        },
{
    reveal(Seq::filter);
    assert(events.push(event).drop_last() =~= events);
}

/// The events of one kind among events one after the other.
proof fn filters_add(a: Seq<EventView>, b: Seq<EventView>, kind: spec_fn(EventView) -> bool)
    ensures
        (a + b).filter(kind) == a.filter(kind) + b.filter(kind),
    decreases b.len(),
{
    if b.len() == 0 {
        reveal(Seq::filter);
        assert(a + b =~= a);
        assert(a.filter(kind) + b.filter(kind) =~= a.filter(kind));
    } else {
        filters_add(a, b.drop_last(), kind);
        assert(a + b =~= (a + b.drop_last()).push(b.last()));
        filters_push(a + b.drop_last(), b.last(), kind);
        assert(b =~= b.drop_last().push(b.last()));
        filters_push(b.drop_last(), b.last(), kind);
        assert((a + b).filter(kind) =~= a.filter(kind) + b.filter(kind));
    }
}

/// The text of one more event.
proof fn text_push(events: Seq<EventView>, event: EventView)
    ensures
        text_in(events.push(event)) == text_in(events) + match event {
            MdEvent::Text(text) => text,
            _ => Seq::empty(),
        },
{
    assert(events.push(event).drop_last() =~= events);
}

/// Text that comes in pieces is put together: nothing of it is lost or changed, every other event
/// stays where it is, and no two pieces are left side by side.
pub proof fn pieces_of_text_are_put_together(events: Seq<EventView>)
    ensures
        text_in(joined_text(events)) == text_in(events),
        joined_text(events).filter(|event: EventView| !(event is Text)) == events.filter(
            |event: EventView| !(event is Text),
        ),
        forall|i: int|
            0 < i < joined_text(events).len() && (#[trigger] joined_text(events)[i]) is Text
                ==> !(joined_text(events)[i - 1] is Text),
    decreases events.len(),
{
    let other = |event: EventView| !(event is Text);
    if events.len() > 0 {
        let last = events.last();
        let before = joined_text(events.drop_last());
        pieces_of_text_are_put_together(events.drop_last());
        assert(events =~= events.drop_last().push(last));
        filters_push(events.drop_last(), last, other);
        text_push(events.drop_last(), last);
        filters_push(before, last, other);
        text_push(before, last);
        if before.len() > 0 && before.last() is Text && last is Text {
            let start = before.last();
            let rest = before.drop_last();
            assert(before =~= rest.push(start));
            filters_push(rest, start, other);
            text_push(rest, start);
            let whole = EventView::Text(start->Text_0 + last->Text_0);
            filters_push(rest, whole, other);
            text_push(rest, whole);
            assert(text_in(rest) + (start->Text_0 + last->Text_0) =~= text_in(rest)
                + start->Text_0 + last->Text_0);
        }
    }
}

/// The raw HTML in blocks among events.
pub open spec fn html_in(events: Seq<EventView>) -> Seq<char>
    decreases events.len(),
{
    if events.len() == 0 {
        Seq::empty()
    } else {
        html_in(events.drop_last()) + match events.last() {
            MdEvent::Html(html) => html,
            _ => Seq::empty(),
        }
    }
}

/// The raw HTML of one more event.
proof fn html_push(events: Seq<EventView>, event: EventView)
    ensures
        html_in(events.push(event)) == html_in(events) + match event {
            MdEvent::Html(html) => html,
            _ => Seq::empty(),
        },
{
    assert(events.push(event).drop_last() =~= events);
}

/// Raw HTML that comes in pieces is put together: nothing of it is lost or changed, every other
/// event stays where it is, and no two pieces are left side by side.
pub proof fn pieces_of_html_are_put_together(events: Seq<EventView>)
    ensures
        html_in(joined_html(events)) == html_in(events),
        joined_html(events).filter(|event: EventView| !(event is Html)) == events.filter(
            |event: EventView| !(event is Html),
        ),
        forall|i: int|
            0 < i < joined_html(events).len() && (#[trigger] joined_html(events)[i]) is Html
                ==> !(joined_html(events)[i - 1] is Html),
    decreases events.len(),
{
    let other = |event: EventView| !(event is Html);
    if events.len() > 0 {
        let last = events.last();
        let before = joined_html(events.drop_last());
        pieces_of_html_are_put_together(events.drop_last());
        assert(events =~= events.drop_last().push(last));
        filters_push(events.drop_last(), last, other);
        html_push(events.drop_last(), last);
        filters_push(before, last, other);
        html_push(before, last);
        if before.len() > 0 && before.last() is Html && last is Html {
            let start = before.last();
            let rest = before.drop_last();
            assert(before =~= rest.push(start));
            filters_push(rest, start, other);
            html_push(rest, start);
            let whole = EventView::Html(start->Html_0 + last->Html_0);
            filters_push(rest, whole, other);
            html_push(rest, whole);
            assert(html_in(rest) + (start->Html_0 + last->Html_0) =~= html_in(rest)
                + start->Html_0 + last->Html_0);
        }
    }
}

/// The name of a heading is its letters, digits, hyphens and underscores, in order, with a hyphen
/// for every space.
pub proof fn names_are_made_of_letters(text: Seq<char>)
    ensures
        slug(text) == text.filter(
            |c: char| is_alnum(c) || c == '-' || c == '_' || c == ' ',
        ).map_values(
            |c: char|
                if c == ' ' {
                    '-'
                } else {
                    c
                },
        ),
    decreases text.len(),
{
    reveal(Seq::filter);
    let keep = |c: char| is_alnum(c) || c == '-' || c == '_' || c == ' ';
    let write = |c: char|
        if c == ' ' {
            '-'
        } else {
            c
        };
    if text.len() == 0 {
        assert(slug(text) =~= text.filter(keep).map_values(write));
    } else {
        let last = text.last();
        names_are_made_of_letters(text.drop_last());
        assert(text =~= text.drop_last().push(last));
        spread_push(text.drop_last(), last, |c: char| slug_char(c));
        assert(slug(text) =~= text.filter(keep).map_values(write));
    }
}

/// The name of a heading without one of its own, that event `n` starts.
pub open spec fn name_at(events: Seq<EventView>, n: int) -> Seq<char> {
    slug(lowercase(heading_text(events, n + 1)))
}

/// How many of the first `n` events start a heading without a name of its own that has the name
/// `name`.
pub open spec fn named_before(events: Seq<EventView>, n: int, name: Seq<char>) -> nat
    decreases n,
{
    if n <= 0 {
        0
    } else {
        named_before(events, n - 1, name) + match events[n - 1] {
            MdEvent::Start(MdTag::Heading { id: None, .. }) if name_at(events, n - 1) == name =>
            1nat,
            _ => 0,
        }
    }
}

/// The names so far are counted.
proof fn names_are_counted(events: Seq<EventView>, n: int, name: Seq<char>)
    requires
        0 <= n <= events.len(),
    ensures
        times(named(events, n).1, name) == named_before(events, n, name),
        named(events, n).0.len() == n,
    decreases n,
{
    if n > 0 {
        names_are_counted(events, n - 1, name);
        let used = named(events, n - 1).1;
        let next = named(events, n).1;
        if next != used {
            assert(next.drop_last() =~= used);
        }
    }
}

/// Events stay as they are as more headings are named.
proof fn names_stay(events: Seq<EventView>, a: int, b: int)
    requires
        0 <= a <= b <= events.len(),
    ensures
        named(events, a).0.is_prefix_of(named(events, b).0),
    decreases b - a,
{
    if a < b {
        names_stay(events, a, b - 1);
        let first = named(events, a).0;
        let before = named(events, b - 1).0;
        let last = named(events, b).0;
        assert(last.drop_last() =~= before);
        assert(last.take(first.len() as int) =~= before.take(first.len() as int));
    }
}

/// A heading without a name of its own gets that of its text: as it is if no heading before has
/// it, and with how many do otherwise; there is none for a heading without letters. Every other
/// event stays as it is.
pub proof fn headings_are_named_by_their_text(events: Seq<EventView>, n: int)
    requires
        0 <= n < events.len(),
    ensures
        named(events, events.len() as int).0.len() == events.len(),
        named(events, events.len() as int).0[n] == match events[n] {
            MdEvent::Start(MdTag::Heading { level, id: None }) => {
                let name = name_at(events, n);
                let count = named_before(events, n, name);
                EventView::Start(
                    MdTag::Heading {
                        level,
                        id: if name.len() == 0 {
                            None
                        } else if count == 0 {
                            Some(name)
                        } else {
                            Some(name + "-"@ + decimal(count))
                        },
                    },
                )
            },
            event => event,
        },
{
    let all = events.len() as int;
    match events[n] {
        MdEvent::Start(MdTag::Heading { id: None, .. }) => {
            names_are_counted(events, n, name_at(events, n));
        },
        _ => {},
    }
    names_are_counted(events, n, Seq::empty());
    names_are_counted(events, n + 1, Seq::empty());
    names_are_counted(events, all, Seq::empty());
    names_stay(events, n + 1, all);
    let part = named(events, n + 1).0;
    assert(part[n] == named(events, all).0[n]);
}

/// Whether an event is neither text nor a tag nor raw HTML.
pub open spec fn is_single(event: EventView) -> bool {
    !(event is Text || event is Start || event is End || event is Html || event is InlineHtml)
}

/// Raw HTML holds no event that is neither text nor a tag nor raw HTML.
proof fn images_hold_no_single(chunk: Seq<char>, block: bool, at: int, from: int)
    ensures
        with_images(chunk, block, at, from).filter(|event: EventView| is_single(event))
            == Seq::<EventView>::empty(),
    decreases chunk.len() - at,
{
    let single = |event: EventView| is_single(event);
    reveal(Seq::filter);
    let all = with_images(chunk, block, at, from);
    reveal_strlit("<");
    reveal_strlit(">");
    reveal_strlit("-->");
    none_single(crate::github::html_piece(chunk.skip(from), block));
    if 0 <= at <= chunk.len() {
        crate::text::found_first(chunk, at, "<"@);
        if let Some(start) = crate::text::find_at(chunk, at, "<"@) {
            crate::text::found_first(chunk, start, "-->"@);
            crate::text::found_first(chunk, start, ">"@);
            if crate::text::stands_at(chunk, start, "<!--"@) {
                if let Some(end) = crate::text::find_at(chunk, start, "-->"@) {
                    images_hold_no_single(chunk, block, end + 3, from);
                }
            } else if let Some(end) = crate::text::find_at(chunk, start, ">"@) {
                let tag = chunk.subrange(start + 1, end);
                let name = crate::html::tag_name(tag);
                crate::html::element_ends(chunk, end + 1, name);
                if crate::html::is_hidden(tag) {
                    if let Some(after) = crate::html::element_end(chunk, end + 1, name) {
                        images_hold_no_single(chunk, block, after, from);
                    }
                } else {
                    match crate::github::image_of(tag) {
                        Some(image) => {
                            let piece = crate::github::html_piece(
                                chunk.subrange(from, start),
                                block,
                            );
                            let shown = crate::github::image_events(image);
                            let rest = with_images(chunk, block, end + 1, end + 1);
                            images_hold_no_single(chunk, block, end + 1, end + 1);
                            none_single(piece);
                            none_single(shown);
                            filters_add(piece + shown, rest, single);
                            filters_add(piece, shown, single);
                            assert(all.filter(single) =~= Seq::<EventView>::empty());
                        },
                        None => images_hold_no_single(chunk, block, end + 1, from),
                    }
                }
            }
        }
    }
}

/// Events none of which is single.
proof fn none_single(events: Seq<EventView>)
    requires
        forall|i: int| 0 <= i < events.len() ==> !is_single(#[trigger] events[i]),
    ensures
        events.filter(|event: EventView| is_single(event)) == Seq::<EventView>::empty(),
    decreases events.len(),
{
    reveal(Seq::filter);
    if events.len() > 0 {
        assert(!is_single(events[events.len() - 1]));
        assert forall|i: int| 0 <= i < events.drop_last().len() implies !is_single(
            #[trigger] events.drop_last()[i],
        ) by {
            assert(!is_single(events[i]));
        }
        none_single(events.drop_last());
    }
}

/// Code, math, references, breaks, rules and ticks stay as they are, in order: none of them is
/// lost, added or changed by the way a document is read.
pub proof fn reading_keeps_what_is_not_text(events: Seq<EventView>)
    ensures
        all_read_as(events).filter(|event: EventView| is_single(event)) == events.filter(
            |event: EventView| is_single(event),
        ),
    decreases events.len(),
{
    let single = |event: EventView| is_single(event);
    if events.len() > 0 {
        let last = events.last();
        reading_keeps_what_is_not_text(events.drop_last());
        assert(events =~= events.drop_last().push(last));
        filters_push(events.drop_last(), last, single);
        filters_add(all_read_as(events.drop_last()), read_as(last), single);
        match last {
            MdEvent::Html(html) => images_hold_no_single(html, true, 0, 0),
            MdEvent::InlineHtml(html) => images_hold_no_single(html, false, 0, 0),
            MdEvent::Start(_) | MdEvent::End(_) | MdEvent::Text(_) => none_single(read_as(last)),
            _ => {
                assert(read_as(last) =~= Seq::<EventView>::empty().push(last));
                filters_push(Seq::empty(), last, single);
                reveal(Seq::filter);
            },
        }
        assert(all_read_as(events).filter(single) =~= events.filter(single));
    } else {
        assert(all_read_as(events) =~= events);
    }
}

/// The text of a heading is that of its text and code, with a space for every break, up to where
/// it ends.
pub proof fn headings_say_their_text(events: Seq<EventView>, a: int, b: int)
    requires
        0 <= a <= b < events.len(),
        events[b] is End && events[b]->End_0 is Heading,
        forall|k: int|
            a <= k < b ==> is_in_line(#[trigger] events[k]) && !(events[k] is HardBreak),
    ensures
        heading_text(events, a) == said(events, a, b),
    decreases b - a,
{
    if a < b {
        assert(is_in_line(events[a]) && !(events[a] is HardBreak));
        headings_say_their_text(events, a + 1, b);
        said_from(events, a, b);
        assert(heading_text(events, a) =~= words(events[a]) + heading_text(events, a + 1));
    } else {
        assert(heading_text(events, a) =~= said(events, a, b));
    }
}

/// What events say, the first before the others.
proof fn said_from(events: Seq<EventView>, a: int, b: int)
    requires
        a < b,
    ensures
        said(events, a, b) == words(events[a]) + said(events, a + 1, b),
    decreases b - a,
{
    if b == a + 1 {
        assert(said(events, a, a) =~= Seq::<char>::empty());
        assert(said(events, a + 1, b) =~= Seq::<char>::empty());
        assert(said(events, a, b) =~= words(events[a]) + said(events, a + 1, b));
    } else {
        said_from(events, a, b - 1);
        assert(said(events, a, b) =~= words(events[a]) + said(events, a + 1, b));
    }
}

/// An alert starts with a paragraph of its own that says which kind it is; front matter is a code
/// block; and a wiki link leads to the Markdown file of its name.
pub proof fn alerts_and_wiki_links_are_read(event: EventView)
    ensures
        match event {
            MdEvent::Start(MdTag::BlockQuote(Some(kind))) => {
                let read = read_as(event);
                &&& read[0] == event
                &&& read.len() == 6
                &&& read[1] == EventView::Start(MdTag::Paragraph)
                &&& read[2] == EventView::Start(MdTag::Strong)
                &&& read[3] == EventView::Text(
                    match kind {
                        BlockQuoteKind::Note => "Note"@,
                        BlockQuoteKind::Tip => "Tip"@,
                        BlockQuoteKind::Important => "Important"@,
                        BlockQuoteKind::Warning => "Warning"@,
                        BlockQuoteKind::Caution => "Caution"@,
                    },
                )
                &&& read[4] == EventView::End(TagEnd::Strong)
                &&& read[5] == EventView::End(TagEnd::Paragraph)
            },
            MdEvent::Start(MdTag::MetadataBlock(_)) => read_as(event) == seq![
                EventView::Start(MdTag::CodeBlock(None)),
            ],
            MdEvent::End(TagEnd::MetadataBlock(_)) => read_as(event) == seq![
                EventView::End(TagEnd::CodeBlock),
            ],
            MdEvent::Start(MdTag::Link { link_type, dest_url, title, id }) => read_as(event)
                == seq![
                EventView::Start(
                    MdTag::Link {
                        link_type,
                        dest_url: if link_type is WikiLink {
                            dest_url + ".md"@
                        } else {
                            dest_url
                        },
                        title,
                        id,
                    },
                ),
            ],
            MdEvent::Text(_) | MdEvent::Code(_) => read_as(event) == seq![event],
            _ => true,
        },
{
}

}
