//! What the exports read the way GitHub does: headings that links can point at, addresses
//! written out in the text, alerts, front matter, wiki links, emoji, and the images of raw HTML.

use crate::autolink::{autolink, autolinked};
use crate::emoji::{emojied, pairs, put_all_emoji};
use crate::event::{copy_event, views, DocEvent, EventView, MdEvent, MdTag};
use crate::html::{
    attribute_views, copy_range, element_end, element_ends, find_element_end, is_end_tag,
    is_hidden, is_name, read_attributes, read_name, tag_attributes, tag_name, AttributeView,
};
use crate::labels::times;
use crate::page::{join_html, joined_html};
use crate::rewrite::source_at;
use crate::scripts::{leave_out_scripts, unscripted};
use crate::text::{
    chars_of, decimal, find, find_at, found_first, has_at, lowercase, parse_u32, push_decimal,
    same, spread, spread_push, stands_at, text_of, to_lowercase, trim, trimmed, u32_of,
};
use pulldown_cmark::{BlockQuoteKind, LinkType, TagEnd};
use vstd::prelude::*;
use vstd::string::*;

verus! {

/// Whether `char::is_alphanumeric` holds of a character, by its Unicode properties.
pub uninterp spec fn unicode_alnum(c: char) -> bool;

/// Whether a character is a letter or a digit: of ASCII, or by its Unicode properties.
pub open spec fn is_alnum(c: char) -> bool {
    if (c as u32) < 128 {
        ('0' <= c <= '9') || ('A' <= c <= 'Z') || ('a' <= c <= 'z')
    } else {
        unicode_alnum(c)
    }
}

/// `char::is_alphanumeric` holds of the ASCII letters and digits and of no other ASCII
/// character; of any other it is a function of the character alone, named [`unicode_alnum`].
pub assume_specification[ char::is_alphanumeric ](c: char) -> (alphanumeric: bool)
    ensures
        alphanumeric == is_alnum(c),
        (c as u32) >= 128 ==> alphanumeric == unicode_alnum(c),
;

/// Events with text that comes in pieces put together.
pub open spec fn joined_text(events: Seq<EventView>) -> Seq<EventView>
    decreases events.len(),
{
    if events.len() == 0 {
        events
    } else {
        let before = joined_text(events.drop_last());
        if before.len() > 0 && before.last() is Text && events.last() is Text {
            before.drop_last().push(
                MdEvent::Text(before.last()->Text_0 + events.last()->Text_0),
            )
        } else {
            before.push(events.last())
        }
    }
}

/// Put text that comes in pieces together.
pub fn join_text(events: &Vec<DocEvent>) -> (joined: Vec<DocEvent>)
    ensures
        views(joined@) == joined_text(views(events@)),
{
    let mut joined: Vec<DocEvent> = Vec::new();
    let ghost all = views(events@);
    proof {
        assert(views(joined@) =~= joined_text(all.take(0)));
    }
    for i in 0..events.len()
        invariant
            all == views(events@),
            views(joined@) == joined_text(all.take(i as int)),
    {
        let ghost before = joined@;
        let event = &events[i];
        proof {
            assert(all.take(i + 1).drop_last() =~= all.take(i as int));
            assert(all.take(i + 1).last() == event@);
            if before.len() > 0 {
                assert(views(before).last() == before.last()@);
                assert(views(before.drop_last()) =~= views(before).drop_last());
            }
        }
        let mut merged: Option<DocEvent> = None;
        if joined.len() > 0 {
            if let MdEvent::Text(piece) = event {
                if let MdEvent::Text(start) = &joined[joined.len() - 1] {
                    let mut whole = start.clone();
                    whole.append(piece.as_str());
                    merged = Some(MdEvent::Text(whole));
                }
            }
        }
        match merged {
            Some(whole) => {
                let _ = joined.pop();
                proof {
                    assert(views(joined@.push(whole)) =~= views(joined@).push(whole@));
                }
                joined.push(whole);
            },
            None => {
                let copy = copy_event(event);
                proof {
                    assert(views(before.push(copy)) =~= views(before).push(copy@));
                }
                joined.push(copy);
            },
        }
    }
    proof {
        assert(all.take(all.len() as int) =~= all);
    }
    joined
}

/// The value of the attribute `name`, from the `n`th on, of the first that has the name.
pub open spec fn value_of(list: Seq<AttributeView>, name: Seq<char>, n: int) -> Option<Seq<char>>
    decreases list.len() - n,
{
    if n < 0 || n >= list.len() {
        None
    } else if list[n].0 == name {
        Some(list[n].1)
    } else {
        value_of(list, name, n + 1)
    }
}

/// The value of the first attribute with the name.
fn find_value(list: &Vec<(Vec<char>, Vec<char>)>, name: &str) -> (value: Option<String>)
    ensures
        crate::event::opt_view(value) == value_of(attribute_views(list@), name@, 0),
{
    let mut n: usize = 0;
    while n < list.len()
        invariant
            n <= list@.len(),
            value_of(attribute_views(list@), name@, 0) == value_of(
                attribute_views(list@),
                name@,
                n as int,
            ),
        decreases list.len() - n,
    {
        proof {
            assert(attribute_views(list@)[n as int] == (list@[n as int].0@, list@[n as int].1@));
        }
        if is_name(&list[n].0, name) {
            let value = text_of(&list[n].1, 0, list[n].1.len());
            proof {
                assert(value@ =~= list@[n as int].1@);
            }
            return Some(value);
        }
        n = n + 1;
    }
    None
}

/// The pixels that a width says, as `40` or `40px`.
pub open spec fn pixels(value: Seq<char>) -> Option<i32> {
    let value = trim(value);
    let number = if value.len() >= 2 && stands_at(value, value.len() - 2, "px"@) {
        value.take(value.len() - 2)
    } else {
        value
    };
    match u32_of(number) {
        Some(width) if 0 < width <= i32::MAX => Some(width as i32),
        _ => None,
    }
}

/// The pixels that a width says.
fn read_pixels(value: &str) -> (width: Option<i32>)
    ensures
        width == pixels(value@),
{
    let value = trimmed(&chars_of(value));
    let end = if value.len() >= 2 && has_at(&value, value.len() - 2, &chars_of("px")) {
        value.len() - 2
    } else {
        value.len()
    };
    proof {
        assert(value@.take(value@.len() as int) =~= value@);
    }
    match parse_u32(&value, end) {
        Some(width) => if 0 < width && width <= 0x7fff_ffff {
            Some(width as i32)
        } else {
            None
        },
        None => None,
    }
}

/// An image of raw HTML: its address, its alternative text and its width.
pub type HtmlImageView = (Seq<char>, Seq<char>, Option<i32>);

/// The image that a tag, without its brackets, stands for.
pub open spec fn image_of(tag: Seq<char>) -> Option<HtmlImageView> {
    let list = tag_attributes(tag);
    if is_end_tag(tag) || tag_name(tag) != "img"@ {
        None
    } else {
        match value_of(list, "src"@, 0) {
            Some(source) => Some(
                (
                    source,
                    match value_of(list, "alt"@, 0) {
                        Some(alt) => alt,
                        None => Seq::empty(),
                    },
                    match value_of(list, "width"@, 0) {
                        Some(width) => pixels(width),
                        None => None,
                    },
                ),
            ),
            None => None,
        }
    }
}

/// The image that a tag, without its brackets, stands for.
fn read_image(tag: &Vec<char>) -> (image: Option<(String, String, Option<i32>)>)
    ensures
        match image {
            Some(image) => image_of(tag@) == Some((image.0@, image.1@, image.2)),
            None => image_of(tag@) is None,
        },
{
    let (name, after) = read_name(tag);
    if (tag.len() > 0 && tag[0] == '/') || !is_name(&name, "img") {
        return None;
    }
    let list = read_attributes(tag, after);
    match find_value(&list, "src") {
        Some(source) => {
            let alt = match find_value(&list, "alt") {
                Some(alt) => alt,
                None => String::new(),
            };
            proof {
                if value_of(attribute_views(list@), "alt"@, 0) is None {
                    assert(alt@ =~= Seq::<char>::empty());
                }
            }
            let width = match find_value(&list, "width") {
                Some(width) => read_pixels(width.as_str()),
                None => None,
            };
            Some((source, alt, width))
        },
        None => None,
    }
}

/// Raw HTML in a block of its own or in a line.
pub open spec fn html_piece(text: Seq<char>, block: bool) -> Seq<EventView> {
    if text.len() == 0 {
        Seq::empty()
    } else if block {
        seq![MdEvent::Html(text)]
    } else {
        seq![MdEvent::InlineHtml(text)]
    }
}

/// An image of raw HTML as a Markdown image.
pub open spec fn image_events(image: HtmlImageView) -> Seq<EventView> {
    seq![
        MdEvent::Start(
            MdTag::Image {
                link_type: LinkType::Inline,
                dest_url: image.0,
                title: Seq::empty(),
                id: Seq::empty(),
                width: image.2,
            },
        ),
        MdEvent::Text(image.1),
        MdEvent::End(TagEnd::Image),
    ]
}

/// A chunk of raw HTML read from `at` on, of which what stands before `from` is done, with its
/// images taken as Markdown images.
pub open spec fn with_images(chunk: Seq<char>, block: bool, at: int, from: int) -> Seq<EventView>
    decreases chunk.len() - at,
{
    if at < 0 || at > chunk.len() {
        html_piece(chunk.skip(from), block)
    } else {
        proof {
            found_first(chunk, at, "<"@);
            reveal_strlit("<");
        }
        match find_at(chunk, at, "<"@) {
            None => html_piece(chunk.skip(from), block),
            Some(start) => {
                proof {
                    found_first(chunk, start, "-->"@);
                    found_first(chunk, start, ">"@);
                    reveal_strlit("-->");
                    reveal_strlit(">");
                }
                if stands_at(chunk, start, "<!--"@) {
                    match find_at(chunk, start, "-->"@) {
                        Some(end) => with_images(chunk, block, end + 3, from),
                        None => html_piece(chunk.skip(from), block),
                    }
                } else {
                    match find_at(chunk, start, ">"@) {
                        None => html_piece(chunk.skip(from), block),
                        Some(end) => {
                            let tag = chunk.subrange(start + 1, end);
                            proof {
                                element_ends(chunk, end + 1, tag_name(tag));
                            }
                            if is_hidden(tag) {
                                match element_end(chunk, end + 1, tag_name(tag)) {
                                    Some(after) => with_images(chunk, block, after, from),
                                    None => html_piece(chunk.skip(from), block),
                                }
                            } else {
                                match image_of(tag) {
                                    Some(image) => html_piece(
                                        chunk.subrange(from, start),
                                        block,
                                    ) + image_events(image) + with_images(
                                        chunk,
                                        block,
                                        end + 1,
                                        end + 1,
                                    ),
                                    None => with_images(chunk, block, end + 1, from),
                                }
                            }
                        },
                    }
                }
            },
        }
    }
}

/// Add a piece of raw HTML.
fn push_html_piece(
    events: &mut Vec<DocEvent>,
    chunk: &Vec<char>,
    start: usize,
    end: usize,
    block: bool,
)
    requires
        start <= end <= chunk@.len(),
    ensures
        views(final(events)@) == views(old(events)@) + html_piece(
            chunk@.subrange(start as int, end as int),
            block,
        ),
{
    let ghost before = events@;
    if start < end {
        let text = text_of(chunk, start, end);
        let event = if block {
            MdEvent::Html(text)
        } else {
            MdEvent::InlineHtml(text)
        };
        proof {
            assert(views(before.push(event)) =~= views(before) + html_piece(
                chunk@.subrange(start as int, end as int),
                block,
            ));
        }
        events.push(event);
    } else {
        proof {
            assert(views(before) + Seq::<EventView>::empty() =~= views(before));
        }
    }
}

/// Add an image of raw HTML as a Markdown image.
fn push_image(events: &mut Vec<DocEvent>, image: (String, String, Option<i32>))
    ensures
        views(final(events)@) == views(old(events)@) + image_events(
            (image.0@, image.1@, image.2),
        ),
{
    let ghost before = events@;
    let start: DocEvent = MdEvent::Start(
        MdTag::Image {
            link_type: LinkType::Inline,
            dest_url: image.0,
            title: String::new(),
            id: String::new(),
            width: image.2,
        },
    );
    let text: DocEvent = MdEvent::Text(image.1);
    let end: DocEvent = MdEvent::End(TagEnd::Image);
    let ghost added = seq![start, text, end];
    events.push(start);
    events.push(text);
    events.push(end);
    proof {
        assert(views(added) =~= image_events((image.0@, image.1@, image.2)));
        assert(events@ =~= before + added);
        assert(views(before + added) =~= views(before) + views(added));
    }
}

/// Add a chunk of raw HTML with its images taken as Markdown images.
fn push_with_images(events: &mut Vec<DocEvent>, html: &str, block: bool)
    ensures
        views(final(events)@) == views(old(events)@) + with_images(html@, block, 0, 0),
{
    let chunk = chars_of(html);
    let less = chars_of("<");
    let greater = chars_of(">");
    let comment = chars_of("<!--");
    let comment_end = chars_of("-->");
    let ghost given = views(events@);
    let mut at: usize = 0;
    let mut from: usize = 0;
    proof {
        reveal_strlit("<");
        reveal_strlit(">");
        reveal_strlit("-->");
    }
    loop
        invariant
            from <= at <= chunk.len(),
            chunk@ == html@,
            less@ == "<"@,
            greater@ == ">"@,
            comment@ == "<!--"@,
            comment_end@ == "-->"@,
            comment_end@.len() == 3,
            greater@.len() == 1,
            less@.len() == 1,
            less@[0] == '<',
            greater@[0] == '>',
            given == views(old(events)@),
            views(events@) + with_images(chunk@, block, at as int, from as int) == given
                + with_images(chunk@, block, 0, 0),
        decreases chunk@.len() - at,
    {
        let ghost before = views(events@);
        proof {
            assert(chunk@.subrange(from as int, chunk@.len() as int) =~= chunk@.skip(
                from as int,
            ));
        }
        let start = match find(&chunk, at, &less) {
            Some(start) => start,
            None => {
                push_html_piece(events, &chunk, from, chunk.len(), block);
                return ;
            },
        };
        if has_at(&chunk, start, &comment) {
            match find(&chunk, start, &comment_end) {
                Some(end) => {
                    at = end + 3;
                },
                None => {
                    push_html_piece(events, &chunk, from, chunk.len(), block);
                    return ;
                },
            }
        } else {
            match find(&chunk, start, &greater) {
                None => {
                    push_html_piece(events, &chunk, from, chunk.len(), block);
                    return ;
                },
                Some(end) => {
                    proof {
                        assert(start != end) by {
                            assert(chunk@.subrange(start as int, start + less@.len())[0] == '<');
                            assert(chunk@.subrange(end as int, end + greater@.len())[0] == '>');
                        }
                    }
                    let tag = copy_range(&chunk, start + 1, end);
                    let (name, _) = read_name(&tag);
                    let is_end = tag.len() > 0 && tag[0] == '/';
                    if !is_end && (is_name(&name, "script") || is_name(&name, "style")) {
                        proof {
                            element_ends(chunk@, end + 1, name@);
                        }
                        match find_element_end(&chunk, end + 1, &name) {
                            Some(after) => {
                                at = after;
                            },
                            None => {
                                push_html_piece(events, &chunk, from, chunk.len(), block);
                                return ;
                            },
                        }
                    } else {
                        match read_image(&tag) {
                            Some(image) => {
                                let ghost shown = (image.0@, image.1@, image.2);
                                push_html_piece(events, &chunk, from, start, block);
                                push_image(events, image);
                                proof {
                                    let piece = html_piece(
                                        chunk@.subrange(from as int, start as int),
                                        block,
                                    );
                                    let rest = with_images(chunk@, block, end + 1, end + 1);
                                    assert(before + (piece + image_events(shown) + rest)
                                        =~= before + piece + image_events(shown) + rest);
                                }
                                from = end + 1;
                            },
                            None => {},
                        }
                        at = end + 1;
                    }
                },
            }
        }
    }
}

/// The title of an alert.
pub open spec fn alert_title(kind: BlockQuoteKind) -> Seq<char> {
    match kind {
        BlockQuoteKind::Note => "Note"@,
        BlockQuoteKind::Tip => "Tip"@,
        BlockQuoteKind::Important => "Important"@,
        BlockQuoteKind::Warning => "Warning"@,
        BlockQuoteKind::Caution => "Caution"@,
    }
}

/// The paragraph with the title of an alert.
pub open spec fn title_events(kind: BlockQuoteKind) -> Seq<EventView> {
    seq![
        MdEvent::Start(MdTag::Paragraph),
        MdEvent::Start(MdTag::Strong),
        MdEvent::Text(alert_title(kind)),
        MdEvent::End(TagEnd::Strong),
        MdEvent::End(TagEnd::Paragraph),
    ]
}

/// What an event is read as: an alert starts with its title, front matter is a code block, a
/// wiki link leads to the Markdown file of its name, and an image of raw HTML is an image.
pub open spec fn read_as(event: EventView) -> Seq<EventView> {
    match event {
        MdEvent::Start(MdTag::BlockQuote(Some(kind))) => seq![event] + title_events(kind),
        MdEvent::Start(MdTag::MetadataBlock(_)) => seq![MdEvent::Start(MdTag::CodeBlock(None))],
        MdEvent::End(TagEnd::MetadataBlock(_)) => seq![MdEvent::End(TagEnd::CodeBlock)],
        MdEvent::Start(
            MdTag::Link { link_type: LinkType::WikiLink { has_pothole }, dest_url, title, id },
        ) => seq![
            MdEvent::Start(
                MdTag::Link {
                    link_type: LinkType::WikiLink { has_pothole },
                    dest_url: dest_url + ".md"@,
                    title,
                    id,
                },
            ),
        ],
        MdEvent::Html(html) => with_images(html, true, 0, 0),
        MdEvent::InlineHtml(html) => with_images(html, false, 0, 0),
        _ => seq![event],
    }
}

/// What events are read as.
pub open spec fn all_read_as(events: Seq<EventView>) -> Seq<EventView>
    decreases events.len(),
{
    if events.len() == 0 {
        Seq::empty()
    } else {
        all_read_as(events.drop_last()) + read_as(events.last())
    }
}

/// Add the paragraph with the title of an alert.
fn push_title(events: &mut Vec<DocEvent>, kind: BlockQuoteKind)
    ensures
        views(final(events)@) == views(old(events)@) + title_events(kind),
{
    let ghost before = events@;
    let title = match kind {
        BlockQuoteKind::Note => "Note",
        BlockQuoteKind::Tip => "Tip",
        BlockQuoteKind::Important => "Important",
        BlockQuoteKind::Warning => "Warning",
        BlockQuoteKind::Caution => "Caution",
    };
    let text: DocEvent = MdEvent::Text(String::from_str(title));
    let paragraph: DocEvent = MdEvent::Start(MdTag::Paragraph);
    let strong: DocEvent = MdEvent::Start(MdTag::Strong);
    let strong_end: DocEvent = MdEvent::End(TagEnd::Strong);
    let paragraph_end: DocEvent = MdEvent::End(TagEnd::Paragraph);
    let ghost added = seq![paragraph, strong, text, strong_end, paragraph_end];
    events.push(paragraph);
    events.push(strong);
    events.push(text);
    events.push(strong_end);
    events.push(paragraph_end);
    proof {
        assert(views(added) =~= title_events(kind));
        assert(events@ =~= before + added);
        assert(views(before + added) =~= views(before) + views(added));
    }
}

/// Add one event.
fn push_event(events: &mut Vec<DocEvent>, event: DocEvent)
    ensures
        views(final(events)@) == views(old(events)@) + seq![event@],
{
    let ghost before = events@;
    proof {
        assert(views(before.push(event)) =~= views(before) + seq![event@]);
    }
    events.push(event);
}

/// Add what an event is read as.
fn push_read_as(events: &mut Vec<DocEvent>, event: &DocEvent)
    ensures
        views(final(events)@) == views(old(events)@) + read_as(event@),
{
    let ghost before = views(events@);
    match event {
        MdEvent::Start(MdTag::BlockQuote(Some(kind))) => {
            push_event(events, copy_event(event));
            push_title(events, *kind);
            proof {
                assert(before + (seq![event@] + title_events(*kind)) =~= before + seq![event@]
                    + title_events(*kind));
            }
        },
        MdEvent::Start(MdTag::MetadataBlock(_)) => {
            push_event(events, MdEvent::Start(MdTag::CodeBlock(None)));
        },
        MdEvent::End(TagEnd::MetadataBlock(_)) => {
            push_event(events, MdEvent::End(TagEnd::CodeBlock));
        },
        MdEvent::Start(
            MdTag::Link { link_type: LinkType::WikiLink { has_pothole }, dest_url, title, id },
        ) => {
            let mut dest_url = dest_url.clone();
            dest_url.append(".md");
            push_event(
                events,
                MdEvent::Start(
                    MdTag::Link {
                        link_type: LinkType::WikiLink { has_pothole: *has_pothole },
                        dest_url,
                        title: title.clone(),
                        id: id.clone(),
                    },
                ),
            );
        },
        MdEvent::Html(html) => push_with_images(events, html.as_str(), true),
        MdEvent::InlineHtml(html) => push_with_images(events, html.as_str(), false),
        _ => push_event(events, copy_event(event)),
    }
}

/// What events are read as.
fn read_all(events: &Vec<DocEvent>) -> (read: Vec<DocEvent>)
    ensures
        views(read@) == all_read_as(views(events@)),
{
    let mut read: Vec<DocEvent> = Vec::new();
    let ghost all = views(events@);
    proof {
        assert(views(read@) =~= all_read_as(all.take(0)));
    }
    for i in 0..events.len()
        invariant
            all == views(events@),
            views(read@) == all_read_as(all.take(i as int)),
    {
        proof {
            assert(all.take(i + 1).drop_last() =~= all.take(i as int));
            assert(all.take(i + 1).last() == events@[i as int]@);
        }
        push_read_as(&mut read, &events[i]);
    }
    proof {
        assert(all.take(all.len() as int) =~= all);
    }
    read
}

/// A character of a heading in the name that links point at: spaces are made hyphens and
/// punctuation is left out.
pub open spec fn slug_char(c: char) -> Seq<char> {
    if c == ' ' {
        seq!['-']
    } else if is_alnum(c) || c == '-' || c == '_' {
        seq![c]
    } else {
        Seq::empty()
    }
}

/// The name that links to a heading in lower case point at.
pub open spec fn slug(text: Seq<char>) -> Seq<char> {
    spread(text, |c: char| slug_char(c))
}

/// The name that links to a heading in lower case point at.
pub fn slug_of(text: &str) -> (name: String)
    ensures
        name@ == slug(text@),
{
    let chars = chars_of(text);
    let mut name = String::new();
    let ghost write = |c: char| slug_char(c);
    proof {
        assert(chars@.take(0) =~= Seq::<char>::empty());
    }
    for i in 0..chars.len()
        invariant
            write == (|c: char| slug_char(c)),
            name@ == spread(chars@.take(i as int), write),
    {
        let c = chars[i];
        proof {
            assert(chars@.take(i + 1) =~= chars@.take(i as int).push(c));
            spread_push(chars@.take(i as int), c, write);
        }
        let ghost before = name@;
        if c == ' ' {
            name.push('-');
        } else if c.is_alphanumeric() || c == '-' || c == '_' {
            name.push(c);
        }
        proof {
            assert(name@ =~= before + slug_char(c));
        }
    }
    proof {
        assert(chars@.take(chars@.len() as int) =~= chars@);
    }
    name
}

/// The text of the heading that goes on at event `i`.
pub open spec fn heading_text(events: Seq<EventView>, i: int) -> Seq<char>
    decreases events.len() - i,
{
    if i < 0 || i >= events.len() {
        Seq::empty()
    } else {
        match events[i] {
            MdEvent::End(TagEnd::Heading(_)) => Seq::empty(),
            MdEvent::Text(text) => text + heading_text(events, i + 1),
            MdEvent::Code(text) => text + heading_text(events, i + 1),
            MdEvent::SoftBreak => " "@ + heading_text(events, i + 1),
            _ => heading_text(events, i + 1),
        }
    }
}

/// The text of the heading that goes on at event `from`.
fn read_heading(events: &Vec<DocEvent>, from: usize) -> (text: String)
    ensures
        text@ == heading_text(views(events@), from as int),
{
    let mut text = String::new();
    let mut i: usize = from;
    let ghost all = views(events@);
    proof {
        assert(text@ + heading_text(all, from as int) =~= heading_text(all, from as int));
    }
    while i < events.len()
        invariant
            all == views(events@),
            i <= events@.len() || i == from,
            text@ + heading_text(all, i as int) == heading_text(all, from as int),
        decreases events.len() - i,
    {
        let ghost before = text@;
        proof {
            assert(all[i as int] == events@[i as int]@);
        }
        match &events[i] {
            MdEvent::End(TagEnd::Heading(_)) => {
                proof {
                    assert(before + Seq::<char>::empty() =~= before);
                }
                return text;
            },
            MdEvent::Text(piece) => text.append(piece.as_str()),
            MdEvent::Code(piece) => text.append(piece.as_str()),
            MdEvent::SoftBreak => text.append(" "),
            _ => {},
        }
        proof {
            let rest = heading_text(all, i + 1);
            match all[i as int] {
                MdEvent::Text(piece) => {
                    assert(before + (piece + rest) =~= text@ + rest);
                },
                MdEvent::Code(piece) => {
                    assert(before + (piece + rest) =~= text@ + rest);
                },
                MdEvent::SoftBreak => {
                    assert(before + (" "@ + rest) =~= text@ + rest);
                },
                _ => {},
            }
        }
        i = i + 1;
    }
    proof {
        assert(text@ + Seq::<char>::empty() =~= text@);
    }
    text
}

/// The name of a heading, after headings with the names `used`: those of the same name are
/// counted.
pub open spec fn heading_id(used: Seq<Seq<char>>, name: Seq<char>) -> Option<Seq<char>> {
    if name.len() == 0 {
        None
    } else if times(used, name) == 0 {
        Some(name)
    } else {
        Some(name + "-"@ + decimal(times(used, name) as nat))
    }
}

/// The first `n` events with the names of their headings, and the names before they are counted.
pub open spec fn named(events: Seq<EventView>, n: int) -> (Seq<EventView>, Seq<Seq<char>>)
    decreases n,
{
    if n <= 0 {
        (Seq::empty(), Seq::empty())
    } else {
        let (before, used) = named(events, n - 1);
        match events[n - 1] {
            MdEvent::Start(MdTag::Heading { level, id: None }) => {
                let name = slug(lowercase(heading_text(events, n)));
                (
                    before.push(
                        MdEvent::Start(MdTag::Heading { level, id: heading_id(used, name) }),
                    ),
                    used.push(name),
                )
            },
            other => (before.push(other), used),
        }
    }
}

/// How often a name was used.
fn count_times(used: &Vec<String>, name: &str) -> (count: usize)
    ensures
        count == times(crate::text::texts(used@), name@),
        count <= used@.len(),
{
    let ghost all = crate::text::texts(used@);
    let mut count: usize = 0;
    for i in 0..used.len()
        invariant
            all == crate::text::texts(used@),
            count == times(all.take(i as int), name@),
            count <= i,
    {
        proof {
            assert(all.take(i + 1).drop_last() =~= all.take(i as int));
            assert(all.take(i + 1).last() == used@[i as int]@);
        }
        if same(used[i].as_str(), name) {
            count = count + 1;
        }
    }
    proof {
        assert(all.take(all.len() as int) =~= all);
    }
    count
}

/// The name of a heading, after headings with the names `used`.
fn name_heading(used: &Vec<String>, name: &String) -> (id: Option<String>)
    ensures
        crate::event::opt_view(id) == heading_id(crate::text::texts(used@), name@),
{
    if name.as_str().is_empty() {
        return None;
    }
    let count = count_times(used, name.as_str());
    if count == 0 {
        Some(name.clone())
    } else {
        let mut id = name.clone();
        id.append("-");
        push_decimal(&mut id, count as u128);
        Some(id)
    }
}

/// The events with the names of their headings.
fn name_headings(events: &Vec<DocEvent>) -> (list: Vec<DocEvent>)
    ensures
        views(list@) == named(views(events@), events@.len() as int).0,
{
    let mut list: Vec<DocEvent> = Vec::new();
    let mut used: Vec<String> = Vec::new();
    let ghost all = views(events@);
    proof {
        assert(views(list@) =~= named(all, 0).0);
        assert(crate::text::texts(used@) =~= named(all, 0).1);
    }
    for i in 0..events.len()
        invariant
            all == views(events@),
            views(list@) == named(all, i as int).0,
            crate::text::texts(used@) == named(all, i as int).1,
    {
        let ghost before = list@;
        let ghost used_before = used@;
        proof {
            assert(all[i as int] == events@[i as int]@);
        }
        match &events[i] {
            MdEvent::Start(MdTag::Heading { level, id: None }) => {
                let text = read_heading(events, i + 1);
                let name = slug_of(to_lowercase(text.as_str()).as_str());
                let id = name_heading(&used, &name);
                let event: DocEvent = MdEvent::Start(MdTag::Heading { level: *level, id });
                proof {
                    assert(views(before.push(event)) =~= views(before).push(event@));
                    assert(crate::text::texts(used_before.push(name)) =~= crate::text::texts(
                        used_before,
                    ).push(name@));
                }
                list.push(event);
                used.push(name);
            },
            other => {
                let copy = copy_event(other);
                proof {
                    assert(views(before.push(copy)) =~= views(before).push(copy@));
                }
                list.push(copy);
            },
        }
    }
    list
}

/// The events of a document as they are read, from those that are parsed, when the emoji in
/// `missing` are not to be had.
pub open spec fn as_github_does(
    events: Seq<EventView>,
    missing: Seq<(Seq<char>, Seq<char>)>,
) -> Seq<EventView> {
    let read = all_read_as(joined_html(joined_text(unscripted(events).0)));
    let names = named(read, read.len() as int).0;
    let links = autolinked(names, names.len() as int).0;
    emojied(links, missing, links.len() as int).0
}

/// The events of a document as they are read, from those that are parsed, when the emoji in
/// `missing`, which come with their shortcodes, are not to be had.
pub fn read_github(events: &Vec<DocEvent>, missing: &Vec<(String, String)>) -> (list: Vec<DocEvent>)
    ensures
        views(list@) == as_github_does(views(events@), pairs(missing@)),
{
    let read = read_all(&join_html(&join_text(&leave_out_scripts(events))));
    let names = name_headings(&read);
    let links = autolink(&names);
    proof {
        assert(views(read@).len() == read@.len());
        assert(views(names@).len() == names@.len());
        assert(views(links@).len() == links@.len());
    }
    put_all_emoji(&links, missing)
}

/// Events with math that is not drawn made code, which shows its source.
pub open spec fn with_source_math(events: Seq<EventView>, sources: Seq<Option<String>>) -> Seq<
    EventView,
> {
    Seq::new(
        events.len(),
        |i: int|
            match events[i] {
                MdEvent::InlineMath(latex) if source_at(sources, i) is None => MdEvent::Code(
                    latex,
                ),
                MdEvent::DisplayMath(latex) if source_at(sources, i) is None => MdEvent::Code(
                    latex,
                ),
                event => event,
            },
    )
}

/// Make math that is not drawn code, which shows its source.
pub fn show_source_math(events: &Vec<DocEvent>, sources: &Vec<Option<String>>) -> (list: Vec<
    DocEvent,
>)
    ensures
        views(list@) == with_source_math(views(events@), sources@),
{
    let ghost all = with_source_math(views(events@), sources@);
    let mut list: Vec<DocEvent> = Vec::new();
    for i in 0..events.len()
        invariant
            all == with_source_math(views(events@), sources@),
            views(list@) == all.take(i as int),
    {
        let ghost before = list@;
        proof {
            assert(views(events@)[i as int] == events@[i as int]@);
        }
        let drawn = i < sources.len() && sources[i].is_some();
        let event: DocEvent = match &events[i] {
            MdEvent::InlineMath(latex) => if drawn {
                copy_event(&events[i])
            } else {
                MdEvent::Code(latex.clone())
            },
            MdEvent::DisplayMath(latex) => if drawn {
                copy_event(&events[i])
            } else {
                MdEvent::Code(latex.clone())
            },
            other => copy_event(other),
        };
        proof {
            assert(event@ == all[i as int]);
            assert(views(before.push(event)) =~= views(before).push(event@));
            assert(all.take(i + 1) =~= all.take(i as int).push(event@));
        }
        list.push(event);
    }
    proof {
        assert(all.take(all.len() as int) =~= all);
    }
    list
}

}
