//! Markdown parsing and HTML writing, which pulldown-cmark does.

use crate::event::{
    copy_alignments, opt_view, views, DocEvent, DocTag, EventView, MdEvent, MdTag, TagView,
};
use pulldown_cmark::CowStr;
use std::ops::Range;
use vstd::multiset::Multiset;
use vstd::prelude::*;

verus! {

/// Declares the parser's text, which is borrowed or owned.
#[verifier::external_type_specification]
#[verifier::external_body]
pub struct ExCowStr<'a>(pulldown_cmark::CowStr<'a>);

/// Declares the parser's kinds of code block.
#[verifier::external_type_specification]
pub struct ExCodeBlockKind<'a>(pulldown_cmark::CodeBlockKind<'a>);

/// Declares the parser's start tags.
#[verifier::external_type_specification]
pub struct ExTag<'a>(pulldown_cmark::Tag<'a>);

/// Declares the parser's events.
#[verifier::external_type_specification]
pub struct ExEvent<'a>(pulldown_cmark::Event<'a>);

/// Tables, in the bits [`events`] takes.
pub const TABLES: u32 = 2;

/// Footnotes, in the bits [`events`] takes.
pub const FOOTNOTES: u32 = 4;

/// What is read beyond CommonMark, in the bits [`events`] takes: tables, footnotes,
/// strikethrough, task lists, front matter between `---` or `+++` lines, math, alerts, definition
/// lists and wiki links.
pub const GITHUB: u32 = 40350;

/// The characters a parser's text holds.
pub uninterp spec fn cow_text(text: CowStr<'_>) -> Seq<char>;

/// The characters of a parser's text that may be missing.
pub open spec fn opt_cow_text(text: Option<CowStr<'_>>) -> Option<Seq<char>> {
    match text {
        Some(text) => Some(cow_text(text)),
        None => None,
    }
}

/// A parser's tag as contracts speak of it. The classes and attributes a heading may have
/// are left out: they need an extension that is never turned on.
pub open spec fn tag_of(tag: pulldown_cmark::Tag<'_>) -> TagView {
    match tag {
        pulldown_cmark::Tag::Paragraph => MdTag::Paragraph,
        pulldown_cmark::Tag::Heading { level, id, classes, attrs } => MdTag::Heading {
            level,
            id: opt_cow_text(id),
        },
        pulldown_cmark::Tag::BlockQuote(kind) => MdTag::BlockQuote(kind),
        pulldown_cmark::Tag::CodeBlock(kind) => match kind {
            pulldown_cmark::CodeBlockKind::Indented => MdTag::CodeBlock(None),
            pulldown_cmark::CodeBlockKind::Fenced(info) => MdTag::CodeBlock(Some(cow_text(info))),
        },
        pulldown_cmark::Tag::HtmlBlock => MdTag::HtmlBlock,
        pulldown_cmark::Tag::List(first) => MdTag::List(first),
        pulldown_cmark::Tag::Item => MdTag::Item,
        pulldown_cmark::Tag::FootnoteDefinition(name) => MdTag::FootnoteDefinition(cow_text(name)),
        pulldown_cmark::Tag::DefinitionList => MdTag::DefinitionList,
        pulldown_cmark::Tag::DefinitionListTitle => MdTag::DefinitionListTitle,
        pulldown_cmark::Tag::DefinitionListDefinition => MdTag::DefinitionListDefinition,
        pulldown_cmark::Tag::Table(alignments) => MdTag::Table(alignments@),
        pulldown_cmark::Tag::TableHead => MdTag::TableHead,
        pulldown_cmark::Tag::TableRow => MdTag::TableRow,
        pulldown_cmark::Tag::TableCell => MdTag::TableCell,
        pulldown_cmark::Tag::Emphasis => MdTag::Emphasis,
        pulldown_cmark::Tag::Strong => MdTag::Strong,
        pulldown_cmark::Tag::Strikethrough => MdTag::Strikethrough,
        pulldown_cmark::Tag::Superscript => MdTag::Superscript,
        pulldown_cmark::Tag::Subscript => MdTag::Subscript,
        pulldown_cmark::Tag::Link { link_type, dest_url, title, id } => MdTag::Link {
            link_type,
            dest_url: cow_text(dest_url),
            title: cow_text(title),
            id: cow_text(id),
        },
        pulldown_cmark::Tag::Image { link_type, dest_url, title, id } => MdTag::Image {
            link_type,
            dest_url: cow_text(dest_url),
            title: cow_text(title),
            id: cow_text(id),
            width: None,
        },
        pulldown_cmark::Tag::MetadataBlock(kind) => MdTag::MetadataBlock(kind),
    }
}

/// Whether a parser's event is no heading with classes or attributes, which [`event_of`] leaves
/// out.
pub open spec fn is_told(event: pulldown_cmark::Event<'_>) -> bool {
    match event {
        pulldown_cmark::Event::Start(tag) => is_told_tag(tag),
        _ => true,
    }
}

/// Whether a parser's tag is no heading with classes or attributes, which [`tag_of`] leaves out.
pub open spec fn is_told_tag(tag: pulldown_cmark::Tag<'_>) -> bool {
    match tag {
        pulldown_cmark::Tag::Heading { level, id, classes, attrs } => classes@.len() == 0
            && attrs@.len() == 0,
        _ => true,
    }
}

/// A parser's event as contracts speak of it.
pub open spec fn event_of(event: pulldown_cmark::Event<'_>) -> EventView {
    match event {
        pulldown_cmark::Event::Start(tag) => MdEvent::Start(tag_of(tag)),
        pulldown_cmark::Event::End(end) => MdEvent::End(end),
        pulldown_cmark::Event::Text(text) => MdEvent::Text(cow_text(text)),
        pulldown_cmark::Event::Code(text) => MdEvent::Code(cow_text(text)),
        pulldown_cmark::Event::InlineMath(text) => MdEvent::InlineMath(cow_text(text)),
        pulldown_cmark::Event::DisplayMath(text) => MdEvent::DisplayMath(cow_text(text)),
        pulldown_cmark::Event::Html(text) => MdEvent::Html(cow_text(text)),
        pulldown_cmark::Event::InlineHtml(text) => MdEvent::InlineHtml(cow_text(text)),
        pulldown_cmark::Event::FootnoteReference(name) => MdEvent::FootnoteReference(
            cow_text(name),
        ),
        pulldown_cmark::Event::SoftBreak => MdEvent::SoftBreak,
        pulldown_cmark::Event::HardBreak => MdEvent::HardBreak,
        pulldown_cmark::Event::Rule => MdEvent::Rule,
        pulldown_cmark::Event::TaskListMarker(checked) => MdEvent::TaskListMarker(checked),
    }
}

/// A parser's events with the range of the source each comes from, as contracts speak of
/// them.
pub open spec fn events_of(
    events: Seq<(pulldown_cmark::Event<'_>, Range<usize>)>,
) -> Seq<(EventView, Range<usize>)> {
    events.map_values(
        |item: (pulldown_cmark::Event<'_>, Range<usize>)| (event_of(item.0), item.1),
    )
}

/// The events of a document with the range of the source each comes from, as contracts
/// speak of them.
pub open spec fn located(events: Seq<(DocEvent, Range<usize>)>) -> Seq<(EventView, Range<usize>)> {
    events.map_values(|item: (DocEvent, Range<usize>)| (item.0@, item.1))
}

/// What pulldown-cmark reads in a text, with the extensions in `extensions` turned on: the
/// events and the byte range of the source each comes from.
pub uninterp spec fn parsed(text: Seq<char>, extensions: u32) -> Seq<(EventView, Range<usize>)>;

/// The link definitions pulldown-cmark finds in a text, each a label, an address and maybe a
/// title.
pub uninterp spec fn link_definitions(
    text: Seq<char>,
    extensions: u32,
) -> Multiset<(Seq<char>, Seq<char>, Option<Seq<char>>)>;

/// The HTML pulldown-cmark writes for events.
pub uninterp spec fn pushed_html(events: Seq<EventView>) -> Seq<char>;

/// `CowStr` dereferences to the text it holds, which `to_string` copies.
#[verifier::external_body]
fn cow_to_string(text: &CowStr<'_>) -> (copy: String)
    ensures
        copy@ == cow_text(*text),
{
    text.to_string()
}

/// `CowStr::from` of a `String` holds the string's text.
#[verifier::external_body]
fn string_to_cow(text: String) -> (cow: CowStr<'static>)
    ensures
        cow_text(cow) == text@,
{
    CowStr::from(text)
}

/// `Parser::new_ext` and its offset iterator give the events of the text, which depend on
/// the text and the extensions alone; named [`parsed`].
#[verifier::external_body]
fn parse_events(text: &str, extensions: u32) -> (events: Vec<
    (pulldown_cmark::Event<'_>, Range<usize>),
>)
    ensures
        events_of(events@) == parsed(text@, extensions),
{
    let options = pulldown_cmark::Options::from_bits_truncate(extensions);
    pulldown_cmark::Parser::new_ext(text, options).into_offset_iter().collect()
}

/// `Parser::reference_definitions` holds the link definitions of the text, which depend on
/// the text and the extensions alone; the order it gives them in is left open.
#[verifier::external_body]
fn parse_definitions(text: &str, extensions: u32) -> (definitions: Vec<
    (String, String, Option<String>),
>)
    ensures
        definition_views(definitions@).to_multiset() == link_definitions(text@, extensions),
{
    let options = pulldown_cmark::Options::from_bits_truncate(extensions);
    pulldown_cmark::Parser::new_ext(text, options)
        .reference_definitions()
        .iter()
        .map(|(label, def)| (
            label.to_string(),
            def.dest.to_string(),
            def.title.as_ref().map(|title| title.to_string()),
        ))
        .collect()
}

/// `html::push_html` adds the HTML of the events, which depends on the events alone; named
/// [`pushed_html`]. Of headings with classes or attributes, which the name does not tell apart,
/// nothing is claimed.
#[verifier::external_body]
fn push_html(events: Vec<pulldown_cmark::Event<'_>>) -> (html: String)
    requires
        forall|i: int| 0 <= i < events@.len() ==> is_told(#[trigger] events@[i]),
    ensures
        html@ == pushed_html(events@.map_values(|event: pulldown_cmark::Event<'_>| event_of(event))),
{
    let mut html = String::new();
    pulldown_cmark::html::push_html(&mut html, events.into_iter());
    html
}

/// Link definitions as contracts speak of them.
pub open spec fn definition_views(
    definitions: Seq<(String, String, Option<String>)>,
) -> Seq<(Seq<char>, Seq<char>, Option<Seq<char>>)> {
    definitions.map_values(
        |item: (String, String, Option<String>)|
            (item.0@, item.1@, opt_view(item.2)),
    )
}

/// A tag whose image, if it is one, has no width of its own: HTML writing leaves a width out.
pub open spec fn without_width(tag: TagView) -> TagView {
    match tag {
        MdTag::Image { link_type, dest_url, title, id, width } => MdTag::Image {
            link_type,
            dest_url,
            title,
            id,
            width: None,
        },
        other => other,
    }
}

/// An event whose image, if it starts one, has no width of its own.
pub open spec fn writable(event: EventView) -> EventView {
    match event {
        MdEvent::Start(tag) => MdEvent::Start(without_width(tag)),
        other => other,
    }
}

/// The text of a parser's text that may be missing.
fn opt_cow_to_string(text: &Option<CowStr<'_>>) -> (copy: Option<String>)
    ensures
        opt_view(copy) == opt_cow_text(*text),
{
    match text {
        Some(text) => Some(cow_to_string(text)),
        None => None,
    }
}

/// A parser's text that may be missing.
fn opt_string_to_cow(text: Option<String>) -> (cow: Option<CowStr<'static>>)
    ensures
        opt_cow_text(cow) == opt_view(text),
{
    match text {
        Some(text) => Some(string_to_cow(text)),
        None => None,
    }
}

/// The tag a parser's tag stands for.
fn read_tag(tag: &pulldown_cmark::Tag<'_>) -> (read: DocTag)
    ensures
        read@ == tag_of(*tag),
{
    match tag {
        pulldown_cmark::Tag::Paragraph => MdTag::Paragraph,
        pulldown_cmark::Tag::Heading { level, id, classes: _, attrs: _ } => MdTag::Heading {
            level: *level,
            id: opt_cow_to_string(id),
        },
        pulldown_cmark::Tag::BlockQuote(value) => MdTag::BlockQuote(*value),
        pulldown_cmark::Tag::CodeBlock(pulldown_cmark::CodeBlockKind::Indented) => MdTag::CodeBlock(None),
        pulldown_cmark::Tag::CodeBlock(pulldown_cmark::CodeBlockKind::Fenced(info)) => MdTag::CodeBlock(
            Some(cow_to_string(info)),
        ),
        pulldown_cmark::Tag::HtmlBlock => MdTag::HtmlBlock,
        pulldown_cmark::Tag::List(value) => MdTag::List(*value),
        pulldown_cmark::Tag::Item => MdTag::Item,
        pulldown_cmark::Tag::FootnoteDefinition(name) => MdTag::FootnoteDefinition(
            cow_to_string(name),
        ),
        pulldown_cmark::Tag::DefinitionList => MdTag::DefinitionList,
        pulldown_cmark::Tag::DefinitionListTitle => MdTag::DefinitionListTitle,
        pulldown_cmark::Tag::DefinitionListDefinition => MdTag::DefinitionListDefinition,
        pulldown_cmark::Tag::Table(alignments) => MdTag::Table(copy_alignments(alignments)),
        pulldown_cmark::Tag::TableHead => MdTag::TableHead,
        pulldown_cmark::Tag::TableRow => MdTag::TableRow,
        pulldown_cmark::Tag::TableCell => MdTag::TableCell,
        pulldown_cmark::Tag::Emphasis => MdTag::Emphasis,
        pulldown_cmark::Tag::Strong => MdTag::Strong,
        pulldown_cmark::Tag::Strikethrough => MdTag::Strikethrough,
        pulldown_cmark::Tag::Superscript => MdTag::Superscript,
        pulldown_cmark::Tag::Subscript => MdTag::Subscript,
        pulldown_cmark::Tag::Link { link_type, dest_url, title, id } => MdTag::Link {
            link_type: *link_type,
            dest_url: cow_to_string(dest_url),
            title: cow_to_string(title),
            id: cow_to_string(id),
        },
        pulldown_cmark::Tag::Image { link_type, dest_url, title, id } => MdTag::Image {
            link_type: *link_type,
            dest_url: cow_to_string(dest_url),
            title: cow_to_string(title),
            id: cow_to_string(id),
            width: None,
        },
        pulldown_cmark::Tag::MetadataBlock(value) => MdTag::MetadataBlock(*value),
    }
}

/// The event a parser's event stands for.
fn read_event(event: &pulldown_cmark::Event<'_>) -> (read: DocEvent)
    ensures
        read@ == event_of(*event),
{
    match event {
        pulldown_cmark::Event::Start(tag) => MdEvent::Start(read_tag(tag)),
        pulldown_cmark::Event::End(end) => MdEvent::End(*end),
        pulldown_cmark::Event::Text(text) => MdEvent::Text(cow_to_string(text)),
        pulldown_cmark::Event::Code(text) => MdEvent::Code(cow_to_string(text)),
        pulldown_cmark::Event::InlineMath(text) => MdEvent::InlineMath(cow_to_string(text)),
        pulldown_cmark::Event::DisplayMath(text) => MdEvent::DisplayMath(cow_to_string(text)),
        pulldown_cmark::Event::Html(text) => MdEvent::Html(cow_to_string(text)),
        pulldown_cmark::Event::InlineHtml(text) => MdEvent::InlineHtml(cow_to_string(text)),
        pulldown_cmark::Event::FootnoteReference(text) => MdEvent::FootnoteReference(cow_to_string(text)),
        pulldown_cmark::Event::SoftBreak => MdEvent::SoftBreak,
        pulldown_cmark::Event::HardBreak => MdEvent::HardBreak,
        pulldown_cmark::Event::Rule => MdEvent::Rule,
        pulldown_cmark::Event::TaskListMarker(checked) => MdEvent::TaskListMarker(*checked),
    }
}

/// The parser's tag that stands for a tag.
fn write_tag(tag: DocTag) -> (written: pulldown_cmark::Tag<'static>)
    ensures
        tag_of(written) == without_width(tag@),
        is_told_tag(written),
{
    match tag {
        MdTag::Paragraph => pulldown_cmark::Tag::Paragraph,
        MdTag::Heading { level, id } => pulldown_cmark::Tag::Heading {
            level,
            id: opt_string_to_cow(id),
            classes: Vec::new(),
            attrs: Vec::new(),
        },
        MdTag::BlockQuote(value) => pulldown_cmark::Tag::BlockQuote(value),
        MdTag::CodeBlock(None) => pulldown_cmark::Tag::CodeBlock(
            pulldown_cmark::CodeBlockKind::Indented,
        ),
        MdTag::CodeBlock(Some(info)) => pulldown_cmark::Tag::CodeBlock(
            pulldown_cmark::CodeBlockKind::Fenced(string_to_cow(info)),
        ),
        MdTag::HtmlBlock => pulldown_cmark::Tag::HtmlBlock,
        MdTag::List(value) => pulldown_cmark::Tag::List(value),
        MdTag::Item => pulldown_cmark::Tag::Item,
        MdTag::FootnoteDefinition(name) => pulldown_cmark::Tag::FootnoteDefinition(
            string_to_cow(name),
        ),
        MdTag::DefinitionList => pulldown_cmark::Tag::DefinitionList,
        MdTag::DefinitionListTitle => pulldown_cmark::Tag::DefinitionListTitle,
        MdTag::DefinitionListDefinition => pulldown_cmark::Tag::DefinitionListDefinition,
        MdTag::Table(alignments) => pulldown_cmark::Tag::Table(alignments),
        MdTag::TableHead => pulldown_cmark::Tag::TableHead,
        MdTag::TableRow => pulldown_cmark::Tag::TableRow,
        MdTag::TableCell => pulldown_cmark::Tag::TableCell,
        MdTag::Emphasis => pulldown_cmark::Tag::Emphasis,
        MdTag::Strong => pulldown_cmark::Tag::Strong,
        MdTag::Strikethrough => pulldown_cmark::Tag::Strikethrough,
        MdTag::Superscript => pulldown_cmark::Tag::Superscript,
        MdTag::Subscript => pulldown_cmark::Tag::Subscript,
        MdTag::Link { link_type, dest_url, title, id } => pulldown_cmark::Tag::Link {
            link_type,
            dest_url: string_to_cow(dest_url),
            title: string_to_cow(title),
            id: string_to_cow(id),
        },
        MdTag::Image { link_type, dest_url, title, id, width: _ } => pulldown_cmark::Tag::Image {
            link_type,
            dest_url: string_to_cow(dest_url),
            title: string_to_cow(title),
            id: string_to_cow(id),
        },
        MdTag::MetadataBlock(value) => pulldown_cmark::Tag::MetadataBlock(value),
    }
}

/// The parser's event that stands for an event.
fn write_event(event: DocEvent) -> (written: pulldown_cmark::Event<'static>)
    ensures
        event_of(written) == writable(event@),
        is_told(written),
{
    match event {
        MdEvent::Start(tag) => pulldown_cmark::Event::Start(write_tag(tag)),
        MdEvent::End(end) => pulldown_cmark::Event::End(end),
        MdEvent::Text(text) => pulldown_cmark::Event::Text(string_to_cow(text)),
        MdEvent::Code(text) => pulldown_cmark::Event::Code(string_to_cow(text)),
        MdEvent::InlineMath(text) => pulldown_cmark::Event::InlineMath(string_to_cow(text)),
        MdEvent::DisplayMath(text) => pulldown_cmark::Event::DisplayMath(string_to_cow(text)),
        MdEvent::Html(text) => pulldown_cmark::Event::Html(string_to_cow(text)),
        MdEvent::InlineHtml(text) => pulldown_cmark::Event::InlineHtml(string_to_cow(text)),
        MdEvent::FootnoteReference(text) => pulldown_cmark::Event::FootnoteReference(string_to_cow(text)),
        MdEvent::SoftBreak => pulldown_cmark::Event::SoftBreak,
        MdEvent::HardBreak => pulldown_cmark::Event::HardBreak,
        MdEvent::Rule => pulldown_cmark::Event::Rule,
        MdEvent::TaskListMarker(checked) => pulldown_cmark::Event::TaskListMarker(checked),
    }
}

/// The events of a Markdown text and the byte range of the source each comes from.
pub fn events(text: &str, extensions: u32) -> (events: Vec<(DocEvent, Range<usize>)>)
    ensures
        located(events@) == parsed(text@, extensions),
{
    let read = parse_events(text, extensions);
    let mut events: Vec<(DocEvent, Range<usize>)> = Vec::new();
    for i in 0..read.len()
        invariant
            located(events@) == events_of(read@.take(i as int)),
    {
        let item = (read_event(&read[i].0), read[i].1.start..read[i].1.end);
        proof {
            assert(events_of(read@.take(i + 1)) =~= events_of(read@.take(i as int)).push(
                (event_of(read@[i as int].0), read@[i as int].1),
            ));
            assert(located(events@.push(item)) =~= located(events@).push((item.0@, item.1)));
        }
        events.push(item);
    }
    proof {
        assert(read@.take(read@.len() as int) =~= read@);
    }
    events
}

/// The link definitions of a Markdown text: label, address and maybe a title, in any order.
pub fn definitions(text: &str, extensions: u32) -> (definitions: Vec<
    (String, String, Option<String>),
>)
    ensures
        definition_views(definitions@).to_multiset() == link_definitions(text@, extensions),
{
    parse_definitions(text, extensions)
}

/// The HTML of a document's events.
pub fn html(events: Vec<DocEvent>) -> (html: String)
    ensures
        html@ == pushed_html(views(events@).map_values(|event: EventView| writable(event))),
{
    let ghost all = views(events@).map_values(|event: EventView| writable(event));
    let mut rest = events;
    let mut reversed: Vec<pulldown_cmark::Event<'static>> = Vec::new();
    let ghost total = rest@;
    while rest.len() > 0
        invariant
            rest@.len() + reversed@.len() == total.len(),
            rest@ == total.take(rest@.len() as int),
            forall|i: int|
                0 <= i < reversed@.len() ==> is_told(#[trigger] reversed@[i]) && event_of(
                    reversed@[i],
                ) == writable(total[total.len() - 1 - i]@),
        decreases rest@.len(),
    {
        match rest.pop() {
            Some(event) => {
                reversed.push(write_event(event));
            },
            None => {},
        }
    }
    let mut written: Vec<pulldown_cmark::Event<'static>> = Vec::new();
    while reversed.len() > 0
        invariant
            reversed@.len() + written@.len() == total.len(),
            forall|i: int|
                0 <= i < reversed@.len() ==> is_told(#[trigger] reversed@[i]) && event_of(
                    reversed@[i],
                ) == writable(total[total.len() - 1 - i]@),
            forall|i: int|
                0 <= i < written@.len() ==> is_told(#[trigger] written@[i]) && event_of(
                    written@[i],
                ) == writable(total[i]@),
        decreases reversed@.len(),
    {
        match reversed.pop() {
            Some(event) => {
                written.push(event);
            },
            None => {},
        }
    }
    proof {
        assert(written@.map_values(|event: pulldown_cmark::Event<'_>| event_of(event)) =~= all);
    }
    push_html(written)
}

}
