//! A Markdown document as a sequence of events, with owned text.

use pulldown_cmark::{Alignment, BlockQuoteKind, HeadingLevel, LinkType, MetadataBlockKind, TagEnd};
use vstd::prelude::*;

verus! {

/// Declares the parser's column alignments.
#[verifier::external_type_specification]
pub struct ExAlignment(pulldown_cmark::Alignment);

/// Declares the parser's kinds of alert.
#[verifier::external_type_specification]
pub struct ExBlockQuoteKind(pulldown_cmark::BlockQuoteKind);

/// Declares the parser's heading levels.
#[verifier::external_type_specification]
pub struct ExHeadingLevel(pulldown_cmark::HeadingLevel);

/// Declares the parser's kinds of link.
#[verifier::external_type_specification]
pub struct ExLinkType(pulldown_cmark::LinkType);

/// Declares the parser's kinds of front matter.
#[verifier::external_type_specification]
pub struct ExMetadataBlockKind(pulldown_cmark::MetadataBlockKind);

/// Declares the parser's end tags.
#[verifier::external_type_specification]
pub struct ExTagEnd(pulldown_cmark::TagEnd);

/// What a start event opens, over a type of text `S` and of column alignments `A`: owned in
/// a document, sequences in a contract.
#[allow(inconsistent_fields)]
#[derive(Debug, PartialEq)]
pub enum MdTag<S, A> {
    Paragraph,
    Heading { level: HeadingLevel, id: Option<S> },
    BlockQuote(Option<BlockQuoteKind>),
    /// A fenced code block and its info string, or an indented one.
    CodeBlock(Option<S>),
    HtmlBlock,
    List(Option<u64>),
    Item,
    FootnoteDefinition(S),
    DefinitionList,
    DefinitionListTitle,
    DefinitionListDefinition,
    Table(A),
    TableHead,
    TableRow,
    TableCell,
    Emphasis,
    Strong,
    Strikethrough,
    Superscript,
    Subscript,
    Link { link_type: LinkType, dest_url: S, title: S, id: S },
    /// An image, and the width in pixels it is to have if the document gives one.
    Image { link_type: LinkType, dest_url: S, title: S, id: S, width: Option<i32> },
    MetadataBlock(MetadataBlockKind),
}

/// One step through a document, over the same types as [`MdTag`].
#[derive(Debug, PartialEq)]
pub enum MdEvent<S, A> {
    Start(MdTag<S, A>),
    End(TagEnd),
    Text(S),
    Code(S),
    InlineMath(S),
    DisplayMath(S),
    Html(S),
    InlineHtml(S),
    FootnoteReference(S),
    SoftBreak,
    HardBreak,
    Rule,
    TaskListMarker(bool),
}

/// A tag of a document.
pub type DocTag = MdTag<String, Vec<Alignment>>;

/// A tag as contracts speak of it.
pub type TagView = MdTag<Seq<char>, Seq<Alignment>>;

/// An event of a document.
pub type DocEvent = MdEvent<String, Vec<Alignment>>;

/// An event as contracts speak of it.
pub type EventView = MdEvent<Seq<char>, Seq<Alignment>>;

/// The characters of a text that may be missing.
pub open spec fn opt_view(text: Option<String>) -> Option<Seq<char>> {
    match text {
        Some(text) => Some(text@),
        None => None,
    }
}

impl View for MdTag<String, Vec<Alignment>> {
    type V = TagView;

    open spec fn view(&self) -> TagView {
        match *self {
            MdTag::Paragraph => MdTag::Paragraph,
            MdTag::Heading { level, id } => MdTag::Heading { level, id: opt_view(id) },
            MdTag::BlockQuote(kind) => MdTag::BlockQuote(kind),
            MdTag::CodeBlock(info) => MdTag::CodeBlock(opt_view(info)),
            MdTag::HtmlBlock => MdTag::HtmlBlock,
            MdTag::List(first) => MdTag::List(first),
            MdTag::Item => MdTag::Item,
            MdTag::FootnoteDefinition(name) => MdTag::FootnoteDefinition(name@),
            MdTag::DefinitionList => MdTag::DefinitionList,
            MdTag::DefinitionListTitle => MdTag::DefinitionListTitle,
            MdTag::DefinitionListDefinition => MdTag::DefinitionListDefinition,
            MdTag::Table(alignments) => MdTag::Table(alignments@),
            MdTag::TableHead => MdTag::TableHead,
            MdTag::TableRow => MdTag::TableRow,
            MdTag::TableCell => MdTag::TableCell,
            MdTag::Emphasis => MdTag::Emphasis,
            MdTag::Strong => MdTag::Strong,
            MdTag::Strikethrough => MdTag::Strikethrough,
            MdTag::Superscript => MdTag::Superscript,
            MdTag::Subscript => MdTag::Subscript,
            MdTag::Link { link_type, dest_url, title, id } => MdTag::Link {
                link_type,
                dest_url: dest_url@,
                title: title@,
                id: id@,
            },
            MdTag::Image { link_type, dest_url, title, id, width } => MdTag::Image {
                link_type,
                dest_url: dest_url@,
                title: title@,
                id: id@,
                width,
            },
            MdTag::MetadataBlock(kind) => MdTag::MetadataBlock(kind),
        }
    }
}

impl View for MdEvent<String, Vec<Alignment>> {
    type V = EventView;

    open spec fn view(&self) -> EventView {
        match *self {
            MdEvent::Start(tag) => MdEvent::Start(tag@),
            MdEvent::End(end) => MdEvent::End(end),
            MdEvent::Text(text) => MdEvent::Text(text@),
            MdEvent::Code(text) => MdEvent::Code(text@),
            MdEvent::InlineMath(text) => MdEvent::InlineMath(text@),
            MdEvent::DisplayMath(text) => MdEvent::DisplayMath(text@),
            MdEvent::Html(text) => MdEvent::Html(text@),
            MdEvent::InlineHtml(text) => MdEvent::InlineHtml(text@),
            MdEvent::FootnoteReference(name) => MdEvent::FootnoteReference(name@),
            MdEvent::SoftBreak => MdEvent::SoftBreak,
            MdEvent::HardBreak => MdEvent::HardBreak,
            MdEvent::Rule => MdEvent::Rule,
            MdEvent::TaskListMarker(checked) => MdEvent::TaskListMarker(checked),
        }
    }
}

/// The events of a document as contracts speak of them.
pub open spec fn views(events: Seq<DocEvent>) -> Seq<EventView> {
    events.map_values(|event: DocEvent| event@)
}

/// A copy of a text that may be missing.
pub fn copy_opt(text: &Option<String>) -> (copy: Option<String>)
    ensures
        opt_view(copy) == opt_view(*text),
{
    match text {
        Some(text) => Some(text.clone()),
        None => None,
    }
}

/// A copy of column alignments.
pub fn copy_alignments(alignments: &Vec<Alignment>) -> (copy: Vec<Alignment>)
    ensures
        copy@ == alignments@,
{
    let mut copy: Vec<Alignment> = Vec::new();
    for i in 0..alignments.len()
        invariant
            copy@ == alignments@.take(i as int),
    {
        proof {
            assert(alignments@.take(i + 1) =~= alignments@.take(i as int).push(
                alignments@[i as int],
            ));
        }
        copy.push(alignments[i]);
    }
    proof {
        assert(alignments@.take(alignments@.len() as int) =~= alignments@);
    }
    copy
}

/// A copy of a tag.
pub fn copy_tag(tag: &DocTag) -> (copy: DocTag)
    ensures
        copy@ == tag@,
{
    match tag {
        MdTag::Paragraph => MdTag::Paragraph,
        MdTag::Heading { level, id } => MdTag::Heading { level: *level, id: copy_opt(id) },
        MdTag::BlockQuote(kind) => MdTag::BlockQuote(*kind),
        MdTag::CodeBlock(info) => MdTag::CodeBlock(copy_opt(info)),
        MdTag::HtmlBlock => MdTag::HtmlBlock,
        MdTag::List(first) => MdTag::List(*first),
        MdTag::Item => MdTag::Item,
        MdTag::FootnoteDefinition(name) => MdTag::FootnoteDefinition(name.clone()),
        MdTag::DefinitionList => MdTag::DefinitionList,
        MdTag::DefinitionListTitle => MdTag::DefinitionListTitle,
        MdTag::DefinitionListDefinition => MdTag::DefinitionListDefinition,
        MdTag::Table(alignments) => MdTag::Table(copy_alignments(alignments)),
        MdTag::TableHead => MdTag::TableHead,
        MdTag::TableRow => MdTag::TableRow,
        MdTag::TableCell => MdTag::TableCell,
        MdTag::Emphasis => MdTag::Emphasis,
        MdTag::Strong => MdTag::Strong,
        MdTag::Strikethrough => MdTag::Strikethrough,
        MdTag::Superscript => MdTag::Superscript,
        MdTag::Subscript => MdTag::Subscript,
        MdTag::Link { link_type, dest_url, title, id } => MdTag::Link {
            link_type: *link_type,
            dest_url: dest_url.clone(),
            title: title.clone(),
            id: id.clone(),
        },
        MdTag::Image { link_type, dest_url, title, id, width } => MdTag::Image {
            link_type: *link_type,
            dest_url: dest_url.clone(),
            title: title.clone(),
            id: id.clone(),
            width: *width,
        },
        MdTag::MetadataBlock(kind) => MdTag::MetadataBlock(*kind),
    }
}

/// A copy of an event.
pub fn copy_event(event: &DocEvent) -> (copy: DocEvent)
    ensures
        copy@ == event@,
{
    match event {
        MdEvent::Start(tag) => MdEvent::Start(copy_tag(tag)),
        MdEvent::End(end) => MdEvent::End(*end),
        MdEvent::Text(text) => MdEvent::Text(text.clone()),
        MdEvent::Code(text) => MdEvent::Code(text.clone()),
        MdEvent::InlineMath(text) => MdEvent::InlineMath(text.clone()),
        MdEvent::DisplayMath(text) => MdEvent::DisplayMath(text.clone()),
        MdEvent::Html(text) => MdEvent::Html(text.clone()),
        MdEvent::InlineHtml(text) => MdEvent::InlineHtml(text.clone()),
        MdEvent::FootnoteReference(name) => MdEvent::FootnoteReference(name.clone()),
        MdEvent::SoftBreak => MdEvent::SoftBreak,
        MdEvent::HardBreak => MdEvent::HardBreak,
        MdEvent::Rule => MdEvent::Rule,
        MdEvent::TaskListMarker(checked) => MdEvent::TaskListMarker(*checked),
    }
}

}
