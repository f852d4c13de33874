//! What the preview says, and how its text is shown, told from the events of the document.

use crate::around::rank;
use crate::event::{EventView, MdEvent, MdTag, TagView};
use crate::html::{parts_of, HtmlPart, HtmlStyle, PartView};
use crate::preview::{
    kept_tags, lists_after_item, preview_start, rendered, resolved_at, tag_of_style,
    without_innermost, Alert, PreviewView, Resolved, TextTag,
};
use pulldown_cmark::{BlockQuoteKind, TagEnd};
use vstd::prelude::*;

verus! {

/// What is written out: text, the code of a code block, or the cells of a table.
pub enum Stretch {
    Text,
    Code,
    Table,
}

/// What the events from `start` up to `n` leave being written: a code block or a table that
/// started and did not end, and text outside both.
pub open spec fn stretch_at(events: Seq<EventView>, start: int, n: int) -> Stretch
    decreases n - start,
{
    if n <= start {
        Stretch::Text
    } else {
        match stretch_at(events, start, n - 1) {
            Stretch::Text => match events[n - 1] {
                MdEvent::Start(MdTag::CodeBlock(_)) => Stretch::Code,
                MdEvent::Start(MdTag::Table(_)) => Stretch::Table,
                _ => Stretch::Text,
            },
            Stretch::Code => if events[n - 1] == EventView::End(TagEnd::CodeBlock) {
                Stretch::Text
            } else {
                Stretch::Code
            },
            Stretch::Table => if events[n - 1] == EventView::End(TagEnd::Table) {
                Stretch::Text
            } else {
                Stretch::Table
            },
        }
    }
}

/// Whether an image is open after the events from `start` up to `n`.
pub open spec fn in_image(events: Seq<EventView>, start: int, n: int) -> bool
    decreases n - start,
{
    if n <= start {
        false
    } else if !(stretch_at(events, start, n - 1) is Text) {
        in_image(events, start, n - 1)
    } else {
        match events[n - 1] {
            MdEvent::Start(MdTag::Image { .. }) => true,
            MdEvent::End(TagEnd::Image) => false,
            _ => in_image(events, start, n - 1),
        }
    }
}

/// One more where `more` holds.
pub open spec fn raised(count: nat, more: bool) -> nat {
    if more {
        count + 1
    } else {
        count
    }
}

/// One fewer where `less` holds and there are any.
pub open spec fn lowered_by(count: nat, less: bool) -> nat {
    if less && count > 0 {
        (count - 1) as nat
    } else {
        count
    }
}

/// How often a style is open after the first `n` parts of raw HTML, if it was `count` times
/// before them.
pub open spec fn styled_by_parts(count: nat, parts: Seq<PartView>, n: int, style: HtmlStyle) -> nat
    decreases n,
{
    if n <= 0 {
        count
    } else {
        let before = styled_by_parts(count, parts, n - 1, style);
        match parts[n - 1] {
            HtmlPart::StyleStart(other) => raised(before, other == style),
            HtmlPart::StyleEnd(other) => lowered_by(before, other == style),
            _ => before,
        }
    }
}

/// How often a style is open after the events from `start` up to `n`, outside code blocks and
/// tables: how many strong texts and titles, emphases and struck out texts started and did not
/// end, and how many tags of raw HTML that style text so.
pub open spec fn styled(events: Seq<EventView>, start: int, n: int, style: HtmlStyle) -> nat
    decreases n - start,
{
    if n <= start {
        0
    } else {
        let before = styled(events, start, n - 1, style);
        if !(stretch_at(events, start, n - 1) is Text) {
            before
        } else {
            match events[n - 1] {
                MdEvent::Start(MdTag::Strong) => raised(before, style is Bold),
                MdEvent::End(TagEnd::Strong) => lowered_by(before, style is Bold),
                MdEvent::Start(MdTag::DefinitionListTitle) => raised(before, style is Bold),
                MdEvent::End(TagEnd::DefinitionListTitle) => lowered_by(before, style is Bold),
                MdEvent::Start(MdTag::Emphasis) => raised(before, style is Italic),
                MdEvent::End(TagEnd::Emphasis) => lowered_by(before, style is Italic),
                MdEvent::Start(MdTag::Strikethrough) => raised(before, style is Strikethrough),
                MdEvent::End(TagEnd::Strikethrough) => lowered_by(before, style is Strikethrough),
                MdEvent::Html(html) => styled_by_parts(
                    before,
                    parts_of(html),
                    parts_of(html).len() as int,
                    style,
                ),
                MdEvent::InlineHtml(html) => styled_by_parts(
                    before,
                    parts_of(html),
                    parts_of(html).len() as int,
                    style,
                ),
                _ => before,
            }
        }
    }
}

/// How many links are open after the events from `start` up to `n`, outside code blocks and
/// tables.
pub open spec fn linked_around(events: Seq<EventView>, start: int, n: int) -> nat
    decreases n - start,
{
    if n <= start {
        0
    } else {
        let before = linked_around(events, start, n - 1);
        if !(stretch_at(events, start, n - 1) is Text) {
            before
        } else {
            match events[n - 1] {
                MdEvent::Start(MdTag::Link { .. }) => before + 1,
                MdEvent::End(TagEnd::Link) => lowered_by(before, true),
                _ => before,
            }
        }
    }
}

/// How many quotes are open after the events from `start` up to `n`, outside code blocks and
/// tables.
pub open spec fn quoted(events: Seq<EventView>, start: int, n: int) -> nat
    decreases n - start,
{
    if n <= start {
        0
    } else {
        let before = quoted(events, start, n - 1);
        if !(stretch_at(events, start, n - 1) is Text) {
            before
        } else {
            match events[n - 1] {
                MdEvent::Start(MdTag::BlockQuote(_)) => before + 1,
                MdEvent::End(TagEnd::BlockQuote(_)) => lowered_by(before, true),
                _ => before,
            }
        }
    }
}

/// How many lists are open after the events from `start` up to `n`, outside code blocks and
/// tables.
pub open spec fn listed(events: Seq<EventView>, start: int, n: int) -> nat
    decreases n - start,
{
    if n <= start {
        0
    } else {
        let before = listed(events, start, n - 1);
        if !(stretch_at(events, start, n - 1) is Text) {
            before
        } else {
            match events[n - 1] {
                MdEvent::Start(MdTag::List(_)) => before + 1,
                MdEvent::End(TagEnd::List(_)) => lowered_by(before, true),
                _ => before,
            }
        }
    }
}

/// Whether a heading that shows as one of level `level`, which is one of the first three or any
/// lower one, started after the last heading or paragraph that ended.
pub open spec fn headed(events: Seq<EventView>, start: int, n: int, level: int) -> bool
    decreases n - start,
{
    if n <= start {
        false
    } else {
        let before = headed(events, start, n - 1, level);
        if !(stretch_at(events, start, n - 1) is Text) {
            before
        } else {
            match events[n - 1] {
                MdEvent::Start(MdTag::Heading { level: other, .. }) => before || level == if rank(
                    other,
                ) < 4 {
                    rank(other)
                } else {
                    4
                },
                MdEvent::End(TagEnd::Heading(_)) | MdEvent::End(TagEnd::Paragraph) => false,
                _ => before,
            }
        }
    }
}

/// Whether an alert of a kind started after the last heading or paragraph that ended: its title
/// is being written.
pub open spec fn titled(events: Seq<EventView>, start: int, n: int, kind: BlockQuoteKind) -> bool
    decreases n - start,
{
    if n <= start {
        false
    } else {
        let before = titled(events, start, n - 1, kind);
        if !(stretch_at(events, start, n - 1) is Text) {
            before
        } else {
            match events[n - 1] {
                MdEvent::Start(MdTag::BlockQuote(other)) => before || other == Some(kind),
                MdEvent::End(TagEnd::Heading(_)) | MdEvent::End(TagEnd::Paragraph) => false,
                _ => before,
            }
        }
    }
}

/// How often a tag is among tags.
pub open spec fn number_of(tags: Seq<TextTag>, tag: TextTag) -> nat
    decreases tags.len(),
{
    if tags.len() == 0 {
        0
    } else {
        raised(number_of(tags.drop_last(), tag), tags.last() == tag)
    }
}

/// A tag is among tags if it is there at least once.
proof fn numbers_tell(tags: Seq<TextTag>, tag: TextTag)
    ensures
        tags.contains(tag) <==> number_of(tags, tag) > 0,
    decreases tags.len(),
{
    if tags.len() > 0 {
        numbers_tell(tags.drop_last(), tag);
        if tags.contains(tag) && tags.last() != tag {
            let i = tags.index_of(tag);
            assert(tags.drop_last()[i] == tag);
        }
        if tags.drop_last().contains(tag) {
            let i = tags.drop_last().index_of(tag);
            assert(tags[i] == tag);
        }
        if tags.last() == tag {
            assert(tags[tags.len() - 1] == tag);
        }
    }
}

/// One more tag.
proof fn numbers_push(tags: Seq<TextTag>, more: TextTag, tag: TextTag)
    ensures
        number_of(tags.push(more), tag) == raised(number_of(tags, tag), more == tag),
{
    assert(tags.push(more).drop_last() =~= tags);
}

/// The innermost of a tag is gone.
proof fn numbers_without(tags: Seq<TextTag>, less: TextTag, tag: TextTag)
    ensures
        number_of(without_innermost(tags, less), tag) == lowered_by(
            number_of(tags, tag),
            less == tag,
        ),
    decreases tags.len(),
{
    if tags.len() > 0 && tags.last() != less {
        numbers_without(tags.drop_last(), less, tag);
        numbers_push(without_innermost(tags.drop_last(), less), tags.last(), tag);
        numbers_tell(tags.drop_last(), less);
    }
}

/// Every tag of a kind is gone.
proof fn numbers_kept(tags: Seq<TextTag>, gone: Option<TextTag>, tag: TextTag)
    ensures
        number_of(kept_tags(tags, gone), tag) == if crate::preview::is_kept(tag, gone) {
            number_of(tags, tag)
        } else {
            0
        },
    decreases tags.len(),
{
    reveal(Seq::filter);
    if tags.len() > 0 {
        numbers_kept(tags.drop_last(), gone, tag);
        let before = kept_tags(tags.drop_last(), gone);
        numbers_push(before, tags.last(), tag);
    }
}

/// Whether two renderings have the same open.
spec fn same_open(one: PreviewView, other: PreviewView) -> bool {
    &&& one.tags == other.tags
    &&& one.lists == other.lists
    &&& one.quotes == other.quotes
    &&& one.link_starts == other.link_starts
    &&& one.image is Some <==> other.image is Some
    &&& one.note == other.note
}

/// Parts of raw HTML in a cell change nothing but the cell.
proof fn cells_keep(state: PreviewView, parts: Seq<PartView>, n: int)
    ensures
        state.cell_html_parts(parts, n) == (PreviewView {
            cell: state.cell_html_parts(parts, n).cell,
            cell_open: state.cell_html_parts(parts, n).cell_open,
            ..state
        }),
    decreases n,
{
    if n > 0 {
        cells_keep(state, parts, n - 1);
    }
}

/// Code and cells leave what is open as it is.
proof fn blocks_keep(state: PreviewView, event: EventView, n: int, resolved: Resolved)
    ensures
        state.in_code && !state.in_table ==> {
            let next = state.step(event, n, resolved);
            &&& same_open(state, next)
            &&& !next.in_table
            &&& next.in_code <==> event != EventView::End(TagEnd::CodeBlock)
        },
        !state.in_code && state.in_table ==> {
            let next = state.step(event, n, resolved);
            &&& same_open(state, next)
            &&& !next.in_code
            &&& next.in_table <==> event != EventView::End(TagEnd::Table)
        },
{
    if !state.in_code && state.in_table {
        match event {
            MdEvent::Html(html) => cells_keep(state, parts_of(html), parts_of(html).len() as int),
            MdEvent::InlineHtml(html) => cells_keep(
                state,
                parts_of(html),
                parts_of(html).len() as int,
            ),
            _ => {},
        }
    }
}

/// What a start tag opens.
proof fn starts_open(state: PreviewView, tag: TagView, n: int, resolved: Resolved)
    ensures
        ({
            let next = state.start(tag, n, resolved);
            &&& next.in_code <==> state.in_code || tag is CodeBlock
            &&& next.in_table <==> state.in_table || tag is Table
            &&& next.image is Some <==> state.image is Some || tag is Image
            &&& next.tags == match tag {
                MdTag::Strong | MdTag::DefinitionListTitle => state.tags.push(TextTag::Bold),
                MdTag::Emphasis => state.tags.push(TextTag::Italic),
                MdTag::Strikethrough => state.tags.push(TextTag::Strikethrough),
                MdTag::Link { .. } => state.tags.push(TextTag::Link),
                MdTag::Heading { level, .. } => state.tags.push(
                    TextTag::Heading(
                        if rank(level) > 4 {
                            4
                        } else {
                            rank(level) as u8
                        },
                    ),
                ),
                MdTag::BlockQuote(None) => state.tags.push(
                    TextTag::Quote((state.quotes + 1) as usize),
                ),
                MdTag::BlockQuote(Some(kind)) => state.tags.push(
                    TextTag::Quote((state.quotes + 1) as usize),
                ).push(TextTag::Alert(Alert::of(kind))),
                MdTag::List(_) => state.tags.push(TextTag::List(state.lists.len() as usize)),
                _ => state.tags,
            }
            &&& next.quotes == state.quotes + if tag is BlockQuote {
                1int
            } else {
                0
            }
            &&& next.lists == match tag {
                MdTag::List(Some(first)) => state.lists.push(Some(first as u128)),
                MdTag::List(None) => state.lists.push(None),
                MdTag::Item => lists_after_item(state.lists),
                _ => state.lists,
            }
        }),
{
}

/// What an end tag shuts.
proof fn ends_shut(state: PreviewView, tag: TagEnd)
    ensures
        ({
            let next = state.end(tag);
            &&& next.in_code == state.in_code
            &&& next.in_table == state.in_table
            &&& next.image is Some <==> state.image is Some && !(tag is Image)
            &&& next.tags == match tag {
                TagEnd::Strong | TagEnd::DefinitionListTitle => without_innermost(
                    state.tags,
                    TextTag::Bold,
                ),
                TagEnd::Emphasis => without_innermost(state.tags, TextTag::Italic),
                TagEnd::Strikethrough => without_innermost(state.tags, TextTag::Strikethrough),
                TagEnd::Link => without_innermost(state.tags, TextTag::Link),
                TagEnd::Heading(_) | TagEnd::Paragraph => kept_tags(state.tags, None),
                TagEnd::BlockQuote(_) => kept_tags(
                    state.tags,
                    Some(TextTag::Quote(state.quotes as usize)),
                ),
                TagEnd::List(_) => kept_tags(
                    state.tags,
                    Some(
                        TextTag::List(
                            (if state.lists.len() > 0 {
                                state.lists.len() - 1
                            } else {
                                0
                            }) as usize,
                        ),
                    ),
                ),
                _ => state.tags,
            }
            &&& next.quotes == if tag is BlockQuote {
                if state.quotes > 0 {
                    state.quotes - 1
                } else {
                    0
                }
            } else {
                state.quotes
            }
            &&& next.lists == if tag is List && state.lists.len() > 0 {
                state.lists.drop_last()
            } else {
                state.lists
            }
        }),
{
    if tag is List {
        if state.lists.len() > 0 {
            assert(state.lists.take(state.lists.len() - 1) =~= state.lists.drop_last());
        } else {
            assert(state.lists.take(0) =~= state.lists);
        }
    }
}

/// What neither a tag nor raw HTML changes.
proof fn others_keep(state: PreviewView, event: EventView, n: int, resolved: Resolved)
    requires
        !state.in_code,
        !state.in_table,
        !(event is Start),
        !(event is End),
        !(event is Html),
        !(event is InlineHtml),
    ensures
        ({
            let next = state.step(event, n, resolved);
            &&& same_open(state, next)
            &&& !next.in_code
            &&& !next.in_table
        }),
{
}

/// Whether a tag is one that raw HTML neither starts nor ends but by its styles.
spec fn is_plain(tag: TextTag) -> bool {
    !(tag is Summary) && !(tag is Align)
}

/// A part of raw HTML starts and ends the styles it names, and no other tag.
proof fn parts_style(
    state: PreviewView,
    parts: Seq<PartView>,
    n: int,
    silent: bool,
    style: HtmlStyle,
    tag: TextTag,
)
    requires
        is_plain(tag),
        0 <= n <= parts.len(),
        tag == tag_of_style(style) || forall|other: HtmlStyle| tag != #[trigger] tag_of_style(
            other,
        ),
    ensures
        ({
            let next = state.say_parts(parts, n, silent);
            &&& number_of(next.tags, tag) == if tag == tag_of_style(style) {
                styled_by_parts(number_of(state.tags, tag), parts, n, style)
            } else {
                number_of(state.tags, tag)
            }
            &&& next.in_code == state.in_code
            &&& next.in_table == state.in_table
            &&& next.image is Some <==> state.image is Some
            &&& next.quotes == state.quotes
            &&& next.lists == state.lists
            &&& next.link_starts == state.link_starts
            &&& next.note == state.note
        }),
    decreases n,
{
    if n > 0 {
        parts_style(state, parts, n - 1, silent, style, tag);
        let before = state.say_parts(parts, n - 1, silent);
        let part = parts[n - 1];
        if !(silent && part is Text) {
            part_styles(before, part, style, tag);
        }
    }
}

/// The innermost block of raw HTML that ends keeps every tag but those of its alignment.
proof fn drops_keep(state: PreviewView, tag: TextTag)
    requires
        is_plain(tag),
    ensures
        ({
            let next = state.drop_html();
            &&& number_of(next.tags, tag) == number_of(state.tags, tag)
            &&& next.in_code == state.in_code
            &&& next.in_table == state.in_table
            &&& next.image == state.image
            &&& next.quotes == state.quotes
            &&& next.lists == state.lists
            &&& next.link_starts == state.link_starts
            &&& next.note == state.note
        }),
{
    match state.html.last().align {
        Some(align) => numbers_without(state.tags, TextTag::Align(align), tag),
        None => {},
    }
}

/// A part of raw HTML starts and ends the styles it names, and no other tag.
proof fn part_styles(state: PreviewView, part: PartView, style: HtmlStyle, tag: TextTag)
    requires
        is_plain(tag),
        tag == tag_of_style(style) || forall|other: HtmlStyle| tag != #[trigger] tag_of_style(
            other,
        ),
    ensures
        ({
            let next = state.say_part(part);
            let before = number_of(state.tags, tag);
            &&& number_of(next.tags, tag) == match part {
                HtmlPart::StyleStart(other) => raised(
                    before,
                    tag == tag_of_style(style) && other == style,
                ),
                HtmlPart::StyleEnd(other) => lowered_by(
                    before,
                    tag == tag_of_style(style) && other == style,
                ),
                _ => before,
            }
            &&& next.in_code == state.in_code
            &&& next.in_table == state.in_table
            &&& next.image is Some <==> state.image is Some
            &&& next.quotes == state.quotes
            &&& next.lists == state.lists
            &&& next.link_starts == state.link_starts
            &&& next.note == state.note
        }),
{
    match part {
        HtmlPart::StyleStart(other) => numbers_push(state.tags, tag_of_style(other), tag),
        HtmlPart::StyleEnd(other) => numbers_without(state.tags, tag_of_style(other), tag),
        HtmlPart::BlockStart(block) => {
            let line = state.start_line();
            drops_keep(line, tag);
            let around = if line.in_html_paragraph() {
                line.drop_html()
            } else {
                line
            };
            match block.align {
                Some(align) => numbers_push(around.tags, TextTag::Align(align), tag),
                None => {},
            }
        },
        HtmlPart::BlockEnd { paragraph } => {
            let line = state.start_line();
            drops_keep(line, tag);
            let around = if line.in_html_paragraph() {
                line.drop_html()
            } else {
                line
            };
            drops_keep(around, tag);
        },
        HtmlPart::SummaryStart => numbers_push(state.tags, TextTag::Summary, tag),
        HtmlPart::SummaryEnd => numbers_without(state.tags, TextTag::Summary, tag),
        _ => {},
    }
}

/// How often a tag is open after a start tag.
proof fn starts_number(state: PreviewView, start: TagView, n: int, resolved: Resolved, tag: TextTag)
    ensures
        number_of(state.start(start, n, resolved).tags, tag) == ({
            let before = number_of(state.tags, tag);
            match start {
                MdTag::Strong | MdTag::DefinitionListTitle => raised(before, tag is Bold),
                MdTag::Emphasis => raised(before, tag is Italic),
                MdTag::Strikethrough => raised(before, tag is Strikethrough),
                MdTag::Link { .. } => raised(before, tag is Link),
                MdTag::Heading { level, .. } => raised(
                    before,
                    tag == TextTag::Heading(
                        if rank(level) > 4 {
                            4
                        } else {
                            rank(level) as u8
                        },
                    ),
                ),
                MdTag::BlockQuote(None) => raised(
                    before,
                    tag == TextTag::Quote((state.quotes + 1) as usize),
                ),
                MdTag::BlockQuote(Some(kind)) => raised(
                    raised(before, tag == TextTag::Quote((state.quotes + 1) as usize)),
                    tag == TextTag::Alert(Alert::of(kind)),
                ),
                MdTag::List(_) => raised(
                    before,
                    tag == TextTag::List(state.lists.len() as usize),
                ),
                _ => before,
            }
        }),
{
    starts_open(state, start, n, resolved);
    let tags = state.tags;
    let next = state.start(start, n, resolved).tags;
    match start {
        MdTag::BlockQuote(Some(kind)) => {
            let quote = TextTag::Quote((state.quotes + 1) as usize);
            numbers_push(tags, quote, tag);
            numbers_push(tags.push(quote), TextTag::Alert(Alert::of(kind)), tag);
        },
        _ => {
            if next != tags {
                numbers_push(tags, next.last(), tag);
            }
        },
    }
}

/// How often a tag is open after an end tag.
proof fn ends_number(state: PreviewView, end: TagEnd, tag: TextTag)
    ensures
        number_of(state.end(end).tags, tag) == ({
            let before = number_of(state.tags, tag);
            match end {
                TagEnd::Strong | TagEnd::DefinitionListTitle => lowered_by(before, tag is Bold),
                TagEnd::Emphasis => lowered_by(before, tag is Italic),
                TagEnd::Strikethrough => lowered_by(before, tag is Strikethrough),
                TagEnd::Link => lowered_by(before, tag is Link),
                TagEnd::Heading(_) | TagEnd::Paragraph => if tag is Heading || tag is Alert {
                    0
                } else {
                    before
                },
                TagEnd::BlockQuote(_) => if tag == TextTag::Quote(state.quotes as usize) {
                    0
                } else {
                    before
                },
                TagEnd::List(_) => if tag == TextTag::List(
                    (if state.lists.len() > 0 {
                        state.lists.len() - 1
                    } else {
                        0
                    }) as usize,
                ) {
                    0
                } else {
                    before
                },
                _ => before,
            }
        }),
{
    ends_shut(state, end);
    let tags = state.tags;
    match end {
        TagEnd::Strong | TagEnd::DefinitionListTitle => numbers_without(tags, TextTag::Bold, tag),
        TagEnd::Emphasis => numbers_without(tags, TextTag::Italic, tag),
        TagEnd::Strikethrough => numbers_without(tags, TextTag::Strikethrough, tag),
        TagEnd::Link => numbers_without(tags, TextTag::Link, tag),
        TagEnd::Heading(_) | TagEnd::Paragraph => numbers_kept(tags, None, tag),
        TagEnd::BlockQuote(_) => numbers_kept(
            tags,
            Some(TextTag::Quote(state.quotes as usize)),
            tag,
        ),
        TagEnd::List(_) => numbers_kept(
            tags,
            Some(
                TextTag::List(
                    (if state.lists.len() > 0 {
                        state.lists.len() - 1
                    } else {
                        0
                    }) as usize,
                ),
            ),
            tag,
        ),
        _ => {},
    }
}

/// The rendering of the events from `start` up to `n`, after nothing or after a block.
#[verifier::opaque]
spec fn rendering(
    follows: bool,
    events: Seq<EventView>,
    resolved: Seq<Resolved>,
    start: int,
    n: int,
) -> PreviewView {
    rendered(preview_start(follows), events, resolved, start, n)
}

/// What is being written, and how many images, quotes and lists are open, is told by the events.
proof fn renderings_follow(
    follows: bool,
    events: Seq<EventView>,
    resolved: Seq<Resolved>,
    start: int,
    n: int,
)
    requires
        0 <= start <= n <= events.len(),
    ensures
        ({
            let state = rendering(follows, events, resolved, start, n);
            &&& state.in_code <==> stretch_at(events, start, n) is Code
            &&& state.in_table <==> stretch_at(events, start, n) is Table
            &&& state.image is Some <==> in_image(events, start, n)
            &&& state.quotes == quoted(events, start, n)
            &&& state.lists.len() == listed(events, start, n)
            &&& quoted(events, start, n) <= n - start
            &&& listed(events, start, n) <= n - start
        }),
    decreases n - start,
{
    reveal(rendering);
    if n > start {
        renderings_follow(follows, events, resolved, start, n - 1);
        let before = rendering(follows, events, resolved, start, n - 1);
        let event = events[n - 1];
        let shown = resolved_at(resolved, n - 1);
        if before.in_code || before.in_table {
            blocks_keep(before, event, n - 1, shown);
        } else {
            match event {
                MdEvent::Start(tag) => starts_open(before, tag, n - 1, shown),
                MdEvent::End(tag) => ends_shut(before, tag),
                MdEvent::Html(html) => parts_style(
                    before,
                    parts_of(html),
                    parts_of(html).len() as int,
                    crate::html::is_markup(html),
                    HtmlStyle::Bold,
                    TextTag::Bold,
                ),
                MdEvent::InlineHtml(html) => parts_style(
                    before,
                    parts_of(html),
                    parts_of(html).len() as int,
                    false,
                    HtmlStyle::Bold,
                    TextTag::Bold,
                ),
                _ => others_keep(before, event, n - 1, shown),
            }
        }
    }
}

/// How often a tag is open after one more event.
spec fn number_after(
    before: nat,
    event: EventView,
    quotes: nat,
    lists: nat,
    style: HtmlStyle,
    tag: TextTag,
) -> nat {
    let styles = tag == tag_of_style(style);
    match event {
        MdEvent::Start(start) => match start {
            MdTag::Strong | MdTag::DefinitionListTitle => raised(before, tag is Bold),
            MdTag::Emphasis => raised(before, tag is Italic),
            MdTag::Strikethrough => raised(before, tag is Strikethrough),
            MdTag::Link { .. } => raised(before, tag is Link),
            MdTag::Heading { level, .. } => raised(
                before,
                tag == TextTag::Heading(
                    if rank(level) > 4 {
                        4
                    } else {
                        rank(level) as u8
                    },
                ),
            ),
            MdTag::BlockQuote(None) => raised(before, tag == TextTag::Quote((quotes + 1) as usize)),
            MdTag::BlockQuote(Some(kind)) => raised(
                raised(before, tag == TextTag::Quote((quotes + 1) as usize)),
                tag == TextTag::Alert(Alert::of(kind)),
            ),
            MdTag::List(_) => raised(before, tag == TextTag::List(lists as usize)),
            _ => before,
        },
        MdEvent::End(end) => match end {
            TagEnd::Strong | TagEnd::DefinitionListTitle => lowered_by(before, tag is Bold),
            TagEnd::Emphasis => lowered_by(before, tag is Italic),
            TagEnd::Strikethrough => lowered_by(before, tag is Strikethrough),
            TagEnd::Link => lowered_by(before, tag is Link),
            TagEnd::Heading(_) | TagEnd::Paragraph => if tag is Heading || tag is Alert {
                0
            } else {
                before
            },
            TagEnd::BlockQuote(_) => if tag == TextTag::Quote(quotes as usize) {
                0
            } else {
                before
            },
            TagEnd::List(_) => if tag == TextTag::List(lowered_by(lists, true) as usize) {
                0
            } else {
                before
            },
            _ => before,
        },
        MdEvent::Html(html) if styles => styled_by_parts(
            before,
            parts_of(html),
            parts_of(html).len() as int,
            style,
        ),
        MdEvent::InlineHtml(html) if styles => styled_by_parts(
            before,
            parts_of(html),
            parts_of(html).len() as int,
            style,
        ),
        _ => before,
    }
}

/// How often a tag is open after one more event of a rendering.
proof fn renderings_number(
    follows: bool,
    events: Seq<EventView>,
    resolved: Seq<Resolved>,
    start: int,
    n: int,
    style: HtmlStyle,
    tag: TextTag,
)
    requires
        0 <= start <= n < events.len(),
        is_plain(tag),
        tag == tag_of_style(style) || forall|other: HtmlStyle| tag != #[trigger] tag_of_style(
            other,
        ),
    ensures
        number_of(rendering(follows, events, resolved, start, n + 1).tags, tag) == ({
            let before = number_of(rendering(follows, events, resolved, start, n).tags, tag);
            if stretch_at(events, start, n) is Text {
                number_after(
                    before,
                    events[n],
                    quoted(events, start, n),
                    listed(events, start, n),
                    style,
                    tag,
                )
            } else {
                before
            }
        }),
        number_of(rendering(follows, events, resolved, start, start).tags, tag) == 0,
{
    reveal(rendering);
    renderings_follow(follows, events, resolved, start, n);
    let before = rendering(follows, events, resolved, start, n);
    let event = events[n];
    let shown = resolved_at(resolved, n);
    assert(rendering(follows, events, resolved, start, n + 1) == before.step(event, n, shown));
    if before.in_code || before.in_table {
        blocks_keep(before, event, n, shown);
    } else {
        match event {
            MdEvent::Start(other) => starts_number(before, other, n, shown, tag),
            MdEvent::End(other) => ends_number(before, other, tag),
            MdEvent::Html(html) => parts_style(
                before,
                parts_of(html),
                parts_of(html).len() as int,
                crate::html::is_markup(html),
                style,
                tag,
            ),
            MdEvent::InlineHtml(html) => parts_style(
                before,
                parts_of(html),
                parts_of(html).len() as int,
                false,
                style,
                tag,
            ),
            _ => others_keep(before, event, n, shown),
        }
    }
}

/// Nothing is open where a rendering starts.
proof fn renderings_start_plain(
    follows: bool,
    events: Seq<EventView>,
    resolved: Seq<Resolved>,
    start: int,
    tag: TextTag,
)
    ensures
        number_of(rendering(follows, events, resolved, start, start).tags, tag) == 0,
{
    reveal(rendering);
}

/// The styles that are open are counted.
proof fn styles_are_counted(
    follows: bool,
    events: Seq<EventView>,
    resolved: Seq<Resolved>,
    start: int,
    n: int,
    style: HtmlStyle,
)
    requires
        0 <= start <= n <= events.len(),
    ensures
        number_of(rendering(follows, events, resolved, start, n).tags, tag_of_style(style))
            == styled(events, start, n, style),
    decreases n - start,
{
    let tag = tag_of_style(style);
    if n > start {
        styles_are_counted(follows, events, resolved, start, n - 1, style);
        renderings_number(follows, events, resolved, start, n - 1, style, tag);
    } else {
        renderings_start_plain(follows, events, resolved, start, tag);
    }
}

/// The links that are open are counted.
proof fn links_are_counted(
    follows: bool,
    events: Seq<EventView>,
    resolved: Seq<Resolved>,
    start: int,
    n: int,
)
    requires
        0 <= start <= n <= events.len(),
    ensures
        number_of(rendering(follows, events, resolved, start, n).tags, TextTag::Link)
            == linked_around(events, start, n),
    decreases n - start,
{
    if n > start {
        links_are_counted(follows, events, resolved, start, n - 1);
        renderings_number(
            follows,
            events,
            resolved,
            start,
            n - 1,
            HtmlStyle::Bold,
            TextTag::Link,
        );
    } else {
        renderings_start_plain(follows, events, resolved, start, TextTag::Link);
    }
}

/// Each quote that is open is there once.
proof fn quotes_are_counted(
    follows: bool,
    events: Seq<EventView>,
    resolved: Seq<Resolved>,
    start: int,
    n: int,
    depth: usize,
)
    requires
        0 <= start <= n <= events.len() < usize::MAX,
    ensures
        number_of(rendering(follows, events, resolved, start, n).tags, TextTag::Quote(depth))
            == if 1 <= depth <= quoted(events, start, n) {
            1nat
        } else {
            0
        },
    decreases n - start,
{
    let tag = TextTag::Quote(depth);
    if n > start {
        quotes_are_counted(follows, events, resolved, start, n - 1, depth);
        renderings_number(follows, events, resolved, start, n - 1, HtmlStyle::Bold, tag);
        renderings_follow(follows, events, resolved, start, n - 1);
    } else {
        renderings_start_plain(follows, events, resolved, start, tag);
    }
}

/// Each list that is open is there once.
proof fn lists_are_counted(
    follows: bool,
    events: Seq<EventView>,
    resolved: Seq<Resolved>,
    start: int,
    n: int,
    depth: usize,
)
    requires
        0 <= start <= n <= events.len() < usize::MAX,
    ensures
        number_of(rendering(follows, events, resolved, start, n).tags, TextTag::List(depth))
            == if depth < listed(events, start, n) {
            1nat
        } else {
            0
        },
    decreases n - start,
{
    let tag = TextTag::List(depth);
    if n > start {
        lists_are_counted(follows, events, resolved, start, n - 1, depth);
        renderings_number(follows, events, resolved, start, n - 1, HtmlStyle::Bold, tag);
        renderings_follow(follows, events, resolved, start, n - 1);
    } else {
        renderings_start_plain(follows, events, resolved, start, tag);
    }
}

/// A heading is open as long as its text is written.
proof fn headings_are_counted(
    follows: bool,
    events: Seq<EventView>,
    resolved: Seq<Resolved>,
    start: int,
    n: int,
    level: u8,
)
    requires
        0 <= start <= n <= events.len(),
    ensures
        number_of(rendering(follows, events, resolved, start, n).tags, TextTag::Heading(level)) > 0
            <==> headed(events, start, n, level as int),
    decreases n - start,
{
    let tag = TextTag::Heading(level);
    if n > start {
        headings_are_counted(follows, events, resolved, start, n - 1, level);
        renderings_number(follows, events, resolved, start, n - 1, HtmlStyle::Bold, tag);
    } else {
        renderings_start_plain(follows, events, resolved, start, tag);
    }
}

/// The kind of an alert.
pub open spec fn alert_of(kind: BlockQuoteKind) -> Alert {
    match kind {
        BlockQuoteKind::Note => Alert::Note,
        BlockQuoteKind::Tip => Alert::Tip,
        BlockQuoteKind::Important => Alert::Important,
        BlockQuoteKind::Warning => Alert::Warning,
        BlockQuoteKind::Caution => Alert::Caution,
    }
}

/// The title of an alert is open as long as it is written.
proof fn alerts_are_counted(
    follows: bool,
    events: Seq<EventView>,
    resolved: Seq<Resolved>,
    start: int,
    n: int,
    kind: BlockQuoteKind,
)
    requires
        0 <= start <= n <= events.len(),
    ensures
        number_of(
            rendering(follows, events, resolved, start, n).tags,
            TextTag::Alert(alert_of(kind)),
        ) > 0 <==> titled(events, start, n, kind),
    decreases n - start,
{
    let tag = TextTag::Alert(alert_of(kind));
    if n > start {
        alerts_are_counted(follows, events, resolved, start, n - 1, kind);
        renderings_number(follows, events, resolved, start, n - 1, HtmlStyle::Bold, tag);
    } else {
        renderings_start_plain(follows, events, resolved, start, tag);
    }
}

/// Whether one rendering is the start of another: what it says and how, and the widgets, links
/// and places in it.
pub open spec fn goes_on(one: PreviewView, other: PreviewView) -> bool {
    &&& one.origin == other.origin
    &&& one.text.is_prefix_of(other.text)
    &&& one.spans.is_prefix_of(other.spans)
    &&& one.widgets.is_prefix_of(other.widgets)
    &&& one.links.is_prefix_of(other.links)
    &&& one.places.is_prefix_of(other.places)
    &&& one.alts.is_prefix_of(other.alts)
}

/// What goes on as what goes on as a third goes on as that.
proof fn goings_on_add(one: PreviewView, other: PreviewView, third: PreviewView)
    requires
        goes_on(one, other),
        goes_on(other, third),
    ensures
        goes_on(one, third),
{
    assert(third.text.take(one.text.len() as int) =~= other.text.take(one.text.len() as int));
    assert(third.spans.take(one.spans.len() as int) =~= other.spans.take(one.spans.len() as int));
    assert(third.widgets.take(one.widgets.len() as int) =~= other.widgets.take(
        one.widgets.len() as int,
    ));
    assert(third.links.take(one.links.len() as int) =~= other.links.take(one.links.len() as int));
    assert(third.places.take(one.places.len() as int) =~= other.places.take(
        one.places.len() as int,
    ));
    assert(third.alts.take(one.alts.len() as int) =~= other.alts.take(one.alts.len() as int));
}

/// Parts of raw HTML take nothing back.
proof fn parts_go_on(state: PreviewView, parts: Seq<PartView>, n: int, silent: bool)
    ensures
        goes_on(state, state.say_parts(parts, n, silent)),
    decreases n,
{
    if n > 0 {
        parts_go_on(state, parts, n - 1, silent);
        let before = state.say_parts(parts, n - 1, silent);
        let next = state.say_parts(parts, n, silent);
        assert(goes_on(before, next));
        goings_on_add(state, before, next);
    }
}

/// No start tag takes anything back.
proof fn starts_go_on(state: PreviewView, tag: TagView, n: int, resolved: Resolved)
    ensures
        goes_on(state, state.start(tag, n, resolved)),
{
}

/// No end tag takes anything back.
proof fn ends_go_on(state: PreviewView, tag: TagEnd)
    ensures
        goes_on(state, state.end(tag)),
{
}

/// No event of a code block or a table takes anything back.
proof fn blocks_go_on(state: PreviewView, event: EventView, n: int, resolved: Resolved)
    ensures
        goes_on(state, state.in_code_block(event)),
        goes_on(state, state.in_table_block(event, n, resolved)),
{
    match event {
        MdEvent::Html(html) => cells_keep(state, parts_of(html), parts_of(html).len() as int),
        MdEvent::InlineHtml(html) => cells_keep(state, parts_of(html), parts_of(html).len() as int),
        _ => {},
    }
}

/// No event takes anything back.
#[verifier::spinoff_prover]
proof fn steps_go_on(state: PreviewView, event: EventView, n: int, resolved: Resolved)
    ensures
        goes_on(state, state.step(event, n, resolved)),
{
    if state.in_code || state.in_table {
        blocks_go_on(state, event, n, resolved);
    } else {
        match event {
            MdEvent::Start(tag) => starts_go_on(state, tag, n, resolved),
            MdEvent::End(tag) => ends_go_on(state, tag),
            MdEvent::Html(html) => parts_go_on(
                state,
                parts_of(html),
                parts_of(html).len() as int,
                crate::html::is_markup(html),
            ),
            MdEvent::InlineHtml(html) => parts_go_on(
                state,
                parts_of(html),
                parts_of(html).len() as int,
                false,
            ),
            _ => {},
        }
    }
}

/// What is shown stays shown as the document is rendered on.
pub proof fn renderings_go_on(
    state: PreviewView,
    events: Seq<EventView>,
    resolved: Seq<Resolved>,
    start: int,
    a: int,
    b: int,
)
    requires
        start <= a <= b,
    ensures
        goes_on(
            rendered(state, events, resolved, start, a),
            rendered(state, events, resolved, start, b),
        ),
    decreases b - a,
{
    if a < b {
        renderings_go_on(state, events, resolved, start, a, b - 1);
        let first = rendered(state, events, resolved, start, a);
        let before = rendered(state, events, resolved, start, b - 1);
        let next = rendered(state, events, resolved, start, b);
        steps_go_on(before, events[b - 1], b - 1, resolved_at(resolved, b - 1));
        goings_on_add(first, before, next);
    }
}

/// Text outside code blocks, tables and images is said as it is written, in bold exactly if a
/// strong text, a title or a bold tag of raw HTML is open around it, in italics exactly if an
/// emphasis or an italic tag is, struck out exactly if a strikethrough or a struck tag is, and so
/// for every other style of raw HTML; as a link, in a quote, in a list, in a heading and in the
/// title of an alert exactly if one is open around it. Code is shown so, and as code.
pub proof fn text_is_shown_as_it_stands(
    follows: bool,
    events: Seq<EventView>,
    resolved: Seq<Resolved>,
    start: int,
    n: int,
    text: Seq<char>,
) -> (tags: Seq<TextTag>)
    requires
        0 <= start <= n < events.len() < usize::MAX,
        events[n] == EventView::Text(text) || events[n] == EventView::Code(text),
        stretch_at(events, start, n) is Text,
        !in_image(events, start, n),
    ensures
        ({
            let before = rendered(preview_start(follows), events, resolved, start, n);
            let after = rendered(preview_start(follows), events, resolved, start, n + 1);
            let at = before.text.len() - before.origin;
            &&& after.text == before.text + text
            &&& after.spans == before.spans.push((at, at + text.len(), tags))
            &&& after.widgets == before.widgets
            &&& after.links == before.links
        }),
        tags.contains(TextTag::Bold) <==> styled(events, start, n, HtmlStyle::Bold) > 0,
        tags.contains(TextTag::Italic) <==> styled(events, start, n, HtmlStyle::Italic) > 0,
        tags.contains(TextTag::Strikethrough) <==> styled(
            events,
            start,
            n,
            HtmlStyle::Strikethrough,
        ) > 0,
        tags.contains(TextTag::Underline) <==> styled(events, start, n, HtmlStyle::Underline) > 0,
        tags.contains(TextTag::Code) <==> events[n] is Code || styled(
            events,
            start,
            n,
            HtmlStyle::Code,
        ) > 0,
        tags.contains(TextTag::Keyboard) <==> styled(events, start, n, HtmlStyle::Keyboard) > 0,
        tags.contains(TextTag::Superscript) <==> styled(events, start, n, HtmlStyle::Superscript)
            > 0,
        tags.contains(TextTag::Subscript) <==> styled(events, start, n, HtmlStyle::Subscript) > 0,
        tags.contains(TextTag::Mark) <==> styled(events, start, n, HtmlStyle::Mark) > 0,
        tags.contains(TextTag::Link) <==> linked_around(events, start, n) > 0,
        forall|depth: usize| #[trigger]
            tags.contains(TextTag::Quote(depth)) <==> 1 <= depth <= quoted(events, start, n),
        forall|depth: usize| #[trigger]
            tags.contains(TextTag::List(depth)) <==> depth < listed(events, start, n),
        forall|level: u8| #[trigger]
            tags.contains(TextTag::Heading(level)) <==> headed(events, start, n, level as int),
        forall|kind: BlockQuoteKind| #[trigger]
            tags.contains(TextTag::Alert(alert_of(kind))) <==> titled(events, start, n, kind),
{
    let open = rendering(follows, events, resolved, start, n).tags;
    let tags = if events[n] is Code {
        seq![TextTag::Code] + open
    } else {
        open
    };
    text_is_added(follows, events, resolved, start, n, text);
    tags_tell(open, tags, events[n] is Code);
    styles_tell(follows, events, resolved, start, n);
    blocks_tell(follows, events, resolved, start, n);
    links_are_counted(follows, events, resolved, start, n);
    tags
}

/// What a text or a piece of code adds.
proof fn text_is_added(
    follows: bool,
    events: Seq<EventView>,
    resolved: Seq<Resolved>,
    start: int,
    n: int,
    text: Seq<char>,
)
    requires
        0 <= start <= n < events.len(),
        events[n] == EventView::Text(text) || events[n] == EventView::Code(text),
        stretch_at(events, start, n) is Text,
        !in_image(events, start, n),
    ensures
        ({
            let before = rendered(preview_start(follows), events, resolved, start, n);
            let after = rendered(preview_start(follows), events, resolved, start, n + 1);
            let open = rendering(follows, events, resolved, start, n).tags;
            let at = before.text.len() - before.origin;
            &&& after.text == before.text + text
            &&& after.spans == before.spans.push(
                (
                    at,
                    at + text.len(),
                    if events[n] is Code {
                        seq![TextTag::Code] + open
                    } else {
                        open
                    },
                ),
            )
            &&& after.widgets == before.widgets
            &&& after.links == before.links
        }),
{
    reveal(rendering);
    renderings_follow(follows, events, resolved, start, n);
}

/// How often each style is open.
proof fn styles_tell(
    follows: bool,
    events: Seq<EventView>,
    resolved: Seq<Resolved>,
    start: int,
    n: int,
)
    requires
        0 <= start <= n <= events.len(),
    ensures
        ({
            let tags = rendering(follows, events, resolved, start, n).tags;
            &&& number_of(tags, TextTag::Bold) == styled(events, start, n, HtmlStyle::Bold)
            &&& number_of(tags, TextTag::Italic) == styled(events, start, n, HtmlStyle::Italic)
            &&& number_of(tags, TextTag::Strikethrough) == styled(
                events,
                start,
                n,
                HtmlStyle::Strikethrough,
            )
            &&& number_of(tags, TextTag::Underline) == styled(
                events,
                start,
                n,
                HtmlStyle::Underline,
            )
            &&& number_of(tags, TextTag::Code) == styled(events, start, n, HtmlStyle::Code)
            &&& number_of(tags, TextTag::Keyboard) == styled(events, start, n, HtmlStyle::Keyboard)
            &&& number_of(tags, TextTag::Superscript) == styled(
                events,
                start,
                n,
                HtmlStyle::Superscript,
            )
            &&& number_of(tags, TextTag::Subscript) == styled(
                events,
                start,
                n,
                HtmlStyle::Subscript,
            )
            &&& number_of(tags, TextTag::Mark) == styled(events, start, n, HtmlStyle::Mark)
        }),
{
    styles_are_counted(follows, events, resolved, start, n, HtmlStyle::Bold);
    styles_are_counted(follows, events, resolved, start, n, HtmlStyle::Italic);
    styles_are_counted(follows, events, resolved, start, n, HtmlStyle::Strikethrough);
    styles_are_counted(follows, events, resolved, start, n, HtmlStyle::Underline);
    styles_are_counted(follows, events, resolved, start, n, HtmlStyle::Code);
    styles_are_counted(follows, events, resolved, start, n, HtmlStyle::Keyboard);
    styles_are_counted(follows, events, resolved, start, n, HtmlStyle::Superscript);
    styles_are_counted(follows, events, resolved, start, n, HtmlStyle::Subscript);
    styles_are_counted(follows, events, resolved, start, n, HtmlStyle::Mark);
}

/// How often each quote, list, heading and alert is open.
proof fn blocks_tell(
    follows: bool,
    events: Seq<EventView>,
    resolved: Seq<Resolved>,
    start: int,
    n: int,
)
    requires
        0 <= start <= n <= events.len() < usize::MAX,
    ensures
        ({
            let tags = rendering(follows, events, resolved, start, n).tags;
            &&& forall|depth: usize|
                #[trigger] number_of(tags, TextTag::Quote(depth)) > 0 <==> 1 <= depth <= quoted(
                    events,
                    start,
                    n,
                )
            &&& forall|depth: usize|
                #[trigger] number_of(tags, TextTag::List(depth)) > 0 <==> depth < listed(
                    events,
                    start,
                    n,
                )
            &&& forall|level: u8|
                #[trigger] number_of(tags, TextTag::Heading(level)) > 0 <==> headed(
                    events,
                    start,
                    n,
                    level as int,
                )
            &&& forall|kind: BlockQuoteKind|
                #[trigger] number_of(tags, TextTag::Alert(alert_of(kind))) > 0 <==> titled(
                    events,
                    start,
                    n,
                    kind,
                )
        }),
{
    let tags = rendering(follows, events, resolved, start, n).tags;
    assert forall|depth: usize|
        #[trigger] number_of(tags, TextTag::Quote(depth)) > 0 <==> 1 <= depth <= quoted(
            events,
            start,
            n,
        ) by {
        quotes_are_counted(follows, events, resolved, start, n, depth);
    }
    assert forall|depth: usize|
        #[trigger] number_of(tags, TextTag::List(depth)) > 0 <==> depth < listed(
            events,
            start,
            n,
        ) by {
        lists_are_counted(follows, events, resolved, start, n, depth);
    }
    assert forall|level: u8|
        #[trigger] number_of(tags, TextTag::Heading(level)) > 0 <==> headed(
            events,
            start,
            n,
            level as int,
        ) by {
        headings_are_counted(follows, events, resolved, start, n, level);
    }
    assert forall|kind: BlockQuoteKind|
        #[trigger] number_of(tags, TextTag::Alert(alert_of(kind))) > 0 <==> titled(
            events,
            start,
            n,
            kind,
        ) by {
        alerts_are_counted(follows, events, resolved, start, n, kind);
    }
}

/// Which tags are among tags, with or without that of code before them.
proof fn tags_tell(tags: Seq<TextTag>, all: Seq<TextTag>, code: bool)
    requires
        all == if code {
            seq![TextTag::Code] + tags
        } else {
            tags
        },
    ensures
        forall|tag: TextTag| #[trigger]
            all.contains(tag) <==> number_of(tags, tag) > 0 || (code && tag is Code),
{
    assert forall|tag: TextTag| #[trigger] all.contains(tag) <==> number_of(tags, tag) > 0 || (code
        && tag is Code) by {
        numbers_tell(tags, tag);
        if code {
            assert(all[0] == TextTag::Code);
            if tags.contains(tag) {
                let i = tags.index_of(tag);
                assert(all[i + 1] == tag);
            }
            if all.contains(tag) && !(tag is Code) {
                let i = all.index_of(tag);
                assert(tags[i - 1] == tag);
            }
        }
    }
}

/// What is being written, and how many images, quotes and lists are open around it, is told by
/// the events.
pub proof fn renderings_follow_events(
    follows: bool,
    events: Seq<EventView>,
    resolved: Seq<Resolved>,
    start: int,
    n: int,
)
    requires
        0 <= start <= n <= events.len(),
    ensures
        ({
            let state = rendered(preview_start(follows), events, resolved, start, n);
            &&& state.in_code <==> stretch_at(events, start, n) is Code
            &&& state.in_table <==> stretch_at(events, start, n) is Table
            &&& state.image is Some <==> in_image(events, start, n)
            &&& state.quotes == quoted(events, start, n)
            &&& state.lists.len() == listed(events, start, n)
        }),
{
    renderings_follow(follows, events, resolved, start, n);
    reveal(rendering);
}

/// A list that starts is one more, an item counts on, a list that ends is gone, and nothing else
/// changes which lists are open.
pub proof fn lists_follow_events(
    follows: bool,
    events: Seq<EventView>,
    resolved: Seq<Resolved>,
    start: int,
    n: int,
)
    requires
        0 <= start <= n < events.len(),
    ensures
        ({
            let before = rendered(preview_start(follows), events, resolved, start, n).lists;
            let after = rendered(preview_start(follows), events, resolved, start, n + 1).lists;
            if !(stretch_at(events, start, n) is Text) {
                after == before
            } else {
                match events[n] {
                    MdEvent::Start(MdTag::List(Some(first))) => after == before.push(
                        Some(first as u128),
                    ),
                    MdEvent::Start(MdTag::List(None)) => after == before.push(None),
                    MdEvent::Start(MdTag::Item) => after == lists_after_item(before),
                    MdEvent::End(TagEnd::List(_)) => after == crate::rewrite::without_last(before),
                    _ => after == before,
                }
            }
        }),
{
    renderings_follow_events(follows, events, resolved, start, n);
    let before = rendered(preview_start(follows), events, resolved, start, n);
    let event = events[n];
    let shown = resolved_at(resolved, n);
    if before.in_code || before.in_table {
        blocks_keep(before, event, n, shown);
    } else {
        match event {
            MdEvent::Start(tag) => starts_open(before, tag, n, shown),
            MdEvent::End(tag) => ends_shut(before, tag),
            MdEvent::Html(html) => parts_style(
                before,
                parts_of(html),
                parts_of(html).len() as int,
                crate::html::is_markup(html),
                HtmlStyle::Bold,
                TextTag::Bold,
            ),
            MdEvent::InlineHtml(html) => parts_style(
                before,
                parts_of(html),
                parts_of(html).len() as int,
                false,
                HtmlStyle::Bold,
                TextTag::Bold,
            ),
            _ => others_keep(before, event, n, shown),
        }
    }
}

}
