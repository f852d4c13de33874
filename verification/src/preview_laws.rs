//! What holds of every rendering of the preview.

use crate::cell::{
    apart_keeps, closed_keeps, ended_by, ended_cell_is_nested, ended_is_open, end_of, ends_of,
    is_start, keeps_to, mark_of_style, nested,
};
use crate::event::{EventView, MdEvent, MdTag};
use crate::html::{is_markup, parts_of, HtmlPart, PartView};
use crate::links::target_of;
use crate::preview::{
    block_break, breaks_at_end, line_break, preview_start, rendered, resolved_at, CellPart,
    CellPartView, Mark, Place, PreviewView, Resolved, TextTag, WidgetView, ANCHOR,
};
use crate::render::{start_of, RenderedBlock};
use pulldown_cmark::TagEnd;
use vstd::prelude::*;
use vstd::string::*;

verus! {

/// A block that has ended holds no text, or ends with a blank line.
pub proof fn blocks_end_with_a_blank_line(state: PreviewView)
    ensures
        state.end_block().text.len() == 0 || breaks_at_end(state.end_block().text) == 2,
{
    reveal_strlit("\n");
    reveal_strlit("\n\n");
}

/// The same rendering after a block.
pub open spec fn moved(state: PreviewView) -> PreviewView {
    PreviewView { text: "\n\n"@ + state.text, origin: state.origin + 2, ..state }
}

/// Whether `text` is one line break and nothing else.
pub open spec fn is_lone_break(text: Seq<char>) -> bool {
    text.len() == 1 && text[0] == '\n'
}

/// More text is added alike.
proof fn adds_alike(state: PreviewView, text: Seq<char>)
    ensures
        moved(state).add(text) == moved(state.add(text)),
        moved(state).offset() == state.offset(),
{
    reveal_strlit("\n\n");
    assert(moved(state).add(text) =~= moved(state.add(text)));
}

/// Whether an event ends a block with the text as it stands, and not after text of its own.
pub open spec fn ends_block(state: PreviewView, event: EventView) -> bool {
    !state.in_code && !state.in_table && match event {
        MdEvent::Start(MdTag::FootnoteDefinition(_)) => true,
        MdEvent::End(TagEnd::Heading(_)) => true,
        MdEvent::End(TagEnd::Paragraph) => true,
        MdEvent::End(TagEnd::BlockQuote(_)) => true,
        MdEvent::End(TagEnd::List(_)) => state.lists.len() <= 1,
        MdEvent::End(TagEnd::DefinitionListDefinition) => true,
        _ => false,
    }
}

/// Whether an event ends a block that is one line break and nothing else, which lacks a line
/// break to be a blank line at the start of the preview, and none after another block.
pub open spec fn ends_lone_break(state: PreviewView, event: EventView) -> bool {
    is_lone_break(state.text) && ends_block(state, event)
}

/// Blocks end alike, but after a lone line break.
proof fn ends_alike(state: PreviewView)
    requires
        !is_lone_break(state.text),
    ensures
        moved(state).end_block() == moved(state.end_block()),
{
    reveal_strlit("\n\n");
    let text = moved(state).text;
    if state.text.len() > 0 {
        assert(text.last() == state.text.last());
        if state.text.len() > 1 {
            assert(text[text.len() - 2] == state.text[state.text.len() - 2]);
        }
    }
    adds_alike(state, block_break(state.text));
    assert(block_break(text) == block_break(state.text));
}

/// Quotes end alike, but after a lone line break.
proof fn quotes_alike(state: PreviewView)
    requires
        !is_lone_break(state.text),
        state.origin >= 0,
    ensures
        moved(state).end_quote() == moved(state.end_quote()),
{
    reveal_strlit("\n\n");
    adds_alike(state, Seq::empty());
    let other = moved(state);
    if state.text.len() > 0 {
        assert(other.text.last() == state.text.last());
        if state.text.len() > 1 {
            assert(other.text[other.text.len() - 2] == state.text[state.text.len() - 2]);
        }
    }
    assert(other.text_end() == state.text_end());
    let next = PreviewView {
        tags: crate::preview::kept_tags(
            state.tags,
            Some(TextTag::Quote(state.quotes as usize)),
        ),
        quotes: if state.quotes > 0 {
            state.quotes - 1
        } else {
            0
        },
        places: if state.quotes == 1 {
            state.places.push((Place::QuoteEnd, state.text_end()))
        } else {
            state.places
        },
        ..state
    };
    ends_alike(next);
    assert(moved(next) =~= PreviewView {
        tags: next.tags,
        quotes: next.quotes,
        places: next.places,
        ..other
    });
}

/// What precedes a rendering stays as it is.
proof fn steps_keep_origin(state: PreviewView, event: EventView, n: int, resolved: Resolved)
    ensures
        state.step(event, n, resolved).origin == state.origin,
{
    match event {
        MdEvent::Html(html) => {
            parts_keep_tables(state, parts_of(html), parts_of(html).len() as int, is_markup(html));
            cell_parts_alike(state, parts_of(html), parts_of(html).len() as int);
        },
        MdEvent::InlineHtml(html) => {
            parts_keep_tables(state, parts_of(html), parts_of(html).len() as int, false);
            cell_parts_alike(state, parts_of(html), parts_of(html).len() as int);
        },
        _ => {},
    }
}

/// Lines start alike.
proof fn lines_alike(state: PreviewView)
    ensures
        moved(state).start_line() == moved(state.start_line()),
{
    reveal_strlit("\n\n");
    let text = moved(state).text;
    if state.text.len() > 0 {
        assert(text.last() == state.text.last());
    }
    adds_alike(state, line_break(state.text));
}

/// Text is inserted alike.
proof fn inserts_alike(state: PreviewView, text: Seq<char>, tags: Seq<TextTag>)
    ensures
        moved(state).insert(text, tags) == moved(state.insert(text, tags)),
{
    adds_alike(state, text);
    assert(moved(state).insert(text, tags) =~= moved(state.insert(text, tags)));
}

/// Links are inserted alike.
proof fn links_alike(state: PreviewView, text: Seq<char>, tags: Seq<TextTag>, url: Seq<char>)
    ensures
        moved(state).insert_link(text, tags, url) == moved(state.insert_link(text, tags, url)),
{
    inserts_alike(state, text, tags);
    adds_alike(state, Seq::empty());
    adds_alike(state.insert(text, tags), Seq::empty());
    assert(moved(state).insert_link(text, tags, url) =~= moved(
        state.insert_link(text, tags, url),
    ));
}

/// Widgets stand alike, and the text does not end as a lone line break after one.
proof fn anchors_alike(state: PreviewView, widget: WidgetView)
    ensures
        moved(state).anchor(widget) == moved(state.anchor(widget)),
        !is_lone_break(state.anchor(widget).text),
{
    adds_alike(state, seq![ANCHOR]);
    assert(moved(state).anchor(widget) =~= moved(state.anchor(widget)));
    assert(state.anchor(widget).text.last() == ANCHOR);
}

/// Code blocks and tables stand alike.
proof fn widget_blocks_alike(state: PreviewView, widget: WidgetView)
    ensures
        moved(state).widget_block(widget) == moved(state.widget_block(widget)),
{
    lines_alike(state);
    anchors_alike(state.start_line(), widget);
    let next = state.start_line().anchor(widget);
    ends_alike(next);
    lines_alike(next);
}

/// Math is rendered alike.
proof fn math_alike(
    state: PreviewView,
    latex: Seq<char>,
    n: int,
    display: bool,
    resolved: Resolved,
)
    ensures
        moved(state).math(latex, n, display, resolved) == moved(
            state.math(latex, n, display, resolved),
        ),
{
    let widget = WidgetView::Math { event: n, display };
    lines_alike(state);
    anchors_alike(state, widget);
    anchors_alike(state.start_line(), widget);
    lines_alike(state.start_line().anchor(widget));
    inserts_alike(state, latex, seq![TextTag::Code] + state.tags);
    assert(moved(state).math(latex, n, display, resolved) =~= moved(
        state.math(latex, n, display, resolved),
    ));
}

/// The innermost open block of raw HTML ends alike.
proof fn drops_alike(state: PreviewView)
    ensures
        moved(state).drop_html() == moved(state.drop_html()),
{
    assert(moved(state).drop_html() =~= moved(state.drop_html()));
}

/// Parts of raw HTML that start a line are laid out alike.
proof fn lays_alike(state: PreviewView, part: PartView)
    ensures
        moved(state).lay(part) == moved(state.lay(part)),
{
    adds_alike(state, Seq::empty());
    drops_alike(state);
    drops_alike(state.drop_html());
    assert(moved(state).lay(part) =~= moved(state.lay(part)));
}

/// Parts of raw HTML are rendered alike.
proof fn parts_alike(state: PreviewView, parts: Seq<PartView>, n: int, silent: bool)
    ensures
        moved(state).say_parts(parts, n, silent) == moved(state.say_parts(parts, n, silent)),
    decreases n,
{
    if n > 0 {
        parts_alike(state, parts, n - 1, silent);
        let before = state.say_parts(parts, n - 1, silent);
        let part = parts[n - 1];
        match part {
            HtmlPart::Text(text) => {
                inserts_alike(before, text, before.tags);
            },
            _ => {
                lines_alike(before);
                lays_alike(before.start_line(), part);
            },
        }
        assert(moved(before).say_part(part) =~= moved(before.say_part(part)));
    }
}

/// Parts of raw HTML in a cell are rendered alike, and change nothing but the cell.
proof fn cell_parts_alike(state: PreviewView, parts: Seq<PartView>, n: int)
    ensures
        moved(state).cell_html_parts(parts, n) == moved(state.cell_html_parts(parts, n)),
        state.cell_html_parts(parts, n) == (PreviewView {
            cell: state.cell_html_parts(parts, n).cell,
            cell_open: state.cell_html_parts(parts, n).cell_open,
            ..state
        }),
    decreases n,
{
    if n > 0 {
        cell_parts_alike(state, parts, n - 1);
        let before = state.cell_html_parts(parts, n - 1);
        let part = parts[n - 1];
        assert(moved(before).cell_html_part(part) =~= moved(before.cell_html_part(part)));
    }
}

/// An event inside a table is rendered alike.
proof fn table_steps_alike(state: PreviewView, event: EventView, n: int, resolved: Resolved)
    ensures
        moved(state).in_table_block(event, n, resolved) == moved(
            state.in_table_block(event, n, resolved),
        ),
{
    let other = moved(state);
    let goal = moved(state.in_table_block(event, n, resolved));
    match event {
        MdEvent::End(TagEnd::Table) => {
            let widget = WidgetView::Table {
                rows: state.rows,
                alignments: state.alignments,
                lists: state.lists.len() as int,
                quotes: state.quotes,
            };
            widget_blocks_alike(PreviewView { in_table: false, ..state }, widget);
            assert(moved(PreviewView { in_table: false, ..state }) =~= PreviewView {
                in_table: false,
                ..other
            });
        },
        MdEvent::Html(html) => {
            cell_parts_alike(state, parts_of(html), parts_of(html).len() as int);
        },
        MdEvent::InlineHtml(html) => {
            cell_parts_alike(state, parts_of(html), parts_of(html).len() as int);
        },
        MdEvent::FootnoteReference(name) => {
            adds_alike(state, Seq::empty());
            let next = state.place(Place::Reference(name));
            assert(moved(next) =~= other.place(Place::Reference(name)));
            assert(other.cell_refer(name) =~= goal);
        },
        _ => {
            assert(other.in_table_block(event, n, resolved) =~= goal);
        },
    }
}

/// An event is rendered alike.
proof fn steps_alike(state: PreviewView, event: EventView, n: int, resolved: Resolved)
    requires
        !ends_lone_break(state, event),
        state.origin >= 0,
    ensures
        moved(state).step(event, n, resolved) == moved(state.step(event, n, resolved)),
{
    adds_alike(state, Seq::empty());
    let other = moved(state);
    let goal = moved(state.step(event, n, resolved));
    if state.in_code {
        let widget = WidgetView::Code {
            code: crate::text::drop_end(state.code, '\n'),
            info: state.code_info,
            lists: state.lists.len() as int,
            quotes: state.quotes,
        };
        widget_blocks_alike(PreviewView { in_code: false, ..state }, widget);
        assert(moved(PreviewView { in_code: false, ..state }) =~= PreviewView {
            in_code: false,
            ..other
        });
        assert(other.step(event, n, resolved) =~= goal);
    } else if state.in_table {
        table_steps_alike(state, event, n, resolved);
    } else {
        match event {
            MdEvent::Start(tag) => {
                starts_alike(state, tag, n, resolved);
            },
            MdEvent::End(tag) => {
                tag_ends_alike(state, tag);
            },
            MdEvent::Text(text) => {
                inserts_alike(state, text, state.tags);
                assert(other.step(event, n, resolved) =~= goal);
            },
            MdEvent::Code(text) => {
                inserts_alike(state, text, seq![TextTag::Code] + state.tags);
                assert(other.step(event, n, resolved) =~= goal);
            },
            MdEvent::InlineMath(latex) => {
                math_alike(state, latex, n, false, resolved);
            },
            MdEvent::DisplayMath(latex) => {
                math_alike(state, latex, n, true, resolved);
            },
            MdEvent::Html(html) => {
                parts_alike(state, parts_of(html), parts_of(html).len() as int, is_markup(html));
            },
            MdEvent::InlineHtml(html) => {
                parts_alike(state, parts_of(html), parts_of(html).len() as int, false);
            },
            MdEvent::FootnoteReference(name) => {
                let next = state.place(Place::Reference(name));
                assert(moved(next) =~= other.place(Place::Reference(name)));
                links_alike(
                    next,
                    "["@ + name + "]"@,
                    seq![TextTag::Footnote],
                    "#"@ + crate::rewrite::footnote_id_of(name),
                );
            },
            MdEvent::TaskListMarker(checked) => {
                let next = state.place(Place::Box);
                assert(moved(next) =~= other.place(Place::Box));
                inserts_alike(
                    next,
                    if checked {
                        "\u{25a0} "@
                    } else {
                        "\u{25a1} "@
                    },
                    seq![TextTag::Bold] + state.tags,
                );
            },
            MdEvent::Rule => {
                anchors_alike(state, WidgetView::Rule);
                ends_alike(state.anchor(WidgetView::Rule));
            },
            MdEvent::SoftBreak => {
                inserts_alike(state, " "@, state.tags);
                assert(other.step(event, n, resolved) =~= goal);
            },
            MdEvent::HardBreak => {
                inserts_alike(state, " "@, state.tags);
                inserts_alike(state, "\n"@, state.tags);
                assert(other.step(event, n, resolved) =~= goal);
            },
        }
    }
}

/// A start tag is rendered alike.
proof fn starts_alike(
    state: PreviewView,
    tag: crate::event::TagView,
    n: int,
    resolved: Resolved,
)
    requires
        tag is FootnoteDefinition ==> !is_lone_break(state.text),
    ensures
        moved(state).start(tag, n, resolved) == moved(state.start(tag, n, resolved)),
{
    adds_alike(state, Seq::empty());
    let other = moved(state);
    match tag {
        MdTag::Image { .. } => {
            let next = PreviewView {
                image: Some((resolved is Shown, n, Seq::empty())),
                images: if resolved is Elsewhere {
                    state.images
                } else {
                    state.images.push(n)
                },
                ..state
            };
            anchors_alike(next, WidgetView::Picture { event: n });
            assert(moved(next) =~= PreviewView { image: next.image, images: next.images, ..other });
        },
        MdTag::List(first) => {
            lines_alike(state);
        },
        MdTag::Item => {
            let next = PreviewView {
                lists: crate::preview::lists_after_item(state.lists),
                ..state
            };
            inserts_alike(
                next,
                crate::preview::marker_of(state.lists),
                seq![TextTag::Bold] + state.tags,
            );
            assert(moved(next) =~= PreviewView { lists: next.lists, ..other });
        },
        MdTag::FootnoteDefinition(label) => {
            ends_alike(state);
            let ended = state.end_block();
            adds_alike(ended, Seq::empty());
            let next = PreviewView { note: Some(label), ..ended.place(Place::Note(label)) };
            assert(moved(next) =~= PreviewView {
                note: Some(label),
                ..moved(ended).place(Place::Note(label))
            });
            inserts_alike(next, "["@ + label + "]: "@, seq![TextTag::Bold]);
        },
        MdTag::DefinitionListTitle => {
            lines_alike(state);
        },
        MdTag::DefinitionListDefinition => {
            lines_alike(state);
        },
        _ => {},
    }
    assert(other.start(tag, n, resolved) =~= moved(state.start(tag, n, resolved)));
}

/// An end tag is rendered alike.
proof fn tag_ends_alike(state: PreviewView, tag: TagEnd)
    requires
        !state.in_code,
        !state.in_table,
        !ends_lone_break(state, MdEvent::End(tag)),
        state.origin >= 0,
    ensures
        moved(state).end(tag) == moved(state.end(tag)),
{
    adds_alike(state, Seq::empty());
    let other = moved(state);
    match tag {
        TagEnd::Heading(_) | TagEnd::Paragraph => {
            let next = PreviewView {
                tags: crate::preview::kept_tags(state.tags, None),
                ..state
            };
            ends_alike(next);
            assert(moved(next) =~= PreviewView { tags: next.tags, ..other });
        },
        TagEnd::Image => {
            let next = PreviewView { image: None, ..state };
            assert(moved(next) =~= PreviewView { image: None, ..other });
            if let Some((shown, event, alt)) = state.image {
                inserts_alike(next, alt, seq![TextTag::ImageAlt] + state.tags);
            }
        },
        TagEnd::BlockQuote(_) => {
            quotes_alike(state);
        },
        TagEnd::List(_) => {
            let depth = if state.lists.len() > 0 {
                state.lists.len() - 1
            } else {
                0
            };
            let next = PreviewView {
                tags: crate::preview::kept_tags(state.tags, Some(TextTag::List(depth as usize))),
                lists: state.lists.take(depth),
                ..state
            };
            if depth == 0 {
                ends_alike(next);
            }
            assert(moved(next) =~= PreviewView { tags: next.tags, lists: next.lists, ..other });
        },
        TagEnd::Item => {
            lines_alike(state);
        },
        TagEnd::FootnoteDefinition => {
            if let Some(name) = state.note {
                let next = PreviewView { note: None, ..state };
                assert(moved(next) =~= PreviewView { note: None, ..other });
                let url = "#"@ + crate::rewrite::reference_id_of(name);
                links_alike(next, "\u{21a9}"@, seq![TextTag::Link], url);
                let arrow = next.insert_link("\u{21a9}"@, seq![TextTag::Link], url);
                reveal_strlit("\u{21a9}");
                assert(arrow.text.last() == '\u{21a9}');
                ends_alike(arrow);
            }
        },
        TagEnd::DefinitionListTitle => {
            let next = state.shut_tag(TextTag::Bold);
            lines_alike(next);
            assert(moved(next) =~= PreviewView { tags: next.tags, ..other });
        },
        TagEnd::DefinitionListDefinition => {
            ends_alike(state);
        },
        _ => {},
    }
    assert(other.end(tag) =~= moved(state.end(tag)));
}

/// What a block renders to does not depend on the block before it: at the start of the preview
/// and after another block its text, tags, links and widgets are the same. The blocks this does
/// not hold of are those that end, or of which a part ends, as one line break and nothing else.
pub proof fn blocks_render_alike_anywhere(
    events: Seq<EventView>,
    resolved: Seq<Resolved>,
    start: int,
    n: int,
)
    requires
        forall|k: int|
            start <= k < n ==> !ends_lone_break(
                #[trigger] rendered(preview_start(false), events, resolved, start, k),
                events[k],
            ),
    ensures
        ({
            let first = rendered(preview_start(false), events, resolved, start, n);
            let after = rendered(preview_start(true), events, resolved, start, n);
            &&& first.origin == 0
            &&& after == moved(first)
            &&& !is_lone_break(first.text) ==> after.end_block() == moved(first.end_block())
            &&& !is_lone_break(first.text) ==> after.block() == first.block()
        }),
    decreases n - start,
{
    reveal_strlit("\n\n");
    assert(preview_start(true) =~= moved(preview_start(false)));
    let first = rendered(preview_start(false), events, resolved, start, n);
    if n > start {
        blocks_render_alike_anywhere(events, resolved, start, n - 1);
        let before = rendered(preview_start(false), events, resolved, start, n - 1);
        assert(!ends_lone_break(before, events[n - 1]));
        steps_alike(before, events[n - 1], n - 1, resolved_at(resolved, n - 1));
        steps_keep_origin(before, events[n - 1], n - 1, resolved_at(resolved, n - 1));
    }
    if !is_lone_break(first.text) {
        ends_alike(first);
        adds_alike(first.end_block(), Seq::empty());
        assert(moved(first).block() =~= first.block());
    }
}

/// Whether the second of two renderings that go on alike has one line break more.
pub open spec fn has_more(a: PreviewView, b: PreviewView) -> bool {
    &&& a.text.len() >= 2
    &&& b.text == seq!['\n'] + a.text
    &&& a.origin == 0
    &&& b.origin == 2
    &&& a.image == b.image
    &&& a.lists == b.lists
    &&& a.in_code == b.in_code
    &&& a.in_table == b.in_table
    &&& a.note == b.note
}

/// Texts of which one has a line break more at its start end alike.
proof fn ends_as_before(a: Seq<char>, b: Seq<char>)
    requires
        a.len() >= 2,
        b == seq!['\n'] + a,
    ensures
        block_break(b) == block_break(a),
        line_break(b) == line_break(a),
{
    assert(b.last() == a.last());
    assert(b[b.len() - 2] == a[a.len() - 2]);
}

/// A line break more stays one more when text is added.
pub proof fn more_adds(a: PreviewView, b: PreviewView, text: Seq<char>)
    requires
        has_more(a, b),
    ensures
        has_more(a.add(text), b.add(text)),
        has_more(a.end_block(), b.end_block()),
        has_more(a.start_line(), b.start_line()),
{
    ends_as_before(a.text, b.text);
    assert(seq!['\n'] + (a.text + text) =~= seq!['\n'] + a.text + text);
    let end = block_break(a.text);
    assert(seq!['\n'] + (a.text + end) =~= seq!['\n'] + a.text + end);
    let line = line_break(a.text);
    assert(seq!['\n'] + (a.text + line) =~= seq!['\n'] + a.text + line);
}

/// A line break more stays one more after a code block or a table.
proof fn more_widgets(a: PreviewView, b: PreviewView, widget: WidgetView, other: WidgetView)
    requires
        has_more(a, b),
    ensures
        has_more(a.widget_block(widget), b.widget_block(other)),
        has_more(a.anchor(widget), b.anchor(other)),
{
    more_adds(a, b, seq![ANCHOR]);
    more_adds(a.start_line(), b.start_line(), seq![ANCHOR]);
    let next = a.start_line().anchor(widget);
    let then = b.start_line().anchor(other);
    assert(has_more(next, then));
    more_adds(next, then, Seq::empty());
}

/// A line break more stays one more after math.
proof fn more_math(
    a: PreviewView,
    b: PreviewView,
    latex: Seq<char>,
    n: int,
    display: bool,
    resolved: Resolved,
)
    requires
        has_more(a, b),
    ensures
        has_more(a.math(latex, n, display, resolved), b.math(latex, n, display, resolved)),
{
    let widget = WidgetView::Math { event: n, display };
    more_adds(a, b, latex);
    more_widgets(a, b, widget, widget);
    more_widgets(a.start_line(), b.start_line(), widget, widget);
    more_adds(a.start_line().anchor(widget), b.start_line().anchor(widget), Seq::empty());
}

/// A line break more stays one more after raw HTML.
proof fn more_parts(a: PreviewView, b: PreviewView, parts: Seq<PartView>, n: int, silent: bool)
    requires
        has_more(a, b),
    ensures
        has_more(a.say_parts(parts, n, silent), b.say_parts(parts, n, silent)),
    decreases n,
{
    if n > 0 {
        more_parts(a, b, parts, n - 1, silent);
        let first = a.say_parts(parts, n - 1, silent);
        let second = b.say_parts(parts, n - 1, silent);
        match parts[n - 1] {
            HtmlPart::Text(text) => more_adds(first, second, text),
            _ => more_adds(first, second, Seq::empty()),
        }
    }
}

/// A line break more stays one more after a start tag.
proof fn more_starts(
    a: PreviewView,
    b: PreviewView,
    tag: crate::event::TagView,
    n: int,
    resolved: Resolved,
)
    requires
        has_more(a, b),
    ensures
        has_more(a.start(tag, n, resolved), b.start(tag, n, resolved)),
{
    more_adds(a, b, Seq::empty());
    match tag {
        MdTag::Image { .. } => {
            let widget = WidgetView::Picture { event: n };
            let image = Some((resolved is Shown, n, Seq::<char>::empty()));
            more_widgets(PreviewView { image, ..a }, PreviewView { image, ..b }, widget, widget);
        },
        MdTag::Item => more_adds(a, b, crate::preview::marker_of(a.lists)),
        MdTag::FootnoteDefinition(label) => more_adds(
            a.end_block(),
            b.end_block(),
            "["@ + label + "]: "@,
        ),
        _ => {},
    }
}

/// A line break more stays one more after an end tag.
proof fn more_ends(a: PreviewView, b: PreviewView, tag: TagEnd)
    requires
        has_more(a, b),
    ensures
        has_more(a.end(tag), b.end(tag)),
{
    more_adds(a, b, Seq::empty());
    match tag {
        TagEnd::Image => {
            if let Some((_, _, alt)) = a.image {
                more_adds(a, b, alt);
            }
        },
        TagEnd::FootnoteDefinition => {
            if a.note is Some {
                let text = "\u{21a9}"@;
                more_adds(a, b, text);
                more_adds(a.add(text), b.add(text), Seq::empty());
            }
        },
        _ => {},
    }
}

/// A line break more stays one more after an event.
proof fn more_steps(a: PreviewView, b: PreviewView, event: EventView, n: int, resolved: Resolved)
    requires
        has_more(a, b),
    ensures
        has_more(a.step(event, n, resolved), b.step(event, n, resolved)),
{
    more_adds(a, b, Seq::empty());
    if a.in_code {
        let code = |state: PreviewView|
            WidgetView::Code {
                code: crate::text::drop_end(state.code, '\n'),
                info: state.code_info,
                lists: state.lists.len() as int,
                quotes: state.quotes,
            };
        more_widgets(
            PreviewView { in_code: false, ..a },
            PreviewView { in_code: false, ..b },
            code(a),
            code(b),
        );
    } else if a.in_table {
        let table = |state: PreviewView|
            WidgetView::Table {
                rows: state.rows,
                alignments: state.alignments,
                lists: state.lists.len() as int,
                quotes: state.quotes,
            };
        more_widgets(
            PreviewView { in_table: false, ..a },
            PreviewView { in_table: false, ..b },
            table(a),
            table(b),
        );
        if let MdEvent::Html(html) = event {
            cell_parts_alike(a, parts_of(html), parts_of(html).len() as int);
            cell_parts_alike(b, parts_of(html), parts_of(html).len() as int);
        }
        if let MdEvent::InlineHtml(html) = event {
            cell_parts_alike(a, parts_of(html), parts_of(html).len() as int);
            cell_parts_alike(b, parts_of(html), parts_of(html).len() as int);
        }
    } else {
        match event {
            MdEvent::Start(tag) => more_starts(a, b, tag, n, resolved),
            MdEvent::End(tag) => more_ends(a, b, tag),
            MdEvent::Text(text) => more_adds(a, b, text),
            MdEvent::Code(text) => more_adds(a, b, text),
            MdEvent::InlineMath(latex) => more_math(a, b, latex, n, false, resolved),
            MdEvent::DisplayMath(latex) => more_math(a, b, latex, n, true, resolved),
            MdEvent::Html(html) => more_parts(
                a,
                b,
                parts_of(html),
                parts_of(html).len() as int,
                is_markup(html),
            ),
            MdEvent::InlineHtml(html) => more_parts(
                a,
                b,
                parts_of(html),
                parts_of(html).len() as int,
                false,
            ),
            MdEvent::FootnoteReference(name) => more_adds(a, b, "["@ + name + "]"@),
            MdEvent::TaskListMarker(checked) => more_adds(
                a,
                b,
                if checked {
                    "\u{25a0} "@
                } else {
                    "\u{25a1} "@
                },
            ),
            MdEvent::Rule => {
                more_widgets(a, b, WidgetView::Rule, WidgetView::Rule);
                more_adds(a.anchor(WidgetView::Rule), b.anchor(WidgetView::Rule), Seq::empty());
            },
            MdEvent::SoftBreak => more_adds(a, b, " "@),
            MdEvent::HardBreak => {
                more_adds(a, b, " "@);
                more_adds(a, b, "\n"@);
            },
        }
    }
}

/// A block that ends as a lone line break gets a line break that it does not get after another.
pub proof fn lone_breaks_get_more(state: PreviewView)
    requires
        is_lone_break(state.text),
        state.origin == 0,
    ensures
        has_more(state.end_block(), moved(state).end_block()),
{
    reveal_strlit("\n");
    reveal_strlit("\n\n");
    let text = moved(state).text;
    assert(text[text.len() - 2] == '\n');
    assert(moved(state).end_block().text =~= text);
    assert(seq!['\n'] + state.end_block().text =~= text);
}

/// An event that ends a lone line break leaves a line break more.
proof fn steps_get_more(state: PreviewView, event: EventView, n: int, resolved: Resolved)
    requires
        ends_lone_break(state, event),
        state.origin == 0,
    ensures
        has_more(state.step(event, n, resolved), moved(state).step(event, n, resolved)),
{
    lone_breaks_get_more(state);
    let a = state.end_block();
    let b = moved(state).end_block();
    if let MdEvent::Start(MdTag::FootnoteDefinition(label)) = event {
        more_adds(a, b, "["@ + label + "]: "@);
    }
}

/// Blocks that end, or of which a part ends, as one line break and nothing else are those that
/// render otherwise after another block: with one line break less.
pub proof fn lone_breaks_render_otherwise(
    events: Seq<EventView>,
    resolved: Seq<Resolved>,
    start: int,
    n: int,
)
    requires
        exists|k: int|
            start <= k < n && ends_lone_break(
                #[trigger] rendered(preview_start(false), events, resolved, start, k),
                events[k],
            ),
    ensures
        ({
            let first = rendered(preview_start(false), events, resolved, start, n);
            let after = rendered(preview_start(true), events, resolved, start, n);
            has_more(first, after)
        }),
    decreases n - start,
{
    let before = rendered(preview_start(false), events, resolved, start, n - 1);
    let other = rendered(preview_start(true), events, resolved, start, n - 1);
    if exists|k: int|
        start <= k < n - 1 && ends_lone_break(
            #[trigger] rendered(preview_start(false), events, resolved, start, k),
            events[k],
        ) {
        lone_breaks_render_otherwise(events, resolved, start, n - 1);
        more_steps(before, other, events[n - 1], n - 1, resolved_at(resolved, n - 1));
    } else {
        blocks_render_alike_anywhere(events, resolved, start, n - 1);
        assert(ends_lone_break(before, events[n - 1]));
        steps_get_more(before, events[n - 1], n - 1, resolved_at(resolved, n - 1));
    }
}

/// Whether the tagged stretches of a rendering stand in its text.
pub open spec fn spans_fit(state: PreviewView) -> bool {
    &&& 0 <= state.origin <= state.text.len()
    &&& forall|i: int|
        0 <= i < state.spans.len() ==> 0 <= (#[trigger] state.spans[i]).0 <= state.spans[i].1
            <= state.offset()
}

/// Parts of raw HTML keep the stretches of a rendering in its text.
proof fn parts_keep_spans(state: PreviewView, parts: Seq<PartView>, n: int, silent: bool)
    requires
        spans_fit(state),
    ensures
        spans_fit(state.say_parts(parts, n, silent)),
    decreases n,
{
    if n > 0 {
        parts_keep_spans(state, parts, n - 1, silent);
    }
}

/// An event keeps the stretches of a rendering in its text.
proof fn step_keeps_spans(state: PreviewView, event: EventView, n: int, resolved: Resolved)
    requires
        spans_fit(state),
    ensures
        spans_fit(state.step(event, n, resolved)),
{
    match event {
        MdEvent::Html(html) => {
            parts_keep_spans(state, parts_of(html), parts_of(html).len() as int, is_markup(html));
            cell_parts_alike(state, parts_of(html), parts_of(html).len() as int);
        },
        MdEvent::InlineHtml(html) => {
            parts_keep_spans(state, parts_of(html), parts_of(html).len() as int, false);
            cell_parts_alike(state, parts_of(html), parts_of(html).len() as int);
        },
        _ => {},
    }
}

/// The tagged stretches of a rendering stand in its text.
pub proof fn renderings_fit(
    follows: bool,
    events: Seq<EventView>,
    resolved: Seq<Resolved>,
    start: int,
    n: int,
)
    ensures
        spans_fit(rendered(preview_start(follows), events, resolved, start, n)),
    decreases n - start,
{
    reveal_strlit("\n\n");
    if n > start {
        renderings_fit(follows, events, resolved, start, n - 1);
        let before = rendered(preview_start(follows), events, resolved, start, n - 1);
        step_keeps_spans(before, events[n - 1], n - 1, resolved_at(resolved, n - 1));
    }
}

/// Whether every link of a cell leads to a web or mail address, to a place in the document, or to
/// a Markdown file by its path from the document's folder.
pub open spec fn cell_is_safe(cell: Seq<CellPartView>) -> bool {
    forall|i: int|
        0 <= i < cell.len() ==> (#[trigger] cell[i] matches CellPart::LinkStart(url)
            ==> !(target_of(url, true) is Nothing))
}

/// Whether styles and links of a cell stand one inside the other, all of them end, and no formula
/// stands in one, so each stretch of it between formulas is markup of its own.
pub open spec fn cell_is_nested(cell: Seq<CellPartView>) -> bool {
    nested(Seq::empty(), cell) == Some(Seq::<CellPartView>::empty())
}

/// Whether every link of a row leads to where links may lead, and its cells are markup.
pub open spec fn row_is_safe(row: Seq<Seq<CellPartView>>) -> bool {
    forall|i: int|
        0 <= i < row.len() ==> cell_is_safe(#[trigger] row[i]) && cell_is_nested(row[i])
}

/// Whether every link of a table leads to where links may lead, and its cells are markup.
pub open spec fn rows_are_safe(rows: Seq<Seq<Seq<CellPartView>>>) -> bool {
    forall|i: int| 0 <= i < rows.len() ==> row_is_safe(#[trigger] rows[i])
}

/// Whether every link of the tables of a rendering leads to where links may lead, and their cells
/// are markup.
pub open spec fn tables_are_safe(state: PreviewView) -> bool {
    &&& cell_is_safe(state.cell)
    &&& cell_is_safe(state.cell_open)
    &&& keeps_to(state.cell, state.cell_open)
    &&& row_is_safe(state.row)
    &&& rows_are_safe(state.rows)
    &&& forall|i: int|
        0 <= i < state.widgets.len() ==> ((#[trigger] state.widgets[i]).1 matches WidgetView::Table {
            rows,
            ..
        } ==> rows_are_safe(rows))
}

/// The links of tables lead only to web and mail addresses, to places in the document and to
/// Markdown files by their paths from its folder, and the cells of tables are markup that is
/// well formed: styles and links stand one inside the other, and all of them end.
pub proof fn table_links_are_safe(
    follows: bool,
    events: Seq<EventView>,
    resolved: Seq<Resolved>,
    start: int,
    n: int,
)
    ensures
        tables_are_safe(rendered(preview_start(follows), events, resolved, start, n)),
    decreases n - start,
{
    if n > start {
        table_links_are_safe(follows, events, resolved, start, n - 1);
        let before = rendered(preview_start(follows), events, resolved, start, n - 1);
        step_keeps_tables_safe(before, events[n - 1], n - 1, resolved_at(resolved, n - 1));
    }
}

/// End marks start no links.
proof fn ends_are_safe(open: Seq<CellPartView>, from: int)
    ensures
        cell_is_safe(ends_of(open, from)),
    decreases open.len(),
{
    if open.len() > from && open.len() > 0 {
        ends_are_safe(open.drop_last(), from);
        let end: CellPartView = CellPart::Mark(end_of(open.last()));
        let rest = ends_of(open.drop_last(), from);
        both_are_safe(seq![end], rest);
    }
}

/// The links of cells one after the other are safe.
proof fn both_are_safe(a: Seq<CellPartView>, b: Seq<CellPartView>)
    requires
        cell_is_safe(a),
        cell_is_safe(b),
    ensures
        cell_is_safe(a + b),
{
    assert forall|i: int| 0 <= i < (a + b).len() implies (#[trigger] (a + b)[i] matches
        CellPart::LinkStart(url) ==> !(target_of(url, true) is Nothing)) by {
        if i < a.len() {
            assert((a + b)[i] == a[i]);
        } else {
            assert((a + b)[i] == b[i - a.len()]);
        }
    }
}

/// A piece of a cell that starts nothing keeps its tables safe.
proof fn part_keeps_tables_safe(state: PreviewView, part: CellPartView)
    requires
        tables_are_safe(state),
        part is Code || part is Text,
    ensures
        tables_are_safe(state.cell_part(part)),
{
    assert(state.cell.push(part).drop_last() =~= state.cell);
}

/// A style or a link that starts keeps tables safe.
proof fn start_keeps_tables_safe(state: PreviewView, part: CellPartView)
    requires
        tables_are_safe(state),
        is_start(part),
        part matches CellPart::LinkStart(url) ==> !(target_of(url, true) is Nothing),
    ensures
        tables_are_safe(state.cell_start(part)),
{
    assert(state.cell.push(part).drop_last() =~= state.cell);
}

/// A style or a link that ends keeps tables safe.
proof fn end_keeps_tables_safe(state: PreviewView, end: Mark)
    requires
        tables_are_safe(state),
    ensures
        tables_are_safe(state.cell_end(end)),
{
    let k = ended_by(state.cell_open, end);
    closed_keeps(state.cell, state.cell_open, end);
    ended_is_open(state.cell_open, end);
    if k >= 0 {
        let again = state.cell_open.skip(k + 1);
        assert forall|i: int| 0 <= i < again.len() implies (#[trigger] again[i] matches
            CellPart::LinkStart(url) ==> !(target_of(url, true) is Nothing)) by {
            assert(again[i] == state.cell_open[k + 1 + i]);
        }
        let outer = state.cell_open.take(k);
        assert forall|i: int| 0 <= i < outer.len() implies (#[trigger] outer[i] matches
            CellPart::LinkStart(url) ==> !(target_of(url, true) is Nothing)) by {
            assert(outer[i] == state.cell_open[i]);
        }
        ends_are_safe(state.cell_open, k);
        both_are_safe(state.cell, ends_of(state.cell_open, k));
        both_are_safe(state.cell + ends_of(state.cell_open, k), again);
        both_are_safe(outer, again);
    }
}

/// Pieces of a cell that nothing reaches keep tables safe.
proof fn apart_keeps_tables_safe(state: PreviewView, parts: Seq<CellPartView>)
    requires
        tables_are_safe(state),
        cell_is_safe(parts),
        cell_is_nested(parts),
    ensures
        tables_are_safe(state.cell_alone(parts)),
{
    apart_keeps(state.cell, state.cell_open, parts);
    let ends = ends_of(state.cell_open, 0);
    ends_are_safe(state.cell_open, 0);
    both_are_safe(state.cell, ends);
    both_are_safe(state.cell + ends, parts);
    both_are_safe(state.cell + ends + parts, state.cell_open);
}

/// Raw HTML in a cell keeps tables safe.
proof fn html_keeps_tables_safe(state: PreviewView, parts: Seq<PartView>, n: int)
    requires
        tables_are_safe(state),
    ensures
        tables_are_safe(state.cell_html_parts(parts, n)),
    decreases n,
{
    if n > 0 {
        html_keeps_tables_safe(state, parts, n - 1);
        let before = state.cell_html_parts(parts, n - 1);
        match parts[n - 1] {
            HtmlPart::Text(text) => part_keeps_tables_safe(before, CellPart::Text(text)),
            HtmlPart::StyleStart(style) => start_keeps_tables_safe(
                before,
                CellPart::Mark(mark_of_style(style)),
            ),
            HtmlPart::StyleEnd(style) => end_keeps_tables_safe(before, mark_of_style(style).end()),
            _ => {},
        }
    }
}

/// A formula in a cell keeps tables safe.
proof fn math_keeps_tables_safe(state: PreviewView, latex: Seq<char>, n: int, resolved: Resolved)
    requires
        tables_are_safe(state),
    ensures
        tables_are_safe(state.cell_math(latex, n, resolved)),
{
    if resolved is Shown {
        let part: CellPartView = CellPart::Math { event: n as usize };
        assert(seq![part].drop_last() =~= Seq::<CellPartView>::empty());
        assert(cell_is_nested(seq![part])) by {
            reveal_with_fuel(nested, 2);
        }
        apart_keeps_tables_safe(state, seq![part]);
    } else {
        part_keeps_tables_safe(state, CellPart::Code(latex));
    }
}

/// A reference to a footnote in a cell keeps tables safe.
proof fn reference_keeps_tables_safe(state: PreviewView, name: Seq<char>)
    requires
        tables_are_safe(state),
    ensures
        tables_are_safe(state.cell_refer(name)),
{
    let url = "#"@ + crate::rewrite::footnote_id_of(name);
    let link: CellPartView = CellPart::LinkStart(url);
    let text: CellPartView = CellPart::Text("["@ + name + "]"@);
    let end: CellPartView = CellPart::Mark(Mark::LinkEnd);
    let parts = seq![link, text, end];
    assert(!(target_of(url, true) is Nothing)) by {
        reveal_strlit("#");
        reveal_strlit("fn:");
        reveal_strlit("#fn:");
        assert(url.subrange(0, 4) =~= "#fn:"@);
    }
    assert(cell_is_nested(parts)) by {
        let none = Seq::<CellPartView>::empty();
        assert(parts.drop_last() =~= seq![link, text]);
        assert(seq![link, text].drop_last() =~= seq![link]);
        assert(seq![link].drop_last() =~= none);
        assert(nested(none, none) == Some(none));
        assert(nested(none, seq![link]) == Some(none.push(link)));
        assert(nested(none, seq![link, text]) == Some(none.push(link)));
        assert(none.push(link).drop_last() =~= none);
    }
    apart_keeps_tables_safe(state.place(Place::Reference(name)), parts);
}

/// An event keeps the links of tables safe.
proof fn step_keeps_tables_safe(state: PreviewView, event: EventView, n: int, resolved: Resolved)
    requires
        tables_are_safe(state),
    ensures
        tables_are_safe(state.step(event, n, resolved)),
{
    if !state.in_code && state.in_table {
        table_step_keeps_tables_safe(state, event, n, resolved);
    } else {
        match event {
            MdEvent::Html(html) => {
                parts_keep_tables(
                    state,
                    parts_of(html),
                    parts_of(html).len() as int,
                    is_markup(html),
                );
            },
            MdEvent::InlineHtml(html) => {
                parts_keep_tables(state, parts_of(html), parts_of(html).len() as int, false);
            },
            _ => {},
        }
    }
}

/// An event inside a table keeps tables safe.
proof fn table_step_keeps_tables_safe(
    state: PreviewView,
    event: EventView,
    n: int,
    resolved: Resolved,
)
    requires
        tables_are_safe(state),
    ensures
        tables_are_safe(state.in_table_block(event, n, resolved)),
{
    match event {
        MdEvent::End(TagEnd::TableCell) => {
            ended_cell_is_nested(state.cell, state.cell_open);
            ends_are_safe(state.cell_open, 0);
            both_are_safe(state.cell, ends_of(state.cell_open, 0));
        },
        MdEvent::Start(MdTag::Strong) => start_keeps_tables_safe(
            state,
            CellPart::Mark(Mark::BoldStart),
        ),
        MdEvent::End(TagEnd::Strong) => end_keeps_tables_safe(state, Mark::BoldEnd),
        MdEvent::Start(MdTag::Emphasis) => start_keeps_tables_safe(
            state,
            CellPart::Mark(Mark::ItalicStart),
        ),
        MdEvent::End(TagEnd::Emphasis) => end_keeps_tables_safe(state, Mark::ItalicEnd),
        MdEvent::Start(MdTag::Strikethrough) => start_keeps_tables_safe(
            state,
            CellPart::Mark(Mark::StrikethroughStart),
        ),
        MdEvent::End(TagEnd::Strikethrough) => end_keeps_tables_safe(
            state,
            Mark::StrikethroughEnd,
        ),
        MdEvent::Start(MdTag::Link { dest_url, .. }) => if target_of(dest_url, true) is Nothing {
            start_keeps_tables_safe(state, CellPart::Mark(Mark::UnderlineStart));
        } else {
            start_keeps_tables_safe(state, CellPart::LinkStart(dest_url));
        },
        MdEvent::End(TagEnd::Link) => {
            end_keeps_tables_safe(state, Mark::LinkEnd);
            end_keeps_tables_safe(state, Mark::UnderlineEnd);
        },
        MdEvent::Code(text) => part_keeps_tables_safe(state, CellPart::Code(text)),
        MdEvent::Text(text) => part_keeps_tables_safe(state, CellPart::Text(text)),
        MdEvent::InlineMath(latex) => math_keeps_tables_safe(state, latex, n, resolved),
        MdEvent::DisplayMath(latex) => math_keeps_tables_safe(state, latex, n, resolved),
        MdEvent::Html(html) => html_keeps_tables_safe(
            state,
            parts_of(html),
            parts_of(html).len() as int,
        ),
        MdEvent::InlineHtml(html) => html_keeps_tables_safe(
            state,
            parts_of(html),
            parts_of(html).len() as int,
        ),
        MdEvent::FootnoteReference(name) => reference_keeps_tables_safe(state, name),
        _ => {},
    }
}

/// Raw HTML leaves tables and widgets as they are, and what precedes the rendering.
proof fn parts_keep_tables(state: PreviewView, parts: Seq<PartView>, n: int, silent: bool)
    ensures
        ({
            let next = state.say_parts(parts, n, silent);
            &&& next.cell == state.cell
            &&& next.cell_open == state.cell_open
            &&& next.row == state.row
            &&& next.rows == state.rows
            &&& next.widgets == state.widgets
            &&& next.origin == state.origin
        }),
    decreases n,
{
    if n > 0 {
        parts_keep_tables(state, parts, n - 1, silent);
    }
}

/// The text of blocks, one after the other.
pub open spec fn joined(texts: Seq<Seq<char>>) -> Seq<char>
    decreases texts.len(),
{
    if texts.len() == 0 {
        Seq::empty()
    } else {
        joined(texts.drop_last()) + texts.last()
    }
}

/// The texts of two lists of blocks follow one another.
pub proof fn joined_adds(a: Seq<Seq<char>>, b: Seq<Seq<char>>)
    ensures
        joined(a + b) == joined(a) + joined(b),
    decreases b.len(),
{
    if b.len() == 0 {
        assert(a + b =~= a);
        assert(joined(a) + joined(b) =~= joined(a));
    } else {
        assert((a + b).drop_last() =~= a + b.drop_last());
        joined_adds(a, b.drop_last());
        assert(joined(a) + joined(b.drop_last()) + b.last() =~= joined(a) + joined(b));
    }
}

/// Whether each text is as long as its block.
pub open spec fn are_texts_of<X>(texts: Seq<Seq<char>>, blocks: Seq<RenderedBlock<X>>) -> bool {
    texts.len() == blocks.len() && forall|i: int|
        0 <= i < texts.len() ==> (#[trigger] texts[i]).len() == blocks[i].length
}

/// A block starts where the texts before it end.
pub proof fn starts_are_lengths<X>(texts: Seq<Seq<char>>, blocks: Seq<RenderedBlock<X>>, n: int)
    requires
        are_texts_of(texts, blocks),
        0 <= n <= texts.len(),
    ensures
        joined(texts.take(n)).len() == start_of(blocks, n),
    decreases n,
{
    if n > 0 {
        starts_are_lengths(texts, blocks, n - 1);
        assert(texts.take(n).drop_last() =~= texts.take(n - 1));
        assert(texts[n - 1].len() == blocks[n - 1].length);
    }
}

/// Replacing the characters of the blocks that changed by those of the new blocks leaves the
/// preview with the text of all blocks, those that were kept and the new ones, one after the
/// other: what rendering the whole document again would leave it with.
pub proof fn replacing_blocks_renders_the_document<X>(
    blocks: Seq<RenderedBlock<X>>,
    texts: Seq<Seq<char>>,
    prefix: int,
    suffix: int,
    new_texts: Seq<Seq<char>>,
)
    requires
        are_texts_of(texts, blocks),
        0 <= prefix,
        0 <= suffix,
        prefix + suffix <= blocks.len(),
    ensures
        ({
            let shown = joined(texts);
            let from = start_of(blocks, prefix);
            let to = start_of(blocks, blocks.len() - suffix);
            &&& 0 <= from <= to <= shown.len()
            &&& shown.take(from) + joined(new_texts) + shown.skip(to) == joined(
                texts.take(prefix) + new_texts + texts.skip(texts.len() - suffix),
            )
        }),
{
    let head = texts.take(prefix);
    let middle = texts.subrange(prefix, texts.len() - suffix);
    let tail = texts.skip(texts.len() - suffix);
    starts_are_lengths(texts, blocks, prefix);
    starts_are_lengths(texts, blocks, blocks.len() - suffix);
    assert(texts =~= head + middle + tail);
    joined_adds(head, middle);
    joined_adds(head + middle, tail);
    joined_adds(head, new_texts);
    joined_adds(head + new_texts, tail);
    assert(texts.take(blocks.len() - suffix) =~= head + middle);
    let shown = joined(texts);
    assert(shown.take(start_of(blocks, prefix)) =~= joined(head));
    assert(shown.skip(start_of(blocks, blocks.len() - suffix)) =~= joined(tail));
}

}
