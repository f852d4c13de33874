//! What each event of a document shows in the preview.

use crate::around::{
    is_in_line, item_marker, lists_are_followed, numbers_fit, numbers_of, said, words,
};
use crate::event::{EventView, MdEvent, MdTag, TagView};
use crate::html::{is_markup, parts_of, HtmlPart, HtmlStyle, PartView};
use crate::preview::{
    preview_start, rendered, resolved_at, CellPart, Mark, Place, PreviewView, Resolved, TextTag,
    WidgetView,
};
use crate::preview_text_laws::{
    alert_of, in_image, listed, quoted, renderings_follow_events, stretch_at,
};
use crate::text::drop_end;
use pulldown_cmark::TagEnd;
use vstd::prelude::*;

verus! {

/// Where the text of a rendering ends, from where the rendering starts.
pub open spec fn end_of(state: PreviewView) -> int {
    state.text.len() - state.origin
}

/// One more event of a rendering, outside code blocks and tables.
proof fn rendering_steps(
    follows: bool,
    events: Seq<EventView>,
    resolved: Seq<Resolved>,
    start: int,
    n: int,
)
    requires
        0 <= start <= n < events.len(),
    ensures
        ({
            let before = rendered(preview_start(follows), events, resolved, start, n);
            &&& rendered(preview_start(follows), events, resolved, start, n + 1) == before.step(
                events[n],
                n,
                resolved_at(resolved, n),
            )
            &&& before.in_code <==> stretch_at(events, start, n) is Code
            &&& before.in_table <==> stretch_at(events, start, n) is Table
            &&& before.image is Some <==> in_image(events, start, n)
            &&& before.quotes == quoted(events, start, n)
            &&& before.lists.len() == listed(events, start, n)
        }),
{
    renderings_follow_events(follows, events, resolved, start, n);
}

/// Whether a line of text, code and breaks was said, with what is linked in it.
#[verifier::opaque]
spec fn has_said(before: PreviewView, after: PreviewView, text: Seq<char>) -> bool {
    &&& after.text == before.text + text
    &&& after.origin == before.origin
    &&& after.widgets == before.widgets
    &&& after.places == before.places
    &&& after.image == before.image
    &&& after.lists == before.lists
    &&& after.quotes == before.quotes
    &&& after.note == before.note
    &&& after.in_code == before.in_code
    &&& after.in_table == before.in_table
}

/// What an event of a line says.
proof fn words_are_said(state: PreviewView, event: EventView, n: int, resolved: Resolved)
    requires
        !state.in_code,
        !state.in_table,
        state.image is None,
        is_in_line(event),
    ensures
        has_said(state, state.step(event, n, resolved), words(event)),
{
    reveal(has_said);
    assert(state.text + Seq::<char>::empty() =~= state.text);
}

/// The rendering of the events from `start` up to `n`.
#[verifier::opaque]
spec fn rendering(
    follows: bool,
    events: Seq<EventView>,
    resolved: Seq<Resolved>,
    start: int,
    n: int,
) -> PreviewView {
    rendered(preview_start(follows), events, resolved, start, n)
}

/// What one more event of a line says.
proof fn rendering_says(
    follows: bool,
    events: Seq<EventView>,
    resolved: Seq<Resolved>,
    start: int,
    n: int,
)
    requires
        0 <= start <= n < events.len(),
        is_in_line(events[n]),
        stretch_at(events, start, n) is Text,
        !in_image(events, start, n),
    ensures
        has_said(
            rendering(follows, events, resolved, start, n),
            rendering(follows, events, resolved, start, n + 1),
            words(events[n]),
        ),
        stretch_at(events, start, n + 1) is Text,
        !in_image(events, start, n + 1),
{
    reveal(rendering);
    rendering_steps(follows, events, resolved, start, n);
    words_are_said(
        rendering(follows, events, resolved, start, n),
        events[n],
        n,
        resolved_at(resolved, n),
    );
}

/// One text is said after the other.
proof fn texts_are_said(
    first: PreviewView,
    second: PreviewView,
    third: PreviewView,
    one: Seq<char>,
    other: Seq<char>,
)
    requires
        has_said(first, second, one),
        has_said(second, third, other),
    ensures
        has_said(first, third, one + other),
{
    reveal(has_said);
    assert(first.text + (one + other) =~= first.text + one + other);
}

/// What a line says.
proof fn rendering_says_lines(
    follows: bool,
    events: Seq<EventView>,
    resolved: Seq<Resolved>,
    start: int,
    a: int,
    b: int,
)
    requires
        0 <= start <= a <= b <= events.len(),
        forall|k: int| a <= k < b ==> is_in_line(#[trigger] events[k]),
        stretch_at(events, start, a) is Text,
        !in_image(events, start, a),
    ensures
        has_said(
            rendering(follows, events, resolved, start, a),
            rendering(follows, events, resolved, start, b),
            said(events, a, b),
        ),
        stretch_at(events, start, b) is Text,
        !in_image(events, start, b),
    decreases b - a,
{
    let first = rendering(follows, events, resolved, start, a);
    if a == b {
        reveal(has_said);
        assert(first.text + said(events, a, b) =~= first.text);
    } else {
        rendering_says_lines(follows, events, resolved, start, a, b - 1);
        assert(is_in_line(events[b - 1]));
        rendering_says(follows, events, resolved, start, b - 1);
        texts_are_said(
            first,
            rendering(follows, events, resolved, start, b - 1),
            rendering(follows, events, resolved, start, b),
            said(events, a, b - 1),
            words(events[b - 1]),
        );
    }
}

/// A line of text, code and breaks says its words: the text of its text and code, with a space
/// for every soft break and a line break for every hard one, and nothing else.
pub proof fn lines_say_their_words(
    follows: bool,
    events: Seq<EventView>,
    resolved: Seq<Resolved>,
    start: int,
    a: int,
    b: int,
)
    requires
        0 <= start <= a <= b <= events.len(),
        forall|k: int| a <= k < b ==> is_in_line(#[trigger] events[k]),
        stretch_at(events, start, a) is Text,
        !in_image(events, start, a),
    ensures
        ({
            let before = rendered(preview_start(follows), events, resolved, start, a);
            let after = rendered(preview_start(follows), events, resolved, start, b);
            &&& after.text == before.text + said(events, a, b)
            &&& after.origin == before.origin
            &&& after.widgets == before.widgets
            &&& after.places == before.places
        }),
{
    rendering_says_lines(follows, events, resolved, start, a, b);
    assert(rendering(follows, events, resolved, start, a) == rendered(
        preview_start(follows),
        events,
        resolved,
        start,
        a,
    ) && rendering(follows, events, resolved, start, b) == rendered(
        preview_start(follows),
        events,
        resolved,
        start,
        b,
    )) by {
        reveal(rendering);
    }
    let before = rendering(follows, events, resolved, start, a);
    let after = rendering(follows, events, resolved, start, b);
    assert(after.text == before.text + said(events, a, b) && after.origin == before.origin
        && after.widgets == before.widgets && after.places == before.places) by {
        reveal(has_said);
    }
}

/// Whether only the line breaks that are missing follow `text`: none if it is empty, and so many
/// that it ends with two otherwise.
pub open spec fn ends_block(text: Seq<char>, after: Seq<char>) -> bool {
    &&& text.is_prefix_of(after)
    &&& after.len() <= text.len() + 2
    &&& forall|i: int| text.len() <= i < after.len() ==> #[trigger] after[i] == '\n'
    &&& text.len() == 0 ==> after.len() == 0
    &&& text.len() > 0 && after.len() > 1 ==> after.last() == '\n' && after[after.len() - 2] == '\n'
    &&& text.len() > 1 && text.last() == '\n' && text[text.len() - 2] == '\n' ==> after == text
}

/// The text with the line break that is missing after it, if a line does not start there.
pub open spec fn on_line(text: Seq<char>) -> Seq<char> {
    if text.len() == 0 || text.last() == '\n' || text.last() == '\r' || text.last()
        == '\u{2029}' {
        text
    } else {
        text.push('\n')
    }
}

/// What the end of a block and of a line adds.
proof fn breaks_end(state: PreviewView)
    ensures
        ends_block(state.text, state.end_block().text),
        state.start_line().text == on_line(state.text),
{
    reveal_strlit("\n");
    reveal_strlit("\n\n");
    assert(state.start_line().text =~= state.text || state.start_line().text =~= state.text.push(
        '\n',
    ));
    assert(state.end_block().text.take(state.text.len() as int) =~= state.text);
    if crate::preview::breaks_at_end(state.text) == 2 {
        assert(state.end_block().text =~= state.text);
    }
}

/// A paragraph, a heading, a quote, a definition and a list that is in no other end with a blank
/// line, and an item and a title with a line.
pub proof fn blocks_end_apart(
    follows: bool,
    events: Seq<EventView>,
    resolved: Seq<Resolved>,
    start: int,
    n: int,
    tag: TagEnd,
)
    requires
        0 <= start <= n < events.len(),
        events[n] == EventView::End(tag),
        stretch_at(events, start, n) is Text,
    ensures
        ({
            let before = rendered(preview_start(follows), events, resolved, start, n).text;
            let after = rendered(preview_start(follows), events, resolved, start, n + 1).text;
            match tag {
                TagEnd::Paragraph
                | TagEnd::Heading(_)
                | TagEnd::BlockQuote(_)
                | TagEnd::DefinitionListDefinition => ends_block(before, after),
                TagEnd::List(_) => if listed(events, start, n) <= 1 {
                    ends_block(before, after)
                } else {
                    after == before
                },
                TagEnd::Item | TagEnd::DefinitionListTitle => after == on_line(before),
                TagEnd::Emphasis
                | TagEnd::Strong
                | TagEnd::Strikethrough
                | TagEnd::Link => after == before,
                _ => true,
            }
        }),
{
    rendering_steps(follows, events, resolved, start, n);
    breaks_end(rendered(preview_start(follows), events, resolved, start, n));
}

/// The lists that are open after the events from `start` up to `n`, outside code blocks and
/// tables, the innermost last: the number of the next item of each that is numbered.
pub open spec fn lists_at(events: Seq<EventView>, start: int, n: int) -> Seq<Option<int>>
    decreases n - start,
{
    if n <= start {
        Seq::empty()
    } else {
        let before = lists_at(events, start, n - 1);
        if !(stretch_at(events, start, n - 1) is Text) {
            before
        } else {
            match events[n - 1] {
                MdEvent::Start(MdTag::List(None)) => before.push(None),
                MdEvent::Start(MdTag::List(Some(first))) => before.push(Some(first as int)),
                MdEvent::Start(MdTag::Item) if before.len() > 0 => before.drop_last().push(
                    match before.last() {
                        Some(number) => Some(number + 1),
                        None => None,
                    },
                ),
                MdEvent::End(TagEnd::List(_)) if before.len() > 0 => before.drop_last(),
                _ => before,
            }
        }
    }
}

/// The open lists are counted on from item to item.
proof fn lists_are_counted_on(
    follows: bool,
    events: Seq<EventView>,
    resolved: Seq<Resolved>,
    start: int,
    n: int,
)
    requires
        0 <= start <= n <= events.len() < u64::MAX,
    ensures
        ({
            let lists = rendering(follows, events, resolved, start, n).lists;
            &&& numbers_of(lists) == lists_at(events, start, n)
            &&& numbers_fit(lists, n)
        }),
    decreases n - start,
{
    if n == start {
        reveal(rendering);
        assert(numbers_of(rendering(follows, events, resolved, start, n).lists) =~= lists_at(
            events,
            start,
            n,
        ));
    } else {
        lists_are_counted_on(follows, events, resolved, start, n - 1);
        let lists = rendering(follows, events, resolved, start, n - 1).lists;
        let first = match events[n - 1] {
            MdEvent::Start(MdTag::List(first)) => first,
            _ => None,
        };
        lists_are_followed(lists, first, n - 1);
        crate::preview_text_laws::lists_follow_events(
            follows,
            events,
            resolved,
            start,
            n - 1,
        );
        assert(rendering(follows, events, resolved, start, n - 1) == rendered(
            preview_start(follows),
            events,
            resolved,
            start,
            n - 1,
        ) && rendering(follows, events, resolved, start, n) == rendered(
            preview_start(follows),
            events,
            resolved,
            start,
            n,
        )) by {
            reveal(rendering);
        }
    }
}

/// An item shows its number, counted on from the first of its list, or a bullet, in bold.
pub proof fn items_show_their_markers(
    follows: bool,
    events: Seq<EventView>,
    resolved: Seq<Resolved>,
    start: int,
    n: int,
)
    requires
        0 <= start <= n < events.len() < u64::MAX,
        events[n] == EventView::Start(MdTag::Item),
        stretch_at(events, start, n) is Text,
    ensures
        ({
            let before = rendered(preview_start(follows), events, resolved, start, n);
            let after = rendered(preview_start(follows), events, resolved, start, n + 1);
            let marker = item_marker(lists_at(events, start, n));
            &&& after.text == before.text + marker
            &&& after.spans == before.spans.push(
                (end_of(before), end_of(after), seq![TextTag::Bold] + before.tags),
            )
        }),
{
    lists_are_counted_on(follows, events, resolved, start, n);
    rendering_steps(follows, events, resolved, start, n);
    let before = rendered(preview_start(follows), events, resolved, start, n);
    assert(rendering(follows, events, resolved, start, n) == before) by {
        reveal(rendering);
    }
    lists_are_followed(before.lists, None, n);
}

/// A box is black if its task is done and white if it is not, and can be clicked.
pub proof fn boxes_show_what_is_done(
    follows: bool,
    events: Seq<EventView>,
    resolved: Seq<Resolved>,
    start: int,
    n: int,
    done: bool,
)
    requires
        0 <= start <= n < events.len(),
        events[n] == EventView::TaskListMarker(done),
        stretch_at(events, start, n) is Text,
    ensures
        ({
            let before = rendered(preview_start(follows), events, resolved, start, n);
            let after = rendered(preview_start(follows), events, resolved, start, n + 1);
            &&& after.text == before.text + if done {
                "\u{25a0} "@
            } else {
                "\u{25a1} "@
            }
            &&& after.places == before.places.push((Place::Box, end_of(before)))
        }),
{
    rendering_steps(follows, events, resolved, start, n);
}

/// Links lead to headings, to footnotes and to the references to them, and quotes that are in no
/// other have a start and an end.
pub proof fn places_are_kept(
    follows: bool,
    events: Seq<EventView>,
    resolved: Seq<Resolved>,
    start: int,
    n: int,
)
    requires
        0 <= start <= n < events.len(),
        stretch_at(events, start, n) is Text,
    ensures
        ({
            let before = rendered(preview_start(follows), events, resolved, start, n);
            let after = rendered(preview_start(follows), events, resolved, start, n + 1);
            match events[n] {
                MdEvent::Start(MdTag::Heading { .. }) => after.places == before.places.push(
                    (Place::Heading, end_of(before)),
                ) && after.text == before.text,
                MdEvent::Start(MdTag::BlockQuote(kind)) => after.places == if quoted(
                    events,
                    start,
                    n,
                ) == 0 {
                    before.places.push(
                        (
                            Place::Quote(
                                match kind {
                                    Some(kind) => Some(alert_of(kind)),
                                    None => None,
                                },
                            ),
                            end_of(before),
                        ),
                    )
                } else {
                    before.places
                },
                MdEvent::End(TagEnd::BlockQuote(_)) => {
                    &&& quoted(events, start, n) != 1 ==> after.places == before.places
                    &&& quoted(events, start, n) == 1 ==> after.places.len()
                        == before.places.len() + 1 && after.places.last().0 == Place::<
                        Seq<char>,
                    >::QuoteEnd && ({
                        let text = before.text;
                        let breaks = if text.len() == 0 || text.last() != '\n' {
                            0int
                        } else if text.len() == 1 || text[text.len() - 2] != '\n' {
                            1
                        } else {
                            2
                        };
                        end_of(before) >= breaks ==> after.places.last().1 == end_of(before)
                            - breaks
                    })
                },
                MdEvent::FootnoteReference(name) => {
                    let shown = "["@ + name + "]"@;
                    &&& after.places == before.places.push((Place::Reference(name), end_of(before)))
                    &&& after.text == before.text + shown
                    &&& after.links == before.links.push(
                        (end_of(before), end_of(after), "#"@ + ("fn:"@ + name)),
                    )
                    &&& after.spans == before.spans.push(
                        (end_of(before), end_of(after), seq![TextTag::Footnote]),
                    )
                },
                MdEvent::Start(MdTag::FootnoteDefinition(name)) => {
                    &&& after.places.len() == before.places.len() + 1
                    &&& after.places.last().0 == Place::Note(name)
                    &&& after.note == Some(name)
                    &&& after.text.len() - ("["@ + name + "]: "@).len() == after.places.last().1
                        + after.origin
                    &&& after.text.skip(
                        after.text.len() - ("["@ + name + "]: "@).len(),
                    ) == "["@ + name + "]: "@
                },
                MdEvent::End(TagEnd::FootnoteDefinition) => before.note matches Some(name) ==> {
                    &&& after.note is None
                    &&& after.links == before.links.push(
                        (end_of(before), end_of(before) + 1, "#"@ + ("fnref:"@ + name)),
                    )
                    &&& ends_block(before.text + "\u{21a9}"@, after.text)
                },
                _ => true,
            }
        }),
{
    rendering_steps(follows, events, resolved, start, n);
    let before = rendered(preview_start(follows), events, resolved, start, n);
    let after = rendered(preview_start(follows), events, resolved, start, n + 1);
    match events[n] {
        MdEvent::Start(MdTag::FootnoteDefinition(name)) => {
            let label = "["@ + name + "]: "@;
            assert(after.text.skip(after.text.len() - label.len()) =~= label);
        },
        MdEvent::End(TagEnd::FootnoteDefinition) => {
            reveal_strlit("\u{21a9}");
            match before.note {
                Some(name) => {
                    let said = (PreviewView { note: None, ..before }).insert_link(
                        "\u{21a9}"@,
                        seq![TextTag::Link],
                        "#"@ + crate::rewrite::reference_id_of(name),
                    );
                    breaks_end(said);
                },
                None => {},
            }
        },
        _ => {},
    }
}

/// A widget on a line of its own stands where a line starts, and is followed by a blank line, or
/// by a line in a list.
pub open spec fn stands_alone(
    before: PreviewView,
    after: PreviewView,
    widget: WidgetView,
    lists: nat,
) -> bool {
    let text = on_line(before.text).push('\u{fffc}');
    &&& after.widgets == before.widgets.push(
        (on_line(before.text).len() - before.origin, widget),
    )
    &&& lists == 0 ==> ends_block(text, after.text)
    &&& lists > 0 ==> after.text == on_line(text)
    &&& after.spans == before.spans
    &&& after.links == before.links
    &&& after.places == before.places
}

/// A widget on a line of its own.
proof fn widgets_stand_alone(state: PreviewView, widget: WidgetView)
    ensures
        stands_alone(state, state.widget_block(widget), widget, state.lists.len()),
{
    breaks_end(state);
    let next = state.start_line().anchor(widget);
    breaks_end(next);
    assert(next.text =~= on_line(state.text).push('\u{fffc}'));
}

/// Code is kept until its block ends.
proof fn code_is_kept(
    follows: bool,
    events: Seq<EventView>,
    resolved: Seq<Resolved>,
    start: int,
    a: int,
    b: int,
)
    requires
        0 <= start <= a < b <= events.len(),
        events[a] is Start,
        events[a]->Start_0 is CodeBlock,
        stretch_at(events, start, a) is Text,
        forall|k: int| a < k < b ==> (#[trigger] events[k]) is Text,
    ensures
        stretch_at(events, start, b) is Code,
        rendering(follows, events, resolved, start, b) == (PreviewView {
            in_code: true,
            code: said(events, a + 1, b),
            code_info: match events[a]->Start_0->CodeBlock_0 {
                Some(info) => info,
                None => Seq::empty(),
            },
            ..rendering(follows, events, resolved, start, a)
        }),
    decreases b - a,
{
    if b == a + 1 {
        reveal(rendering);
        rendering_steps(follows, events, resolved, start, a);
    } else {
        code_is_kept(follows, events, resolved, start, a, b - 1);
        assert(events[b - 1] is Text);
        let before = rendering(follows, events, resolved, start, b - 1);
        assert(rendering(follows, events, resolved, start, b) == before.step(
            events[b - 1],
            b - 1,
            resolved_at(resolved, b - 1),
        )) by {
            reveal(rendering);
        }
    }
}

/// A code block shows its text, without the line breaks at its end, on lines of its own, and
/// knows the language it is in and how deep it is in lists and quotes.
pub proof fn code_blocks_show_their_code(
    follows: bool,
    events: Seq<EventView>,
    resolved: Seq<Resolved>,
    start: int,
    a: int,
    b: int,
    info: Option<Seq<char>>,
)
    requires
        0 <= start <= a < b < events.len(),
        events[a] == EventView::Start(MdTag::CodeBlock(info)),
        events[b] == EventView::End(TagEnd::CodeBlock),
        forall|k: int| a < k < b ==> (#[trigger] events[k]) is Text,
        stretch_at(events, start, a) is Text,
    ensures
        stands_alone(
            rendered(preview_start(follows), events, resolved, start, a),
            rendered(preview_start(follows), events, resolved, start, b + 1),
            WidgetView::Code {
                code: drop_end(said(events, a + 1, b), '\n'),
                info: match info {
                    Some(info) => info,
                    None => Seq::empty(),
                },
                lists: listed(events, start, a) as int,
                quotes: quoted(events, start, a) as int,
            },
            listed(events, start, a),
        ),
{
    code_is_kept(follows, events, resolved, start, a, b);
    renderings_follow_events(follows, events, resolved, start, a);
    assert(rendering(follows, events, resolved, start, a) == rendered(
        preview_start(follows),
        events,
        resolved,
        start,
        a,
    ) && rendering(follows, events, resolved, start, b).step(
        events[b],
        b,
        resolved_at(resolved, b),
    ) == rendered(preview_start(follows), events, resolved, start, b + 1)) by {
        reveal(rendering);
    }
    let before = rendering(follows, events, resolved, start, a);
    let full = rendering(follows, events, resolved, start, b);
    let ended = PreviewView { in_code: false, ..full };
    widgets_stand_alone(
        ended,
        WidgetView::Code {
            code: drop_end(full.code, '\n'),
            info: full.code_info,
            lists: full.lists.len() as int,
            quotes: full.quotes,
        },
    );
}

/// A table that ends is shown on lines of its own, with its rows and the alignments of its
/// columns; a table that starts has no rows, a row that ends is the next of its table, and a cell
/// that ends is the next of its row.
pub proof fn tables_show_their_rows(
    follows: bool,
    events: Seq<EventView>,
    resolved: Seq<Resolved>,
    start: int,
    n: int,
)
    requires
        0 <= start <= n < events.len(),
    ensures
        ({
            let before = rendered(preview_start(follows), events, resolved, start, n);
            let after = rendered(preview_start(follows), events, resolved, start, n + 1);
            &&& stretch_at(events, start, n) is Text ==> (events[n] matches EventView::Start(
                MdTag::Table(alignments),
            ) ==> after.rows.len() == 0 && after.alignments == alignments)
            &&& stretch_at(events, start, n) is Table ==> match events[n] {
                MdEvent::Start(MdTag::TableHead) | MdEvent::Start(MdTag::TableRow) =>
                after.row.len() == 0 && after.rows == before.rows,
                MdEvent::End(TagEnd::TableHead) | MdEvent::End(TagEnd::TableRow) => after.rows
                    == before.rows.push(before.row) && after.alignments == before.alignments,
                MdEvent::Start(MdTag::TableCell) => after.cell.len() == 0 && after.cell_open.len()
                    == 0 && after.row == before.row && after.rows == before.rows,
                MdEvent::End(TagEnd::TableCell) => {
                    &&& after.rows == before.rows
                    &&& after.row.len() == before.row.len() + 1
                    &&& after.row.drop_last() == before.row
                    &&& before.cell.is_prefix_of(after.row.last())
                    &&& before.cell_open.len() == 0 ==> after.row.last() == before.cell
                },
                MdEvent::Text(text) => after.cell == before.cell.push(CellPart::Text(text))
                    && after.cell_open == before.cell_open && after.row == before.row && after.rows
                    == before.rows,
                MdEvent::Code(text) => after.cell == before.cell.push(CellPart::Code(text))
                    && after.cell_open == before.cell_open && after.row == before.row && after.rows
                    == before.rows,
                MdEvent::Start(MdTag::Strong) => opens(before, after, Mark::BoldStart),
                MdEvent::Start(MdTag::Emphasis) => opens(before, after, Mark::ItalicStart),
                MdEvent::Start(MdTag::Strikethrough) => opens(
                    before,
                    after,
                    Mark::StrikethroughStart,
                ),
                MdEvent::End(TagEnd::Table) => stands_alone(
                    before,
                    after,
                    WidgetView::Table {
                        rows: before.rows,
                        alignments: before.alignments,
                        lists: listed(events, start, n) as int,
                        quotes: quoted(events, start, n) as int,
                    },
                    listed(events, start, n),
                ),
                _ => true,
            }
        }),
{
    rendering_steps(follows, events, resolved, start, n);
    let before = rendered(preview_start(follows), events, resolved, start, n);
    let after = rendered(preview_start(follows), events, resolved, start, n + 1);
    if stretch_at(events, start, n) is Table {
        match events[n] {
            MdEvent::End(TagEnd::TableCell) => {
                assert(after.row.drop_last() =~= before.row);
                let cell = after.row.last();
                assert(cell.take(before.cell.len() as int) =~= before.cell);
                if before.cell_open.len() == 0 {
                    assert(cell =~= before.cell);
                }
            },
            MdEvent::End(TagEnd::Table) => {
                widgets_stand_alone(
                    PreviewView { in_table: false, ..before },
                    WidgetView::Table {
                        rows: before.rows,
                        alignments: before.alignments,
                        lists: before.lists.len() as int,
                        quotes: before.quotes,
                    },
                );
            },
            _ => {},
        }
    }
}

/// Whether a mark starts a style in a cell.
pub open spec fn opens(before: PreviewView, after: PreviewView, mark: Mark) -> bool {
    &&& after.cell == before.cell.push(CellPart::Mark(mark))
    &&& after.cell_open == before.cell_open.push(CellPart::Mark(mark))
    &&& after.row == before.row
    &&& after.rows == before.rows
}

/// A rule, a formula that typesets and a picture are widgets in the text; a formula that does not
/// typeset shows as its source.
pub proof fn widgets_stand_in_the_text(
    follows: bool,
    events: Seq<EventView>,
    resolved: Seq<Resolved>,
    start: int,
    n: int,
)
    requires
        0 <= start <= n < events.len(),
        stretch_at(events, start, n) is Text,
        !in_image(events, start, n),
    ensures
        ({
            let before = rendered(preview_start(follows), events, resolved, start, n);
            let after = rendered(preview_start(follows), events, resolved, start, n + 1);
            let shown = n < resolved.len() && resolved[n] is Shown;
            match events[n] {
                MdEvent::Rule => {
                    &&& after.widgets == before.widgets.push((end_of(before), WidgetView::Rule))
                    &&& ends_block(before.text.push('\u{fffc}'), after.text)
                },
                MdEvent::InlineMath(latex) => if shown {
                    &&& after.widgets == before.widgets.push(
                        (end_of(before), WidgetView::Math { event: n, display: false }),
                    )
                    &&& after.text == before.text.push('\u{fffc}')
                } else {
                    after.widgets == before.widgets && after.text == before.text + latex
                },
                MdEvent::DisplayMath(latex) => if shown {
                    &&& after.widgets == before.widgets.push(
                        (
                            on_line(before.text).len() - before.origin,
                            WidgetView::Math { event: n, display: true },
                        ),
                    )
                    &&& after.text == on_line(on_line(before.text).push('\u{fffc}'))
                } else {
                    after.widgets == before.widgets && after.text == before.text + latex
                },
                MdEvent::Start(MdTag::Image { .. }) => {
                    &&& after.image == Some((shown, n, Seq::<char>::empty()))
                    &&& shown ==> after.text == before.text.push('\u{fffc}') && after.widgets
                        == before.widgets.push((end_of(before), WidgetView::Picture { event: n }))
                    &&& !shown ==> after.text == before.text && after.widgets == before.widgets
                    &&& n < resolved.len() && !(resolved[n] is Elsewhere) ==> after.images
                        == before.images.push(n)
                },
                _ => true,
            }
        }),
{
    rendering_steps(follows, events, resolved, start, n);
    let before = rendered(preview_start(follows), events, resolved, start, n);
    breaks_end(before);
    match events[n] {
        MdEvent::Rule => {
            let next = before.anchor(WidgetView::Rule);
            assert(next.text =~= before.text.push('\u{fffc}'));
            breaks_end(next);
        },
        MdEvent::InlineMath(_) => {
            let next = before.anchor(WidgetView::Math { event: n, display: false });
            assert(next.text =~= before.text.push('\u{fffc}'));
        },
        MdEvent::DisplayMath(_) => {
            let next = before.start_line().anchor(WidgetView::Math { event: n, display: true });
            assert(next.text =~= on_line(before.text).push('\u{fffc}'));
            breaks_end(next);
        },
        MdEvent::Start(MdTag::Image { .. }) => {
            let next = before.anchor(WidgetView::Picture { event: n });
            assert(next.text =~= before.text.push('\u{fffc}'));
        },
        _ => {},
    }
}

/// The text of an image is not said while the image is open. When it ends, it is the alternative
/// text of its picture, or is said in its place if there is none.
pub proof fn images_have_a_text(
    follows: bool,
    events: Seq<EventView>,
    resolved: Seq<Resolved>,
    start: int,
    n: int,
)
    requires
        0 <= start <= n < events.len(),
        stretch_at(events, start, n) is Text,
        in_image(events, start, n),
    ensures
        ({
            let before = rendered(preview_start(follows), events, resolved, start, n);
            let after = rendered(preview_start(follows), events, resolved, start, n + 1);
            let (shown, event, alt) = before.image->0;
            match events[n] {
                MdEvent::Text(text) | MdEvent::Code(text) => after.image == Some(
                    (shown, event, alt + text),
                ) && after.text == before.text && after.spans == before.spans,
                MdEvent::SoftBreak | MdEvent::HardBreak => after.image == Some(
                    (shown, event, alt + " "@),
                ) && after.text == before.text,
                MdEvent::End(TagEnd::Image) => {
                    &&& after.image is None
                    &&& shown ==> after.text == before.text
                    &&& shown && alt.len() > 0 ==> after.alts == before.alts.push((event, alt))
                    &&& !shown ==> after.text == before.text + alt && after.alts == before.alts
                    &&& !shown && alt.len() > 0 ==> after.spans == before.spans.push(
                        (end_of(before), end_of(after), seq![TextTag::ImageAlt] + before.tags),
                    )
                },
                _ => true,
            }
        }),
{
    rendering_steps(follows, events, resolved, start, n);
    let before = rendered(preview_start(follows), events, resolved, start, n);
    let (shown, event, alt) = before.image->0;
    if alt.len() == 0 {
        assert(before.text + alt =~= before.text);
    }
}

/// Words between the start and the end of a link leave the links as they are.
proof fn links_are_kept(
    follows: bool,
    events: Seq<EventView>,
    resolved: Seq<Resolved>,
    start: int,
    a: int,
    b: int,
)
    requires
        0 <= start <= a <= b <= events.len(),
        forall|k: int| a <= k < b ==> is_in_line(#[trigger] events[k]) && !is_link_end(events[k]),
        stretch_at(events, start, a) is Text,
        !in_image(events, start, a),
    ensures
        ({
            let before = rendering(follows, events, resolved, start, a);
            let after = rendering(follows, events, resolved, start, b);
            after.links == before.links && after.link_starts == before.link_starts
        }),
    decreases b - a,
{
    if a < b {
        links_are_kept(follows, events, resolved, start, a, b - 1);
        rendering_says_lines(follows, events, resolved, start, a, b - 1);
        assert(is_in_line(events[b - 1]) && !is_link_end(events[b - 1]));
        reveal(rendering);
        rendering_steps(follows, events, resolved, start, b - 1);
        words_keep_links(
            rendering(follows, events, resolved, start, b - 1),
            events[b - 1],
            b - 1,
            resolved_at(resolved, b - 1),
        );
    }
}

/// Whether an event starts or ends a link.
pub open spec fn is_link_end(event: EventView) -> bool {
    ||| event matches EventView::Start(MdTag::Link { .. })
    ||| event == EventView::End(TagEnd::Link)
}

/// An event of a line that neither starts nor ends a link leaves the links as they are.
proof fn words_keep_links(state: PreviewView, event: EventView, n: int, resolved: Resolved)
    requires
        !state.in_code,
        !state.in_table,
        state.image is None,
        is_in_line(event),
        !is_link_end(event),
    ensures
        state.step(event, n, resolved).links == state.links,
        state.step(event, n, resolved).link_starts == state.link_starts,
{
}

/// A link leads to its address from all of its words.
pub proof fn links_cover_their_words(
    follows: bool,
    events: Seq<EventView>,
    resolved: Seq<Resolved>,
    start: int,
    a: int,
    b: int,
    url: Seq<char>,
)
    requires
        0 <= start <= a < b < events.len(),
        events[a] matches EventView::Start(MdTag::Link { dest_url, .. }) && dest_url == url,
        events[b] == EventView::End(TagEnd::Link),
        forall|k: int| a < k < b ==> is_in_line(#[trigger] events[k]) && !is_link_end(events[k]),
        stretch_at(events, start, a) is Text,
        !in_image(events, start, a),
    ensures
        ({
            let before = rendered(preview_start(follows), events, resolved, start, a);
            let after = rendered(preview_start(follows), events, resolved, start, b + 1);
            &&& after.text == before.text + said(events, a + 1, b)
            &&& after.links == before.links.push((end_of(before), end_of(after), url))
        }),
{
    rendering_says(follows, events, resolved, start, a);
    links_are_kept(follows, events, resolved, start, a + 1, b);
    rendering_says_lines(follows, events, resolved, start, a, b);
    rendering_says(follows, events, resolved, start, b);
    link_starts(follows, events, resolved, start, a, url);
    link_ends(follows, events, resolved, start, b);
    assert(said(events, a, b) == said(events, a + 1, b)) by {
        said_from(events, a, b);
        assert(words(events[a]) + said(events, a + 1, b) =~= said(events, a + 1, b));
    }
    let before = rendering(follows, events, resolved, start, a);
    let after = rendering(follows, events, resolved, start, b + 1);
    assert(before == rendered(preview_start(follows), events, resolved, start, a) && after
        == rendered(preview_start(follows), events, resolved, start, b + 1)) by {
        reveal(rendering);
    }
    reveal(has_said);
    assert(after.text =~= before.text + said(events, a + 1, b));
}

/// What events say, the first before the others.
proof fn said_from(events: Seq<EventView>, a: int, b: int)
    requires
        a < b,
    ensures
        said(events, a, b) == words(events[a]) + said(events, a + 1, b),
    decreases b - a,
{
    if b == a + 1 {
        assert(said(events, a, a) =~= Seq::<char>::empty());
        assert(said(events, a + 1, b) =~= Seq::<char>::empty());
        assert(said(events, a, b) =~= words(events[a]) + said(events, a + 1, b));
    } else {
        said_from(events, a, b - 1);
        assert(said(events, a, b) =~= words(events[a]) + said(events, a + 1, b));
    }
}

/// A link that starts.
proof fn link_starts(
    follows: bool,
    events: Seq<EventView>,
    resolved: Seq<Resolved>,
    start: int,
    n: int,
    url: Seq<char>,
)
    requires
        0 <= start <= n < events.len(),
        events[n] matches EventView::Start(MdTag::Link { dest_url, .. }) && dest_url == url,
        stretch_at(events, start, n) is Text,
    ensures
        ({
            let before = rendering(follows, events, resolved, start, n);
            let after = rendering(follows, events, resolved, start, n + 1);
            &&& after.links == before.links
            &&& after.link_starts == before.link_starts.push((url, end_of(before)))
        }),
{
    reveal(rendering);
    rendering_steps(follows, events, resolved, start, n);
}

/// A link that ends.
proof fn link_ends(
    follows: bool,
    events: Seq<EventView>,
    resolved: Seq<Resolved>,
    start: int,
    n: int,
)
    requires
        0 <= start <= n < events.len(),
        events[n] == EventView::End(TagEnd::Link),
        stretch_at(events, start, n) is Text,
    ensures
        ({
            let before = rendering(follows, events, resolved, start, n);
            let after = rendering(follows, events, resolved, start, n + 1);
            before.link_starts.len() > 0 ==> after.links == before.links.push(
                (before.link_starts.last().1, end_of(before), before.link_starts.last().0),
            )
        }),
{
    reveal(rendering);
    rendering_steps(follows, events, resolved, start, n);
}

/// The text among the first `n` parts of raw HTML.
pub open spec fn words_of_parts(parts: Seq<PartView>, n: int) -> Seq<char>
    decreases n,
{
    if n <= 0 {
        Seq::empty()
    } else {
        words_of_parts(parts, n - 1) + match parts[n - 1] {
            HtmlPart::Text(text) => text,
            _ => Seq::empty(),
        }
    }
}

/// Whether parts of raw HTML are nothing but text and its styles.
pub open spec fn is_styled_text(parts: Seq<PartView>) -> bool {
    forall|i: int|
        0 <= i < parts.len() ==> (#[trigger] parts[i]) is Text || parts[i] is StyleStart || parts[i]
            is StyleEnd
}

/// Parts of raw HTML that are text and its styles say the text, or nothing if they are to be
/// silent.
proof fn parts_say_their_text(state: PreviewView, parts: Seq<PartView>, n: int, silent: bool)
    requires
        0 <= n <= parts.len(),
        is_styled_text(parts),
        state.image is None,
    ensures
        ({
            let next = state.say_parts(parts, n, silent);
            &&& next.text == if silent {
                state.text
            } else {
                state.text + words_of_parts(parts, n)
            }
            &&& next.image is None
            &&& next.places == state.places
            &&& next.widgets == state.widgets
        }),
    decreases n,
{
    if n > 0 {
        parts_say_their_text(state, parts, n - 1, silent);
        let before = state.say_parts(parts, n - 1, silent);
        let part = parts[n - 1];
        assert(part is Text || part is StyleStart || part is StyleEnd);
        assert(state.text + words_of_parts(parts, n) =~= state.text + words_of_parts(parts, n - 1)
            + match part {
            HtmlPart::Text(text) => text,
            _ => Seq::empty(),
        });
        assert(before.text + Seq::<char>::empty() =~= before.text);
    } else {
        assert(state.text + words_of_parts(parts, n) =~= state.text);
    }
}

/// Raw HTML that is text and its styles says the text; a block of nothing but markup says nothing.
pub proof fn raw_html_says_its_text(
    follows: bool,
    events: Seq<EventView>,
    resolved: Seq<Resolved>,
    start: int,
    n: int,
    html: Seq<char>,
)
    requires
        0 <= start <= n < events.len(),
        events[n] == EventView::InlineHtml(html) || events[n] == EventView::Html(html),
        stretch_at(events, start, n) is Text,
        !in_image(events, start, n),
        is_styled_text(parts_of(html)),
    ensures
        ({
            let before = rendered(preview_start(follows), events, resolved, start, n);
            let after = rendered(preview_start(follows), events, resolved, start, n + 1);
            &&& after.text == if events[n] is Html && is_markup(html) {
                before.text
            } else {
                before.text + words_of_parts(parts_of(html), parts_of(html).len() as int)
            }
            &&& after.places == before.places
            &&& after.widgets == before.widgets
        }),
{
    rendering_steps(follows, events, resolved, start, n);
    let before = rendered(preview_start(follows), events, resolved, start, n);
    let parts = parts_of(html);
    parts_say_their_text(before, parts, parts.len() as int, events[n] is Html && is_markup(html));
}

/// The start of a `<details>` element, the end of its summary and its own end are places at the
/// start of a line, and a summary is shown as one.
pub proof fn details_have_their_places(
    follows: bool,
    events: Seq<EventView>,
    resolved: Seq<Resolved>,
    start: int,
    n: int,
    html: Seq<char>,
    part: PartView,
)
    requires
        0 <= start <= n < events.len(),
        events[n] == EventView::InlineHtml(html) || events[n] == EventView::Html(html),
        stretch_at(events, start, n) is Text,
        !in_image(events, start, n),
        parts_of(html) == seq![part],
    ensures
        ({
            let before = rendered(preview_start(follows), events, resolved, start, n);
            let after = rendered(preview_start(follows), events, resolved, start, n + 1);
            let at = on_line(before.text).len() - before.origin;
            match part {
                HtmlPart::DetailsStart { open } => after.text == on_line(before.text)
                    && after.places == before.places.push((Place::Details(open), at)),
                HtmlPart::DetailsEnd => after.text == on_line(before.text) && after.places
                    == before.places.push((Place::DetailsEnd, at)),
                HtmlPart::SummaryStart => after.text == on_line(before.text) && after.places
                    == before.places && after.tags == before.tags.push(TextTag::Summary),
                HtmlPart::SummaryEnd => after.text == on_line(before.text) && after.places
                    == before.places.push((Place::Content, at)),
                HtmlPart::BlockStart(block) => after.text == on_line(before.text) && (block.align
                    matches Some(align) ==> after.tags.len() > 0 && after.tags.last()
                    == TextTag::Align(align)),
                HtmlPart::BlockEnd { .. } => after.text == on_line(before.text),
                _ => true,
            }
        }),
{
    rendering_steps(follows, events, resolved, start, n);
    let before = rendered(preview_start(follows), events, resolved, start, n);
    let parts = parts_of(html);
    breaks_end(before);
    reveal_with_fuel(PreviewView::say_parts, 2);
    assert(parts.len() == 1 && parts[0] == part);
}

/// Lists, titles and definitions start on a line, and what starts in a line starts where it is.
pub proof fn blocks_start_on_a_line(
    follows: bool,
    events: Seq<EventView>,
    resolved: Seq<Resolved>,
    start: int,
    n: int,
    tag: TagView,
)
    requires
        0 <= start <= n < events.len(),
        events[n] == EventView::Start(tag),
        stretch_at(events, start, n) is Text,
    ensures
        ({
            let before = rendered(preview_start(follows), events, resolved, start, n);
            let after = rendered(preview_start(follows), events, resolved, start, n + 1);
            match tag {
                MdTag::List(_)
                | MdTag::DefinitionListTitle
                | MdTag::DefinitionListDefinition => after.text == on_line(before.text),
                MdTag::Paragraph
                | MdTag::Heading { .. }
                | MdTag::BlockQuote(_)
                | MdTag::Emphasis
                | MdTag::Strong
                | MdTag::Strikethrough
                | MdTag::Link { .. }
                | MdTag::CodeBlock(_)
                | MdTag::Table(_) => after.text == before.text && after.spans == before.spans,
                _ => true,
            }
        }),
{
    rendering_steps(follows, events, resolved, start, n);
    breaks_end(rendered(preview_start(follows), events, resolved, start, n));
}

/// A reference to a footnote in a cell leads to its note, and is a place that the note leads back
/// to; a formula in a cell that typesets is a formula of its event, and one that does not shows as
/// its source.
pub proof fn cells_hold_references_and_math(
    follows: bool,
    events: Seq<EventView>,
    resolved: Seq<Resolved>,
    start: int,
    n: int,
)
    requires
        0 <= start <= n < events.len() <= usize::MAX,
        stretch_at(events, start, n) is Table,
    ensures
        ({
            let before = rendered(preview_start(follows), events, resolved, start, n);
            let after = rendered(preview_start(follows), events, resolved, start, n + 1);
            let shown = n < resolved.len() && resolved[n] is Shown;
            match events[n] {
                MdEvent::FootnoteReference(name) => {
                    &&& after.places == before.places.push((Place::Reference(name), end_of(before)))
                    &&& before.cell_open.len() == 0 ==> after.cell == before.cell + seq![
                        CellPart::LinkStart("#"@ + ("fn:"@ + name)),
                        CellPart::Text("["@ + name + "]"@),
                        CellPart::Mark(Mark::LinkEnd),
                    ]
                },
                MdEvent::InlineMath(latex) | MdEvent::DisplayMath(latex) => {
                    &&& shown && before.cell_open.len() == 0 ==> after.cell == before.cell.push(
                        CellPart::Math { event: n as usize },
                    )
                    &&& !shown ==> after.cell == before.cell.push(CellPart::Code(latex))
                },
                _ => true,
            }
        }),
{
    rendering_steps(follows, events, resolved, start, n);
    let before = rendered(preview_start(follows), events, resolved, start, n);
    let after = rendered(preview_start(follows), events, resolved, start, n + 1);
    if before.cell_open.len() == 0 {
        match events[n] {
            MdEvent::FootnoteReference(name) => {
                assert(after.cell =~= before.cell + seq![
                    CellPart::LinkStart("#"@ + ("fn:"@ + name)),
                    CellPart::Text("["@ + name + "]"@),
                    CellPart::Mark(Mark::LinkEnd),
                ]);
            },
            MdEvent::InlineMath(latex) | MdEvent::DisplayMath(latex) => {
                if resolved_at(resolved, n) is Shown {
                    assert(after.cell =~= before.cell.push(CellPart::Math { event: n as usize }));
                }
            },
            _ => {},
        }
    }
}

/// A tag of raw HTML that styles text starts that style in a cell too.
pub proof fn cells_are_styled_by_raw_html(
    follows: bool,
    events: Seq<EventView>,
    resolved: Seq<Resolved>,
    start: int,
    n: int,
    html: Seq<char>,
    part: PartView,
)
    requires
        0 <= start <= n < events.len(),
        events[n] == EventView::InlineHtml(html) || events[n] == EventView::Html(html),
        stretch_at(events, start, n) is Table,
        parts_of(html) == seq![part],
    ensures
        ({
            let before = rendered(preview_start(follows), events, resolved, start, n);
            let after = rendered(preview_start(follows), events, resolved, start, n + 1);
            match part {
                HtmlPart::Text(text) => after.cell == before.cell.push(CellPart::Text(text)),
                HtmlPart::StyleStart(HtmlStyle::Bold) => opens(before, after, Mark::BoldStart),
                HtmlPart::StyleStart(HtmlStyle::Italic) => opens(before, after, Mark::ItalicStart),
                HtmlPart::StyleStart(HtmlStyle::Strikethrough) => opens(
                    before,
                    after,
                    Mark::StrikethroughStart,
                ),
                HtmlPart::StyleStart(HtmlStyle::Underline) => opens(
                    before,
                    after,
                    Mark::UnderlineStart,
                ),
                HtmlPart::StyleStart(HtmlStyle::Mark) => opens(
                    before,
                    after,
                    Mark::HighlightStart,
                ),
                HtmlPart::StyleStart(_) | HtmlPart::StyleEnd(_) => true,
                _ => after.cell == before.cell,
            }
        }),
{
    rendering_steps(follows, events, resolved, start, n);
    let parts = parts_of(html);
    reveal_with_fuel(PreviewView::cell_html_parts, 2);
    assert(parts.len() == 1 && parts[0] == part);
}

}
