//! What the page of a document keeps of it.

use crate::around::said;
use crate::event::{EventView, MdEvent, MdTag};
use crate::export::{code_html, escaped, sanitized, CodeRun};
use crate::html::{parts_of, HtmlPart, HtmlStyle, PartView};
use crate::rewrite::{
    exported, number_among, numbered, page_events, runs_at, source_at, with_breaks, ExportView,
    Opened, RawView,
};
use crate::text::{drop_end, lowered, starts_with, trim};
use pulldown_cmark::TagEnd;
use vstd::prelude::*;

verus! {

/// What an event can stand in that a page writes as one piece of HTML.
pub enum Piece {
    Code,
    SizedImage,
}

/// Whether an image is shown: it is on the web, or there is a source for it.
pub open spec fn is_shown(url: Seq<char>, source: Option<Seq<char>>) -> bool {
    source is Some || starts_with(lowered(trim(url)), "http://"@) || starts_with(
        lowered(trim(url)),
        "https://"@,
    )
}

/// The code block, or the image with a width of its own, that is open after the first `n`
/// events.
pub open spec fn piece_at(
    events: Seq<EventView>,
    sources: Seq<Option<String>>,
    n: int,
) -> Option<Piece>
    decreases n,
{
    if n <= 0 {
        None
    } else {
        match piece_at(events, sources, n - 1) {
            Some(Piece::Code) => if events[n - 1] == EventView::End(TagEnd::CodeBlock) {
                None
            } else {
                Some(Piece::Code)
            },
            Some(Piece::SizedImage) => if events[n - 1] == EventView::End(TagEnd::Image) {
                None
            } else {
                Some(Piece::SizedImage)
            },
            None => match events[n - 1] {
                MdEvent::Start(MdTag::CodeBlock(_)) => Some(Piece::Code),
                MdEvent::Start(MdTag::Image { dest_url, width: Some(_), .. }) => if is_shown(
                    dest_url,
                    source_at(sources, n - 1),
                ) {
                    Some(Piece::SizedImage)
                } else {
                    None
                },
                _ => None,
            },
        }
    }
}

/// Those of the first `n` events that stand outside code blocks and images with a width of their
/// own.
pub open spec fn standing(
    events: Seq<EventView>,
    sources: Seq<Option<String>>,
    n: int,
) -> Seq<EventView>
    decreases n,
{
    if n <= 0 {
        Seq::empty()
    } else if piece_at(events, sources, n - 1) is None {
        standing(events, sources, n - 1).push(events[n - 1])
    } else {
        standing(events, sources, n - 1)
    }
}

/// Whether a page has an event as the document has it, but for the address of a link: it is not
/// raw HTML, a code block, an image, math or a footnote, which a page writes as HTML of its own.
pub open spec fn is_kept(event: EventView) -> bool {
    match event {
        MdEvent::Html(_) | MdEvent::InlineHtml(_) => false,
        MdEvent::InlineMath(_) | MdEvent::DisplayMath(_) => false,
        MdEvent::FootnoteReference(_) => false,
        MdEvent::Start(tag) => !(tag is CodeBlock || tag is Image || tag is FootnoteDefinition),
        MdEvent::End(tag) => !(tag is CodeBlock || tag is Image || tag is FootnoteDefinition),
        _ => true,
    }
}

/// An event that a page keeps: a link leads where it did if that is safe, and nowhere if not.
pub open spec fn as_kept(event: EventView) -> EventView {
    match event {
        MdEvent::Start(MdTag::Link { link_type, dest_url, title, id }) => MdEvent::Start(
            MdTag::Link { link_type, dest_url: sanitized(dest_url), title, id },
        ),
        _ => event,
    }
}

/// The events that a page keeps, as it has them.
pub open spec fn kept(events: Seq<EventView>) -> Seq<EventView> {
    events.filter(|event: EventView| is_kept(event)).map_values(|event: EventView| as_kept(event))
}

/// The events of a page that are those of the document.
pub open spec fn of_document(events: Seq<EventView>) -> Seq<EventView> {
    events.filter(|event: EventView| is_kept(event))
}

/// One more event.
proof fn kept_push(events: Seq<EventView>, event: EventView)
    ensures
        of_document(events.push(event)) == if is_kept(event) {
            of_document(events).push(event)
        } else {
            of_document(events)
        },
        kept(events.push(event)) == if is_kept(event) {
            kept(events).push(as_kept(event))
        } else {
            kept(events)
        },
{
    reveal(Seq::filter);
    assert(events.push(event).drop_last() =~= events);
    if is_kept(event) {
        assert(kept(events.push(event)) =~= kept(events).push(as_kept(event)));
    }
}

/// Elements of raw HTML that end are no events of the document.
proof fn ends_add_nothing(export: ExportView, closed: Seq<Opened>)
    ensures
        of_document(export.end_elements(closed).events) == of_document(export.events),
{
    if closed.len() > 0 {
        let html = export.end_elements(closed).events.last();
        kept_push(export.events, html);
    }
}

/// What stands before an event is no event of the document.
proof fn followed_adds_nothing(export: ExportView, event: EventView)
    ensures
        of_document(export.followed(event).events) == of_document(export.events),
        export.followed(event).code == export.code,
        export.followed(event).sized == export.sized,
        export.followed(event).images == export.images,
        export.followed(event).numbers == export.numbers,
        export.followed(event).code_blocks == export.code_blocks,
{
    let open = export.open.after(event);
    ends_add_nothing(ExportView { open, ..export }, export.open.ended_by(event));
}

/// An event written as it is, or as HTML.
proof fn emit_adds(export: ExportView, event: EventView)
    ensures
        of_document(export.emit(event).events) == if is_kept(event) {
            of_document(export.events).push(event)
        } else {
            of_document(export.events)
        },
{
    kept_push(export.events, event);
}

/// Raw HTML is no event of the document.
proof fn raw_html_adds_nothing(export: ExportView, chunk: Seq<char>, block: bool)
    ensures
        of_document(export.raw_html(chunk, block).events) == of_document(export.events),
        export.raw_html(chunk, block).code == export.code,
        export.raw_html(chunk, block).sized == export.sized,
{
    let next = export.raw_html(chunk, block);
    if next.events != export.events {
        kept_push(export.events, next.events.last());
    }
}

/// The end of a block of text is an event of the document.
proof fn end_text_adds(export: ExportView, event: EventView)
    ensures
        of_document(export.end_text(event).events) == if is_kept(event) {
            of_document(export.events).push(event)
        } else {
            of_document(export.events)
        },
        export.end_text(event).code == export.code,
        export.end_text(event).sized == export.sized,
{
    if export.styles.len() == 0 {
        emit_adds(export, event);
    } else {
        let html = EventView::InlineHtml(crate::rewrite::style_ends(export.styles));
        emit_adds(export, html);
        let next = ExportView { styles: Seq::empty(), ..export.emit(html) };
        emit_adds(next, event);
    }
}

/// What a page has of an event outside code blocks and images with a width of their own.
#[verifier::spinoff_prover]
proof fn plain_adds(export: ExportView, event: EventView, source: Option<Seq<char>>)
    requires
        export.code is None,
        export.sized is None,
    ensures
        of_document(export.plain(event, source).events) == if is_kept(event) {
            of_document(export.events).push(as_kept(event))
        } else {
            of_document(export.events)
        },
        export.plain(event, source).code is Some <==> event matches EventView::Start(
            MdTag::CodeBlock(_),
        ),
        export.plain(event, source).sized is Some <==> (event matches EventView::Start(
            MdTag::Image { dest_url, width: Some(_), .. },
        ) && is_shown(dest_url, source)),
{
    let next = export.plain(event, source);
    match event {
        MdEvent::Html(chunk) => raw_html_adds_nothing(export, chunk, true),
        MdEvent::InlineHtml(chunk) => raw_html_adds_nothing(export, chunk, false),
        MdEvent::End(TagEnd::HtmlBlock) => {
            let paragraph = Opened::Block { paragraph: true };
            let open = export.open.without(false, paragraph);
            let closed = export.open.ended_with(false, paragraph);
            let ended = (ExportView { open, ..export }).end_elements(closed);
            ends_add_nothing(ExportView { open, ..export }, closed);
            emit_adds(ended, event);
        },
        MdEvent::End(TagEnd::Paragraph) => end_text_adds(export, event),
        MdEvent::End(TagEnd::Heading(_)) => end_text_adds(export, event),
        MdEvent::End(TagEnd::TableCell) => end_text_adds(export, event),
        MdEvent::End(TagEnd::Item) => end_text_adds(export, event),
        MdEvent::Start(MdTag::Table(_)) => {
            let html = next.events.drop_last().last();
            assert(next.events.drop_last() =~= export.events.push(html));
            emit_adds(export, html);
            emit_adds(export.emit(html), event);
        },
        MdEvent::End(TagEnd::Table) => {
            emit_adds(export, event);
            emit_adds(export.emit(event), next.events.last());
        },
        _ => {
            if next.events != export.events {
                kept_push(export.events, next.events.last());
            }
        },
    }
}

/// What a page has of one more event of the document.
proof fn steps_add(
    export: ExportView,
    event: EventView,
    source: Option<Seq<char>>,
    light: Seq<Vec<CodeRun>>,
    dark: Seq<Vec<CodeRun>>,
)
    requires
        export.code is None || export.sized is None,
    ensures
        ({
            let next = export.step(event, source, light, dark);
            let inside = export.code is Some || export.sized is Some;
            &&& of_document(next.events) == if !inside && is_kept(event) {
                of_document(export.events).push(as_kept(event))
            } else {
                of_document(export.events)
            }
            &&& next.code is Some <==> if export.code is Some {
                event != EventView::End(TagEnd::CodeBlock)
            } else {
                export.sized is None && event matches EventView::Start(MdTag::CodeBlock(_))
            }
            &&& next.sized is Some <==> if export.sized is Some {
                event != EventView::End(TagEnd::Image)
            } else {
                export.code is None && (event matches EventView::Start(
                    MdTag::Image { dest_url, width: Some(_), .. },
                ) && is_shown(dest_url, source))
            }
        }),
{
    followed_adds_nothing(export, event);
    let before = export.followed(event);
    let next = export.step(event, source, light, dark);
    if export.sized is Some || export.code is Some {
        if next.events != before.events {
            kept_push(before.events, next.events.last());
        }
    } else {
        plain_adds(before, event, source);
    }
}

/// The page so far has the events of the document so far.
proof fn exports_add(
    events: Seq<EventView>,
    sources: Seq<Option<String>>,
    light: Seq<Vec<CodeRun>>,
    dark: Seq<Vec<CodeRun>>,
    n: int,
)
    requires
        0 <= n <= events.len(),
    ensures
        ({
            let export = exported(events, sources, light, dark, n);
            &&& of_document(export.events) == kept(standing(events, sources, n))
            &&& export.code is Some <==> piece_at(events, sources, n) == Some(Piece::Code)
            &&& export.sized is Some <==> piece_at(events, sources, n) == Some(Piece::SizedImage)
        }),
    decreases n,
{
    if n == 0 {
        reveal(Seq::filter);
        assert(of_document(exported(events, sources, light, dark, 0).events) =~= kept(
            standing(events, sources, 0),
        ));
    } else {
        exports_add(events, sources, light, dark, n - 1);
        steps_add(
            exported(events, sources, light, dark, n - 1),
            events[n - 1],
            source_at(sources, n - 1),
            light,
            dark,
        );
        kept_push(standing(events, sources, n - 1), events[n - 1]);
    }
}

/// The events of a page that are not HTML of its own or an image are, in order, those of the
/// document that stand outside code blocks and images with a width of their own: text, breaks,
/// rules, ticks and tags as they are, and links with the address they may have. None of them is
/// dropped, added or changed.
pub proof fn pages_keep_the_document(
    events: Seq<EventView>,
    sources: Seq<Option<String>>,
    light: Seq<Vec<CodeRun>>,
    dark: Seq<Vec<CodeRun>>,
)
    ensures
        of_document(page_events(events, sources, light, dark)) == kept(
            standing(events, sources, events.len() as int),
        ),
{
    let n = events.len() as int;
    exports_add(events, sources, light, dark, n);
    let export = exported(events, sources, light, dark, n);
    let open = crate::rewrite::OpenView { open: Seq::empty(), ..export.open };
    ends_add_nothing(
        ExportView { open, ..export },
        crate::rewrite::closed_past(export.open.open, 0),
    );
}

/// The events of one kind among those that a page keeps.
proof fn kinds_are_kept(events: Seq<EventView>, kind: spec_fn(EventView) -> bool)
    requires
        forall|event: EventView| #[trigger] kind(event) ==> is_kept(event),
    ensures
        of_document(events).filter(kind) == events.filter(kind),
    decreases events.len(),
{
    reveal(Seq::filter);
    if events.len() > 0 {
        kinds_are_kept(events.drop_last(), kind);
        let last = events.last();
        if is_kept(last) {
            let before = of_document(events.drop_last());
            assert(before.push(last).drop_last() =~= before);
        }
    }
}

/// The events of one kind among those that a page keeps, as it has them.
proof fn kinds_are_kept_as_they_are(events: Seq<EventView>, kind: spec_fn(EventView) -> bool)
    requires
        forall|event: EventView| #[trigger]
            kind(event) ==> is_kept(event) && as_kept(event) == event,
        forall|event: EventView|
            is_kept(event) && !kind(event) ==> !kind(#[trigger] as_kept(event)),
    ensures
        kept(events).filter(kind) == events.filter(kind),
    decreases events.len(),
{
    reveal(Seq::filter);
    if events.len() > 0 {
        kinds_are_kept_as_they_are(events.drop_last(), kind);
        let last = events.last();
        assert(events.drop_last().push(last) =~= events);
        kept_push(events.drop_last(), last);
        if is_kept(last) {
            let before = kept(events.drop_last());
            assert(before.push(as_kept(last)).drop_last() =~= before);
        }
    } else {
        assert(kept(events) =~= Seq::<EventView>::empty());
    }
}

/// The ticks of a page are, in order, those of the document outside code blocks and images with a
/// width of their own, and so are its texts, and every other kind of event that is not raw HTML,
/// a code block, an image, a link, math or a footnote.
pub proof fn pages_keep_every_kind(
    events: Seq<EventView>,
    sources: Seq<Option<String>>,
    light: Seq<Vec<CodeRun>>,
    dark: Seq<Vec<CodeRun>>,
    kind: spec_fn(EventView) -> bool,
)
    requires
        forall|event: EventView| #[trigger]
            kind(event) ==> is_kept(event) && !(event matches EventView::Start(
                MdTag::Link { .. },
            )),
    ensures
        page_events(events, sources, light, dark).filter(kind) == standing(
            events,
            sources,
            events.len() as int,
        ).filter(kind),
{
    pages_keep_the_document(events, sources, light, dark);
    kinds_are_kept(page_events(events, sources, light, dark), kind);
    kinds_are_kept_as_they_are(standing(events, sources, events.len() as int), kind);
}

/// The ticks of a page are, in order, those of the document outside code blocks and images with a
/// width of their own: a box that is ticked is ticked, and one that is not is not.
pub proof fn pages_keep_the_ticks(
    events: Seq<EventView>,
    sources: Seq<Option<String>>,
    light: Seq<Vec<CodeRun>>,
    dark: Seq<Vec<CodeRun>>,
)
    ensures
        page_events(events, sources, light, dark).filter(|event: EventView| event is TaskListMarker)
            == standing(events, sources, events.len() as int).filter(
            |event: EventView| event is TaskListMarker,
        ),
{
    pages_keep_every_kind(
        events,
        sources,
        light,
        dark,
        |event: EventView| event is TaskListMarker,
    );
}

/// How many code blocks ended among the first `n` events.
pub open spec fn code_blocks_before(
    events: Seq<EventView>,
    sources: Seq<Option<String>>,
    n: int,
) -> nat
    decreases n,
{
    if n <= 0 {
        0
    } else if piece_at(events, sources, n - 1) == Some(Piece::Code) && events[n - 1]
        == EventView::End(TagEnd::CodeBlock) {
        code_blocks_before(events, sources, n - 1) + 1
    } else {
        code_blocks_before(events, sources, n - 1)
    }
}

/// An export after so many events.
#[verifier::opaque]
spec fn exporting(
    events: Seq<EventView>,
    sources: Seq<Option<String>>,
    light: Seq<Vec<CodeRun>>,
    dark: Seq<Vec<CodeRun>>,
    n: int,
) -> ExportView {
    exported(events, sources, light, dark, n)
}

/// One more event of an export.
proof fn exporting_steps(
    events: Seq<EventView>,
    sources: Seq<Option<String>>,
    light: Seq<Vec<CodeRun>>,
    dark: Seq<Vec<CodeRun>>,
    n: int,
)
    requires
        0 <= n < events.len(),
    ensures
        ({
            let before = exporting(events, sources, light, dark, n);
            &&& exporting(events, sources, light, dark, n + 1) == before.step(
                events[n],
                source_at(sources, n),
                light,
                dark,
            )
            &&& before == exported(events, sources, light, dark, n)
            &&& exporting(events, sources, light, dark, n + 1) == exported(
                events,
                sources,
                light,
                dark,
                n + 1,
            )
            &&& before.code is Some <==> piece_at(events, sources, n) == Some(Piece::Code)
            &&& before.sized is Some <==> piece_at(events, sources, n) == Some(Piece::SizedImage)
        }),
{
    reveal(exporting);
    exports_add(events, sources, light, dark, n);
}

/// The code blocks so far are counted.
proof fn code_blocks_are_counted(
    events: Seq<EventView>,
    sources: Seq<Option<String>>,
    light: Seq<Vec<CodeRun>>,
    dark: Seq<Vec<CodeRun>>,
    n: int,
)
    requires
        0 <= n <= events.len(),
    ensures
        exporting(events, sources, light, dark, n).code_blocks == code_blocks_before(
            events,
            sources,
            n,
        ),
    decreases n,
{
    if n > 0 {
        code_blocks_are_counted(events, sources, light, dark, n - 1);
        exporting_steps(events, sources, light, dark, n - 1);
        steps_count(
            exporting(events, sources, light, dark, n - 1),
            events[n - 1],
            source_at(sources, n - 1),
            light,
            dark,
        );
    } else {
        reveal(exporting);
    }
}

/// Only the end of a code block counts it.
proof fn steps_count(
    export: ExportView,
    event: EventView,
    source: Option<Seq<char>>,
    light: Seq<Vec<CodeRun>>,
    dark: Seq<Vec<CodeRun>>,
)
    requires
        export.code is None || export.sized is None,
    ensures
        export.step(event, source, light, dark).code_blocks == export.code_blocks
            + if export.code is Some && event == EventView::End(TagEnd::CodeBlock) {
            1int
        } else {
            0
        },
{
    followed_adds_nothing(export, event);
}

/// Code is kept until its block ends.
proof fn code_is_kept(
    events: Seq<EventView>,
    sources: Seq<Option<String>>,
    light: Seq<Vec<CodeRun>>,
    dark: Seq<Vec<CodeRun>>,
    a: int,
    b: int,
    info: Option<Seq<char>>,
)
    requires
        0 <= a < b <= events.len(),
        events[a] == EventView::Start(MdTag::CodeBlock(info)),
        piece_at(events, sources, a) is None,
        forall|k: int| a < k < b ==> (#[trigger] events[k]) is Text,
    ensures
        piece_at(events, sources, b) == Some(Piece::Code),
        code_blocks_before(events, sources, b) == code_blocks_before(events, sources, a),
        exporting(events, sources, light, dark, b).code == Some(
            (
                match info {
                    Some(info) => info,
                    None => Seq::empty(),
                },
                said(events, a + 1, b),
            ),
        ),
    decreases b - a,
{
    exporting_steps(events, sources, light, dark, b - 1);
    let before = exporting(events, sources, light, dark, b - 1);
    followed_adds_nothing(before, events[b - 1]);
    if b > a + 1 {
        code_is_kept(events, sources, light, dark, a, b - 1, info);
        assert(events[b - 1] is Text);
    }
}

/// A code block is written as one piece of HTML, with its text without the line breaks at its
/// end, its language, and the styles that were found for the so manieth code block.
pub proof fn pages_write_code(
    events: Seq<EventView>,
    sources: Seq<Option<String>>,
    light: Seq<Vec<CodeRun>>,
    dark: Seq<Vec<CodeRun>>,
    a: int,
    b: int,
    info: Option<Seq<char>>,
)
    requires
        0 <= a < b < events.len(),
        events[a] == EventView::Start(MdTag::CodeBlock(info)),
        events[b] == EventView::End(TagEnd::CodeBlock),
        piece_at(events, sources, a) is None,
        forall|k: int| a < k < b ==> (#[trigger] events[k]) is Text,
    ensures
        ({
            let after = exported(events, sources, light, dark, b + 1).events;
            let number = code_blocks_before(events, sources, a) as int;
            &&& after.len() > 0
            &&& after.last() == EventView::Html(
                code_html(
                    drop_end(said(events, a + 1, b), '\n'),
                    match info {
                        Some(info) => info,
                        None => Seq::empty(),
                    },
                    runs_at(light, number),
                    runs_at(dark, number),
                ),
            )
        }),
{
    code_is_kept(events, sources, light, dark, a, b, info);
    code_blocks_are_counted(events, sources, light, dark, b);
    exporting_steps(events, sources, light, dark, b);
    followed_adds_nothing(exporting(events, sources, light, dark, b), events[b]);
}

/// An image that is shown without a width of its own leads where it did on the web, and to its
/// source otherwise; math is the drawing that was made of it, and what has none is left out.
pub proof fn pages_show_images_and_math(
    events: Seq<EventView>,
    sources: Seq<Option<String>>,
    light: Seq<Vec<CodeRun>>,
    dark: Seq<Vec<CodeRun>>,
    n: int,
)
    requires
        0 <= n < events.len(),
        piece_at(events, sources, n) is None,
    ensures
        ({
            let before = exported(events, sources, light, dark, n);
            let after = exported(events, sources, light, dark, n + 1);
            let source = source_at(sources, n);
            match events[n] {
                MdEvent::Start(MdTag::Image { link_type, dest_url, title, id, width: None }) => {
                    let web = starts_with(lowered(trim(dest_url)), "http://"@) || starts_with(
                        lowered(trim(dest_url)),
                        "https://"@,
                    );
                    &&& after.images == before.images.push(web || source is Some)
                    &&& web || source is Some ==> after.events.len() > 0 && after.events.last()
                        == EventView::Start(
                        MdTag::Image {
                            link_type,
                            dest_url: if web {
                                dest_url
                            } else {
                                source->0
                            },
                            title,
                            id,
                            width: None,
                        },
                    )
                    &&& !web && source is None ==> after.events == before.followed(events[n]).events
                },
                MdEvent::End(TagEnd::Image) => {
                    let shown = before.images.len() > 0 && before.images.last();
                    &&& after.images == if before.images.len() > 0 {
                        before.images.drop_last()
                    } else {
                        before.images
                    }
                    &&& shown ==> after.events.len() > 0 && after.events.last() == events[n]
                    &&& !shown ==> after.events == before.followed(events[n]).events
                },
                MdEvent::InlineMath(_) => {
                    &&& source matches Some(svg) ==> after.events.len() > 0 && after.events.last()
                        == EventView::InlineHtml(svg)
                    &&& source is None ==> after.events == before.followed(events[n]).events
                },
                MdEvent::DisplayMath(_) => {
                    &&& source matches Some(svg) ==> after.events.len() > 0 && after.events.last()
                        == EventView::InlineHtml(
                        "<span class=\"math-display\">"@ + svg + "</span>"@,
                    )
                    &&& source is None ==> after.events == before.followed(events[n]).events
                },
                _ => true,
            }
        }),
{
    exporting_steps(events, sources, light, dark, n);
    followed_adds_nothing(exported(events, sources, light, dark, n), events[n]);
}

/// The text of an image with a width of its own is kept until it ends.
proof fn alts_are_kept(
    events: Seq<EventView>,
    sources: Seq<Option<String>>,
    light: Seq<Vec<CodeRun>>,
    dark: Seq<Vec<CodeRun>>,
    a: int,
    b: int,
    url: Seq<char>,
    width: i32,
)
    requires
        0 <= a < b <= events.len(),
        events[a] matches EventView::Start(MdTag::Image { dest_url, width: Some(given), .. })
            && dest_url == url && given == width,
        piece_at(events, sources, a) is None,
        is_shown(url, source_at(sources, a)),
        forall|k: int| a < k < b ==> (#[trigger] events[k]) is Text || events[k] is Code,
    ensures
        piece_at(events, sources, b) == Some(Piece::SizedImage),
        exporting(events, sources, light, dark, b).sized == Some(
            (address_of_image(url, source_at(sources, a)), width, said(events, a + 1, b)),
        ),
    decreases b - a,
{
    exporting_steps(events, sources, light, dark, b - 1);
    let before = exporting(events, sources, light, dark, b - 1);
    followed_adds_nothing(before, events[b - 1]);
    if b > a + 1 {
        alts_are_kept(events, sources, light, dark, a, b - 1, url, width);
        assert(events[b - 1] is Text || events[b - 1] is Code);
    }
}

/// Where an image that is shown leads: to its own address on the web, and to its source
/// otherwise.
pub open spec fn address_of_image(url: Seq<char>, source: Option<Seq<char>>) -> Seq<char> {
    if starts_with(lowered(trim(url)), "http://"@) || starts_with(
        lowered(trim(url)),
        "https://"@,
    ) {
        url
    } else {
        source->0
    }
}

/// An image with a width of its own is written as one piece of HTML, with its address, its text
/// and its width.
pub proof fn pages_write_sized_images(
    events: Seq<EventView>,
    sources: Seq<Option<String>>,
    light: Seq<Vec<CodeRun>>,
    dark: Seq<Vec<CodeRun>>,
    a: int,
    b: int,
    url: Seq<char>,
    width: i32,
)
    requires
        0 <= a < b < events.len(),
        events[a] matches EventView::Start(MdTag::Image { dest_url, width: Some(given), .. })
            && dest_url == url && given == width,
        events[b] == EventView::End(TagEnd::Image),
        piece_at(events, sources, a) is None,
        is_shown(url, source_at(sources, a)),
        forall|k: int| a < k < b ==> (#[trigger] events[k]) is Text || events[k] is Code,
    ensures
        ({
            let after = exported(events, sources, light, dark, b + 1).events;
            &&& after.len() > 0
            &&& after.last() == EventView::InlineHtml(
                "<img src=\""@ + escaped(address_of_image(url, source_at(sources, a)))
                    + "\" alt=\""@ + escaped(said(events, a + 1, b)) + "\" width=\""@
                    + crate::text::decimal_signed(width as int) + "\" />"@,
            )
        }),
{
    alts_are_kept(events, sources, light, dark, a, b, url, width);
    exporting_steps(events, sources, light, dark, b);
    followed_adds_nothing(exporting(events, sources, light, dark, b), events[b]);
}

/// Whether a footnote is referred to or written among the first `n` events, outside code blocks
/// and images with a width of their own.
pub open spec fn is_numbered(
    events: Seq<EventView>,
    sources: Seq<Option<String>>,
    n: int,
    name: Seq<char>,
) -> bool {
    exists|k: int|
        0 <= k < n && piece_at(events, sources, k) is None && (#[trigger] events[k]
            == EventView::FootnoteReference(name) || events[k] == EventView::Start(
            MdTag::FootnoteDefinition(name),
        ))
}

/// Only a footnote that is referred to or written gets a number.
proof fn steps_number(
    export: ExportView,
    event: EventView,
    source: Option<Seq<char>>,
    light: Seq<Vec<CodeRun>>,
    dark: Seq<Vec<CodeRun>>,
)
    requires
        export.code is None || export.sized is None,
    ensures
        export.step(event, source, light, dark).numbers == if export.code is Some
            || export.sized is Some {
            export.numbers
        } else {
            match event {
                MdEvent::FootnoteReference(name) => numbered(export.numbers, name),
                MdEvent::Start(MdTag::FootnoteDefinition(name)) => numbered(export.numbers, name),
                _ => export.numbers,
            }
        },
{
    followed_adds_nothing(export, event);
}

/// The footnotes of a page are numbered in the order they first come in, each once.
proof fn numbers_follow(
    events: Seq<EventView>,
    sources: Seq<Option<String>>,
    light: Seq<Vec<CodeRun>>,
    dark: Seq<Vec<CodeRun>>,
    n: int,
)
    requires
        0 <= n <= events.len(),
    ensures
        ({
            let numbers = exporting(events, sources, light, dark, n).numbers;
            &&& numbers.no_duplicates()
            &&& forall|name: Seq<char>| #[trigger]
                numbers.contains(name) <==> is_numbered(events, sources, n, name)
        }),
    decreases n,
{
    if n == 0 {
        reveal(exporting);
    } else {
        numbers_follow(events, sources, light, dark, n - 1);
        exporting_steps(events, sources, light, dark, n - 1);
        let before = exporting(events, sources, light, dark, n - 1);
        let after = exporting(events, sources, light, dark, n);
        let event = events[n - 1];
        steps_number(before, event, source_at(sources, n - 1), light, dark);
        assert forall|name: Seq<char>| #[trigger]
            after.numbers.contains(name) <==> is_numbered(events, sources, n, name) by {
            assert(is_numbered(events, sources, n, name) <==> is_numbered(
                events,
                sources,
                n - 1,
                name,
            ) || (piece_at(events, sources, n - 1) is None && (event
                == EventView::FootnoteReference(name) || event == EventView::Start(
                MdTag::FootnoteDefinition(name),
            ))));
            if after.numbers != before.numbers {
                let new = after.numbers.last();
                assert(after.numbers =~= before.numbers.push(new));
                if before.numbers.contains(name) {
                    let i = before.numbers.index_of(name);
                    assert(after.numbers[i] == name);
                }
                if after.numbers.contains(name) && name != new {
                    let i = after.numbers.index_of(name);
                    assert(before.numbers[i] == name);
                }
                assert(after.numbers[after.numbers.len() - 1] == new);
            }
        }
        if after.numbers != before.numbers {
            let new = after.numbers.last();
            assert(after.numbers =~= before.numbers.push(new));
            assert(!before.numbers.contains(new));
        }
    }
}

/// Footnotes keep their numbers as more come in.
proof fn numbers_stay(
    events: Seq<EventView>,
    sources: Seq<Option<String>>,
    light: Seq<Vec<CodeRun>>,
    dark: Seq<Vec<CodeRun>>,
    a: int,
    b: int,
)
    requires
        0 <= a <= b <= events.len(),
    ensures
        exporting(events, sources, light, dark, a).numbers.is_prefix_of(
            exporting(events, sources, light, dark, b).numbers,
        ),
    decreases b - a,
{
    if a < b {
        numbers_stay(events, sources, light, dark, a, b - 1);
        exporting_steps(events, sources, light, dark, b - 1);
        steps_number(
            exporting(events, sources, light, dark, b - 1),
            events[b - 1],
            source_at(sources, b - 1),
            light,
            dark,
        );
        let first = exporting(events, sources, light, dark, a).numbers;
        let last = exporting(events, sources, light, dark, b).numbers;
        let before = exporting(events, sources, light, dark, b - 1).numbers;
        assert(before.is_prefix_of(last));
        assert(last.take(first.len() as int) =~= before.take(first.len() as int));
    }
}

/// The number of a footnote is where it is among the footnotes.
proof fn numbers_are_places(numbers: Seq<Seq<char>>, name: Seq<char>)
    ensures
        numbers.contains(name) ==> 1 <= number_among(numbers, name) <= numbers.len()
            && numbers[number_among(numbers, name) - 1] == name,
        !numbers.contains(name) ==> number_among(numbers, name) == numbers.len() + 1,
    decreases numbers.len(),
{
    if numbers.len() > 0 && numbers[0] != name {
        let rest = numbers.drop_first();
        numbers_are_places(rest, name);
        if numbers.contains(name) {
            let i = numbers.index_of(name);
            assert(rest[i - 1] == name);
        }
        if rest.contains(name) {
            let i = rest.index_of(name);
            assert(numbers[i + 1] == name);
        }
    }
}

/// The number that a page shows for a footnote: how many footnotes came in before it, and one.
pub open spec fn shown_number(
    events: Seq<EventView>,
    sources: Seq<Option<String>>,
    light: Seq<Vec<CodeRun>>,
    dark: Seq<Vec<CodeRun>>,
    n: int,
    name: Seq<char>,
) -> int {
    number_among(exported(events, sources, light, dark, n).numbers, name)
}

/// A reference to a footnote and the footnote itself show the same number wherever they are, and
/// two footnotes never do. A reference leads to its footnote, and the first one is where the
/// footnote leads back to.
pub proof fn footnotes_keep_their_numbers(
    events: Seq<EventView>,
    sources: Seq<Option<String>>,
    light: Seq<Vec<CodeRun>>,
    dark: Seq<Vec<CodeRun>>,
    a: int,
    b: int,
    name: Seq<char>,
    other: Seq<char>,
)
    requires
        0 <= a <= b < events.len(),
        piece_at(events, sources, a) is None,
        piece_at(events, sources, b) is None,
        events[a] == EventView::FootnoteReference(name) || events[a] == EventView::Start(
            MdTag::FootnoteDefinition(name),
        ),
        events[b] == EventView::FootnoteReference(other) || events[b] == EventView::Start(
            MdTag::FootnoteDefinition(other),
        ),
    ensures
        shown_number(events, sources, light, dark, a, name) == shown_number(
            events,
            sources,
            light,
            dark,
            b,
            other,
        ) <==> name == other,
        shown_number(events, sources, light, dark, a, name) >= 1,
{
    exporting_steps(events, sources, light, dark, a);
    exporting_steps(events, sources, light, dark, b);
    let first = exporting(events, sources, light, dark, a);
    let next = exporting(events, sources, light, dark, a + 1).numbers;
    let last = exporting(events, sources, light, dark, b).numbers;
    steps_number(first, events[a], source_at(sources, a), light, dark);
    numbers_are_places(first.numbers, name);
    numbers_are_places(last, other);
    numbers_are_places(last, name);
    numbers_follow(events, sources, light, dark, b);
    let place = number_among(first.numbers, name) - 1;
    assert(next[place] == name);
    if a < b {
        numbers_stay(events, sources, light, dark, a + 1, b);
        assert(last[place] == next[place]);
        assert(last.contains(name));
    }
}

/// What a page writes for a reference to a footnote, and at the start and the end of one.
pub proof fn footnotes_lead_to_and_fro(
    events: Seq<EventView>,
    sources: Seq<Option<String>>,
    light: Seq<Vec<CodeRun>>,
    dark: Seq<Vec<CodeRun>>,
    n: int,
    name: Seq<char>,
)
    requires
        0 <= n < events.len(),
        piece_at(events, sources, n) is None,
    ensures
        ({
            let before = exported(events, sources, light, dark, n);
            let after = exported(events, sources, light, dark, n + 1);
            let number = crate::text::decimal(
                shown_number(events, sources, light, dark, n, name) as nat,
            );
            let id = if before.referenced.contains(name) {
                Seq::empty()
            } else {
                " id=\""@ + escaped("fnref:"@ + name) + "\""@
            };
            &&& events[n] == EventView::FootnoteReference(name) ==> after.events.len() > 0
                && after.referenced.contains(name) && after.events.last() == EventView::InlineHtml(
                "<sup class=\"footnote-reference\""@ + id + "><a href=\"#"@ + escaped(
                    "fn:"@ + name,
                ) + "\">"@ + number + "</a></sup>"@,
            )
            &&& events[n] == EventView::Start(MdTag::FootnoteDefinition(name))
                ==> after.events.len() > 0 && after.footnotes == before.footnotes.push(name)
                && after.events.last() == EventView::Html(
                "<div class=\"footnote-definition\" id=\""@ + escaped("fn:"@ + name)
                    + "\"><sup class=\"footnote-definition-label\">"@ + number + "</sup>\n"@,
            )
            &&& events[n] == EventView::End(TagEnd::FootnoteDefinition) && before.footnotes.len()
                > 0 && before.footnotes.last() == name ==> after.events.len() > 0
                && after.footnotes == before.footnotes.drop_last() && after.events.last()
                == EventView::Html(
                "<a href=\"#"@ + escaped("fnref:"@ + name)
                    + "\" class=\"footnote-backref\">\u{21a9}</a></div>\n"@,
            )
        }),
{
    exporting_steps(events, sources, light, dark, n);
    let before = exported(events, sources, light, dark, n);
    let after = exported(events, sources, light, dark, n + 1);
    followed_adds_nothing(before, events[n]);
    assert(before.followed(events[n]).referenced == before.referenced);
    assert(before.followed(events[n]).footnotes == before.footnotes);
    if events[n] == EventView::FootnoteReference(name) && !before.referenced.contains(name) {
        assert(after.referenced.last() == name);
        assert(after.referenced[after.referenced.len() - 1] == name);
    }
}

/// Raw HTML in a line writes its text as text, with its line breaks, starts the style that a tag
/// starts, and ends the innermost style that is open with the tag that ends it. Other tags that a
/// page does not know write nothing.
pub proof fn pages_write_raw_html(
    events: Seq<EventView>,
    sources: Seq<Option<String>>,
    light: Seq<Vec<CodeRun>>,
    dark: Seq<Vec<CodeRun>>,
    n: int,
    html: Seq<char>,
    part: PartView,
)
    requires
        0 <= n < events.len(),
        events[n] == EventView::InlineHtml(html),
        piece_at(events, sources, n) is None,
        parts_of(html) == seq![part] || parts_of(html).len() == 0,
    ensures
        ({
            let before = exported(events, sources, light, dark, n).followed(events[n]);
            let after = exported(events, sources, light, dark, n + 1);
            if parts_of(html).len() == 0 {
                after.events == before.events && after.styles == before.styles
            } else {
                match part {
                    HtmlPart::Text(text) => after.styles == before.styles && after.events
                        == if with_breaks(escaped(text)).len() == 0 {
                        before.events
                    } else {
                        before.events.push(EventView::InlineHtml(with_breaks(escaped(text))))
                    },
                    HtmlPart::StyleStart(style) => after.styles == before.styles.push(style)
                        && after.events == before.events.push(
                        EventView::InlineHtml("<"@ + style.name() + ">"@),
                    ),
                    HtmlPart::StyleEnd(style) => {
                        &&& before.styles.len() > 0 && before.styles.last() == style
                            ==> after.styles == before.styles.drop_last() && after.events
                            == before.events.push(
                            EventView::InlineHtml("</"@ + style.name() + ">"@),
                        )
                        &&& !before.styles.contains(style) ==> after.styles == before.styles
                            && after.events == before.events
                    },
                    HtmlPart::BlockStart(_) | HtmlPart::BlockEnd { .. } => after.events
                        == before.events,
                    HtmlPart::DetailsStart { open } => after.events == before.events.push(
                        EventView::InlineHtml(
                            if open {
                                "<details open>"@
                            } else {
                                "<details>"@
                            },
                        ),
                    ),
                    _ => true,
                }
            }
        }),
{
    exporting_steps(events, sources, light, dark, n);
    let before = exported(events, sources, light, dark, n).followed(events[n]);
    followed_adds_nothing(exported(events, sources, light, dark, n), events[n]);
    raw_html_writes(before, html, part);
}

/// What raw HTML in a line of one part writes.
proof fn raw_html_writes(export: ExportView, html: Seq<char>, part: PartView)
    requires
        parts_of(html) == seq![part] || parts_of(html).len() == 0,
    ensures
        ({
            let after = export.raw_html(html, false);
            if parts_of(html).len() == 0 {
                after.events == export.events && after.styles == export.styles
            } else {
                match part {
                    HtmlPart::Text(text) => after.styles == export.styles && after.events
                        == if with_breaks(escaped(text)).len() == 0 {
                        export.events
                    } else {
                        export.events.push(EventView::InlineHtml(with_breaks(escaped(text))))
                    },
                    HtmlPart::StyleStart(style) => after.styles == export.styles.push(style)
                        && after.events == export.events.push(
                        EventView::InlineHtml("<"@ + style.name() + ">"@),
                    ),
                    HtmlPart::StyleEnd(style) => {
                        &&& export.styles.len() > 0 && export.styles.last() == style
                            ==> after.styles == export.styles.drop_last() && after.events
                            == export.events.push(
                            EventView::InlineHtml("</"@ + style.name() + ">"@),
                        )
                        &&& !export.styles.contains(style) ==> after.styles == export.styles
                            && after.events == export.events
                    },
                    HtmlPart::BlockStart(_) | HtmlPart::BlockEnd { .. } => after.events
                        == export.events,
                    HtmlPart::DetailsStart { open } => after.events == export.events.push(
                        EventView::InlineHtml(
                            if open {
                                "<details open>"@
                            } else {
                                "<details>"@
                            },
                        ),
                    ),
                    _ => true,
                }
            }
        }),
{
    reveal_strlit("<");
    reveal_strlit("</");
    reveal_strlit(">");
    reveal_strlit("<details open>");
    reveal_strlit("<details>");
    let parts = parts_of(html);
    let raw = RawView { html: Seq::empty(), styles: export.styles, open: export.open };
    reveal_with_fuel(RawView::parts, 2);
    if parts.len() > 0 {
        assert(parts.drop_last() =~= Seq::<PartView>::empty());
        assert(raw.parts(parts.drop_last(), false) == raw);
        let written = raw.part(part, false);
        assert(raw.parts(parts, false) == written);
        match part {
            HtmlPart::Text(text) => {
                assert(written.html =~= with_breaks(escaped(text)));
            },
            HtmlPart::StyleStart(style) => {
                assert(written.html =~= "<"@ + style.name() + ">"@);
            },
            HtmlPart::StyleEnd(style) => {
                let styles = export.styles;
                if styles.len() > 0 && styles.last() == style {
                    let index = styles.len() - 1;
                    let inner = styles.skip(index);
                    assert(inner =~= seq![style]);
                    assert(inner.skip(1) =~= Seq::<HtmlStyle>::empty());
                    assert(styles.remove(index) =~= styles.drop_last());
                    one_style_ends(style);
                    assert(crate::rewrite::style_starts(Seq::empty()) =~= Seq::<char>::empty());
                    assert(written.html =~= "</"@ + style.name() + ">"@);
                }
                if !styles.contains(style) {
                    no_style_is_last(styles, style);
                    assert(written.html =~= Seq::<char>::empty());
                }
            },
            HtmlPart::DetailsStart { open } => {
                assert(written.html =~= if open {
                    "<details open>"@
                } else {
                    "<details>"@
                });
            },
            _ => {},
        }
    }
}

/// One style ends with its tag.
proof fn one_style_ends(style: HtmlStyle)
    ensures
        crate::rewrite::style_ends(seq![style]) == "</"@ + style.name() + ">"@,
{
    let one = seq![style];
    assert(one.drop_last() =~= Seq::<HtmlStyle>::empty());
    assert(one.drop_first() =~= Seq::<HtmlStyle>::empty());
    assert(one.skip(1) =~= Seq::<HtmlStyle>::empty());
    reveal_with_fuel(crate::rewrite::style_ends, 2);
    assert(crate::rewrite::style_ends(one) =~= "</"@ + style.name() + ">"@);
}

/// A style that is not open is not the last that was opened.
proof fn no_style_is_last(styles: Seq<HtmlStyle>, style: HtmlStyle)
    requires
        !styles.contains(style),
    ensures
        crate::rewrite::last_style(styles, style) is None,
    decreases styles.len(),
{
    if styles.len() > 0 {
        assert(styles[styles.len() - 1] != style);
        let rest = styles.drop_last();
        if rest.contains(style) {
            let i = rest.index_of(style);
            assert(styles[i] == style);
        }
        no_style_is_last(rest, style);
    }
}

/// The end of a paragraph, a heading, an item and a cell ends every style that raw HTML left open.
pub proof fn styles_end_with_their_text(
    events: Seq<EventView>,
    sources: Seq<Option<String>>,
    light: Seq<Vec<CodeRun>>,
    dark: Seq<Vec<CodeRun>>,
    n: int,
    tag: TagEnd,
)
    requires
        0 <= n < events.len(),
        events[n] == EventView::End(tag),
        tag is Paragraph || tag is Heading || tag is Item || tag is TableCell,
        piece_at(events, sources, n) is None,
    ensures
        ({
            let after = exported(events, sources, light, dark, n + 1);
            after.styles.len() == 0 && after.events.len() > 0 && after.events.last() == events[n]
        }),
{
    exporting_steps(events, sources, light, dark, n);
    followed_adds_nothing(exported(events, sources, light, dark, n), events[n]);
}

/// A table is written inside an element of its own.
pub proof fn pages_wrap_tables(
    events: Seq<EventView>,
    sources: Seq<Option<String>>,
    light: Seq<Vec<CodeRun>>,
    dark: Seq<Vec<CodeRun>>,
    n: int,
)
    requires
        0 <= n < events.len(),
        piece_at(events, sources, n) is None,
    ensures
        ({
            let before = exported(events, sources, light, dark, n).followed(events[n]).events;
            let after = exported(events, sources, light, dark, n + 1).events;
            match events[n] {
                MdEvent::Start(MdTag::Table(_)) => after == before + seq![
                    EventView::Html("<div class=\"table\">\n"@),
                    events[n],
                ],
                MdEvent::End(TagEnd::Table) => after == before + seq![
                    events[n],
                    EventView::Html("</div>\n"@),
                ],
                MdEvent::Text(_) | MdEvent::TaskListMarker(_) | MdEvent::Rule => after == before
                    + seq![events[n]],
                _ => true,
            }
        }),
{
    exporting_steps(events, sources, light, dark, n);
    followed_adds_nothing(exported(events, sources, light, dark, n), events[n]);
    let before = exported(events, sources, light, dark, n).followed(events[n]).events;
    let after = exported(events, sources, light, dark, n + 1).events;
    match events[n] {
        MdEvent::Start(MdTag::Table(_)) => {
            assert(after =~= before + seq![
                EventView::Html("<div class=\"table\">\n"@),
                events[n],
            ]);
        },
        MdEvent::End(TagEnd::Table) => {
            assert(after =~= before + seq![events[n], EventView::Html("</div>\n"@)]);
        },
        MdEvent::Text(_) | MdEvent::TaskListMarker(_) | MdEvent::Rule => {
            assert(after =~= before + seq![events[n]]);
        },
        _ => {},
    }
}

}
