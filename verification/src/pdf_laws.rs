//! What holds of every document that the PDF export reads.

use crate::event::{EventView, MdEvent, MdTag, TagView};
use crate::pdf::{
    arrow_back, blocks_of, is_kept_link, no_text, plain, read_of, shown_at, size, BlockView, Inline,
    ParagraphView, ReaderView, ITEM_GAP, PARAGRAPH_GAP,
};
use pulldown_cmark::TagEnd;
use vstd::prelude::*;

verus! {

/// Whether every link of a paragraph leads to a web or mail address or to a
/// place in the document, and ends inside the text.
pub open spec fn is_safe(paragraph: ParagraphView) -> bool {
    forall|i: int|
        0 <= i < paragraph.links.len() ==> is_kept_link((#[trigger] paragraph.links[i]).2)
            && paragraph.links[i].1 <= size(paragraph.text)
}

/// Whether every cell of a row is safe.
pub open spec fn row_is_safe(row: Seq<ParagraphView>) -> bool {
    forall|i: int| 0 <= i < row.len() ==> is_safe(#[trigger] row[i])
}

/// Whether every cell of every row is safe.
pub open spec fn rows_are_safe(rows: Seq<Seq<ParagraphView>>) -> bool {
    forall|i: int| 0 <= i < rows.len() ==> row_is_safe(#[trigger] rows[i])
}

/// Whether every link of a block leads to a web or mail address or to a
/// place in the document, and ends inside its text.
pub open spec fn block_is_safe(block: BlockView) -> bool {
    match block {
        BlockView::Text { paragraph, .. } => is_safe(paragraph),
        BlockView::Table { rows, .. } => rows_are_safe(rows),
        _ => true,
    }
}

/// Whether every link of every block leads to a web or mail address or to a
/// place in the document, and ends inside its text.
pub open spec fn blocks_are_safe(blocks: Seq<BlockView>) -> bool {
    forall|i: int| 0 <= i < blocks.len() ==> block_is_safe(#[trigger] blocks[i])
}

/// Whether everything read so far is safe.
#[verifier::opaque]
spec fn reader_is_safe(reader: ReaderView) -> bool {
    &&& blocks_are_safe(reader.blocks)
    &&& is_safe(reader.paragraph)
    &&& match reader.table {
        Some((_, rows, row)) => rows_are_safe(rows) && row_is_safe(row),
        None => true,
    }
}

/// A longer text takes at least as many bytes.
proof fn size_grows(text: Seq<char>, more: Seq<char>)
    ensures
        size(text) <= size(text + more),
    decreases more.len(),
{
    if more.len() == 0 {
        assert(text + more =~= text);
    } else {
        size_grows(text, more.drop_last());
        assert(text + more =~= (text + more.drop_last()).push(more.last()));
        crate::export::encode_push(text + more.drop_last(), more.last());
    }
}

/// More text keeps a paragraph safe.
proof fn push_is_safe(paragraph: ParagraphView, text: Seq<char>, style: Inline)
    requires
        is_safe(paragraph),
    ensures
        is_safe(paragraph.push(text, style)),
{
    size_grows(paragraph.text, text);
}

/// Setting a paragraph keeps a reader safe.
proof fn flush_is_safe(reader: ReaderView, gap: u32)
    requires
        reader_is_safe(reader),
    ensures
        reader_is_safe(reader.flush(gap)),
{
    reveal(reader_is_safe);
}

/// Widening a gap keeps a reader safe.
proof fn widen_is_safe(reader: ReaderView, gap: u32)
    requires
        reader_is_safe(reader),
    ensures
        reader_is_safe(reader.widen_gap(gap)),
{
    reveal(reader_is_safe);
    if reader.blocks.len() > 0 {
        assert(block_is_safe(reader.blocks.last()));
    }
}

/// More text keeps a reader safe.
proof fn say_is_safe(reader: ReaderView, text: Seq<char>, style: Inline)
    requires
        reader_is_safe(reader),
    ensures
        reader_is_safe(reader.say(text, style)),
{
    reveal(reader_is_safe);
    push_is_safe(reader.paragraph, text, style);
    push_is_safe(reader.paragraph, text, Inline { italic: true, ..style });
}

/// A prefix keeps a reader safe.
proof fn open_is_safe(reader: ReaderView, text: Seq<char>, hanging: bool)
    requires
        reader_is_safe(reader),
    ensures
        reader_is_safe(reader.open_with(text, hanging)),
{
    reveal(reader_is_safe);
    push_is_safe(reader.paragraph, text, Inline { bold: true, ..crate::pdf::plain() });
}

/// A reader that has read the same text as a safe one is safe.
proof fn alike_is_safe(reader: ReaderView, other: ReaderView)
    requires
        reader_is_safe(reader),
        other.blocks == reader.blocks,
        other.paragraph == reader.paragraph || other.paragraph == no_text(),
        other.table == reader.table || match other.table {
            Some((_, rows, row)) => rows.len() == 0 && row.len() == 0,
            None => true,
        },
    ensures
        reader_is_safe(other),
{
    reveal(reader_is_safe);
}

/// The start of a tag keeps a reader safe.
proof fn start_is_safe(reader: ReaderView, tag: TagView, n: int, shown: bool)
    requires
        reader_is_safe(reader),
    ensures
        reader_is_safe(reader.start(tag, n, shown)),
{
    let next = reader.start(tag, n, shown);
    match tag {
        MdTag::Paragraph => {
            flush_is_safe(reader, PARAGRAPH_GAP);
        },
        MdTag::Heading { .. } | MdTag::BlockQuote(_) | MdTag::CodeBlock(_) | MdTag::Table(_) => {
            flush_is_safe(reader, PARAGRAPH_GAP);
            alike_is_safe(reader.flush(PARAGRAPH_GAP), next);
        },
        MdTag::List(_) => {
            flush_is_safe(reader, ITEM_GAP);
            alike_is_safe(reader.flush_text(ITEM_GAP), next);
        },
        MdTag::Item => {
            flush_is_safe(reader, ITEM_GAP);
            let flushed = ReaderView {
                lists: crate::preview::lists_after_item(reader.lists),
                ..reader.flush_text(ITEM_GAP)
            };
            alike_is_safe(reader.flush_text(ITEM_GAP), flushed);
            open_is_safe(flushed, crate::preview::marker_of(reader.lists), true);
        },
        MdTag::FootnoteDefinition(label) => {
            flush_is_safe(reader, PARAGRAPH_GAP);
            let named = ReaderView {
                name: Some(crate::rewrite::footnote_id_of(label)),
                note: Some(label),
                ..reader.flush(PARAGRAPH_GAP)
            };
            alike_is_safe(reader.flush(PARAGRAPH_GAP), named);
            open_is_safe(named, "["@ + label + "]: "@, false);
        },
        MdTag::DefinitionListTitle => {
            flush_is_safe(reader, PARAGRAPH_GAP);
            alike_is_safe(reader.flush(PARAGRAPH_GAP), next);
        },
        MdTag::DefinitionListDefinition => {
            flush_is_safe(reader, ITEM_GAP);
        },
        MdTag::Image { .. } => {
            let begun = ReaderView { images: reader.images.push(shown), ..reader };
            alike_is_safe(reader, begun);
            flush_is_safe(begun, PARAGRAPH_GAP);
            reveal(reader_is_safe);
        },
        _ => {
            alike_is_safe(reader, next);
        },
    }
}

/// A link that is kept keeps a paragraph safe.
proof fn link_is_safe(paragraph: ParagraphView, start: int, url: Seq<char>)
    requires
        is_safe(paragraph),
        is_kept_link(url),
    ensures
        is_safe(paragraph.link(start, url)),
{
}

/// A place in the document is led to.
proof fn place_is_kept(name: Seq<char>)
    ensures
        is_kept_link("#"@ + name),
{
    assert(("#"@ + name).take("#"@.len() as int) =~= "#"@);
}

/// A reference to a footnote keeps a reader safe.
proof fn refer_is_safe(reader: ReaderView, name: Seq<char>)
    requires
        reader_is_safe(reader),
    ensures
        reader_is_safe(reader.refer(name)),
{
    reveal(reader_is_safe);
    let style = Inline { footnote: true, ..reader.style };
    push_is_safe(reader.paragraph, "["@ + name + "]"@, style);
    place_is_kept(crate::rewrite::footnote_id_of(name));
    link_is_safe(
        reader.paragraph.push("["@ + name + "]"@, style),
        size(reader.paragraph.text),
        "#"@ + crate::rewrite::footnote_id_of(name),
    );
}

/// Math keeps a reader safe.
proof fn math_is_safe(reader: ReaderView, latex: Seq<char>, n: int, display: bool, shown: bool)
    requires
        reader_is_safe(reader),
    ensures
        reader_is_safe(reader.math(latex, n, display, shown)),
{
    say_is_safe(reader, latex, Inline { code: true, ..reader.style });
    flush_is_safe(reader, PARAGRAPH_GAP);
    push_is_safe_in(
        reader,
        seq![crate::preview::ANCHOR],
        Inline { math: Some(n as usize), ..reader.style },
    );
    reveal(reader_is_safe);
}

/// More text in the paragraph keeps a reader safe.
proof fn push_is_safe_in(reader: ReaderView, text: Seq<char>, style: Inline)
    requires
        reader_is_safe(reader),
    ensures
        reader_is_safe(ReaderView { paragraph: reader.paragraph.push(text, style), ..reader }),
{
    reveal(reader_is_safe);
    push_is_safe(reader.paragraph, text, style);
}

/// The end of a footnote keeps a reader safe.
proof fn end_note_is_safe(reader: ReaderView)
    requires
        reader_is_safe(reader),
    ensures
        reader_is_safe(reader.end_note()),
{
    flush_is_safe(reader, PARAGRAPH_GAP);
    if let Some(name) = reader.note {
        let arrow = no_text().push("\u{21a9}"@, Inline { link: true, ..plain() });
        push_is_safe(no_text(), "\u{21a9}"@, Inline { link: true, ..plain() });
        place_is_kept(crate::rewrite::reference_id_of(name));
        link_is_safe(arrow, 0, "#"@ + crate::rewrite::reference_id_of(name));
        assert(is_safe(arrow_back(name)));
    }
    reveal(reader_is_safe);
}

/// The end of a tag keeps a reader safe.
proof fn end_is_safe(reader: ReaderView, tag: TagEnd)
    requires
        reader_is_safe(reader),
    ensures
        reader_is_safe(reader.end(tag)),
{
    reveal(reader_is_safe);
    flush_is_safe(reader, PARAGRAPH_GAP);
    flush_is_safe(reader, ITEM_GAP);
    match tag {
        TagEnd::BlockQuote(_) => {
            widen_is_safe(
                ReaderView {
                    quote: if reader.quote > 0 {
                        reader.quote - 1
                    } else {
                        0
                    },
                    ..reader.flush(PARAGRAPH_GAP)
                },
                PARAGRAPH_GAP,
            );
        },
        TagEnd::List(_) => {
            widen_is_safe(
                ReaderView {
                    lists: crate::rewrite::without_last(reader.lists),
                    ..reader.flush(ITEM_GAP)
                },
                PARAGRAPH_GAP,
            );
        },
        TagEnd::FootnoteDefinition => {
            end_note_is_safe(reader);
        },
        _ => {},
    }
}

/// An event keeps a reader safe.
proof fn step_is_safe(reader: ReaderView, event: EventView, n: int, shown: bool)
    requires
        reader_is_safe(reader),
    ensures
        reader_is_safe(reader.step(event, n, shown)),
{
    reveal(reader_is_safe);
    match reader.code {
        Some(_) => {},
        None => match event {
            MdEvent::Start(tag) => start_is_safe(reader, tag, n, shown),
            MdEvent::End(tag) => end_is_safe(reader, tag),
            MdEvent::Text(text) => say_is_safe(reader, text, reader.style),
            MdEvent::Code(text) => say_is_safe(reader, text, Inline { code: true, ..reader.style }),
            MdEvent::Html(html) => say_is_safe(
                reader,
                crate::html::html_text(html),
                reader.style,
            ),
            MdEvent::InlineHtml(html) => say_is_safe(
                reader,
                crate::html::html_text(html),
                reader.style,
            ),
            MdEvent::SoftBreak => say_is_safe(reader, " "@, reader.style),
            MdEvent::HardBreak => say_is_safe(reader, "\n"@, reader.style),
            MdEvent::InlineMath(latex) => math_is_safe(reader, latex, n, false, shown),
            MdEvent::DisplayMath(latex) => math_is_safe(reader, latex, n, true, shown),
            MdEvent::FootnoteReference(name) => refer_is_safe(reader, name),
            MdEvent::TaskListMarker(checked) => push_is_safe(
                reader.paragraph,
                if checked {
                    "\u{25a0} "@
                } else {
                    "\u{25a1} "@
                },
                Inline { bold: true, ..reader.style },
            ),
            MdEvent::Rule => flush_is_safe(reader, PARAGRAPH_GAP),
        },
    }
}

/// Reading keeps a reader safe.
proof fn reading_is_safe(events: Seq<EventView>, shown: Seq<bool>, n: int)
    requires
        n <= events.len(),
    ensures
        reader_is_safe(read_of(events, shown, n)),
    decreases n,
{
    reveal(reader_is_safe);
    if n > 0 {
        reading_is_safe(events, shown, n - 1);
        step_is_safe(
            read_of(events, shown, n - 1),
            events[n - 1],
            n - 1,
            shown_at(shown, n - 1),
        );
    }
}

/// Every link of a PDF leads to a web or mail address or to a place in the document.
pub proof fn pdf_links_are_safe(events: Seq<EventView>, shown: Seq<bool>)
    ensures
        blocks_are_safe(blocks_of(events, shown)),
{
    reveal(reader_is_safe);
    reading_is_safe(events, shown, events.len() as int);
    flush_is_safe(read_of(events, shown, events.len() as int), PARAGRAPH_GAP);
}

}
