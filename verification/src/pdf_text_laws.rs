//! What the blocks of a PDF say, and how they look, told from the events of the document.

use crate::around::{
    in_code_block, is_in_line, is_on, item_marker, lines_stay_outside, lists_are_followed,
    numbers_fit, numbers_of, open_around, open_lists, rank, said, words, Around,
};
use crate::event::{EventView, MdEvent, MdTag, TagView};
use crate::pdf::{
    blocks_of, is_kept_link, no_text, past, plain, read_of, shown_at, size, BlockView, Inline,
    ParagraphView, ReaderView, ITEM_GAP, PARAGRAPH_GAP,
};
use crate::preview::lists_after_item;
use crate::text::{drop_end, trim};
use pulldown_cmark::{HeadingLevel, TagEnd};
use vstd::prelude::*;

verus! {

/// How many code blocks ended among the first `n` events.
pub open spec fn code_blocks_before(events: Seq<EventView>, n: int) -> nat
    decreases n,
{
    if n <= 0 {
        0
    } else if in_code_block(events, n - 1) && events[n - 1] == EventView::End(TagEnd::CodeBlock) {
        code_blocks_before(events, n - 1) + 1
    } else {
        code_blocks_before(events, n - 1)
    }
}

/// How text looks after the first `n` events, by what is open around it.
pub open spec fn look(events: Seq<EventView>, n: int) -> Inline {
    Inline {
        bold: is_on(events, n, Around::Strong, Around::Title),
        italic: is_on(events, n, Around::Emphasis, Around::Emphasis),
        strikethrough: is_on(events, n, Around::Strikethrough, Around::Strikethrough),
        link: open_around(events, n, Around::Link) > 0,
        code: false,
        footnote: false,
        math: None,
    }
}

/// How far text is indented after the first `n` events, by the lists and quotes around it.
pub open spec fn indent_at(events: Seq<EventView>, n: int) -> nat {
    16 * open_around(events, n, Around::List) + 16 * open_around(events, n, Around::Quote)
}

/// Whether a reader is where the first `n` events leave it.
pub open spec fn follows(reader: ReaderView, events: Seq<EventView>, n: int) -> bool {
    &&& reader.code is Some <==> in_code_block(events, n)
    &&& reader.style == look(events, n)
    &&& reader.links.len() == open_around(events, n, Around::Link)
    &&& reader.images.len() == open_around(events, n, Around::Image)
    &&& reader.quote == open_around(events, n, Around::Quote)
    &&& reader.lists.len() == open_around(events, n, Around::List)
    &&& reader.table is Some <==> is_on(events, n, Around::Table, Around::Table)
    &&& reader.code_blocks == code_blocks_before(events, n)
}

/// What a start tag opens.
proof fn starts_follow(reader: ReaderView, tag: TagView, n: int, shown: bool)
    ensures
        ({
            let next = reader.start(tag, n, shown);
            &&& next.code is Some <==> reader.code is Some || tag is CodeBlock
            &&& next.style == (Inline {
                bold: reader.style.bold || tag is Strong || tag is DefinitionListTitle,
                italic: reader.style.italic || tag is Emphasis,
                strikethrough: reader.style.strikethrough || tag is Strikethrough,
                link: reader.style.link || tag is Link,
                ..reader.style
            })
            &&& next.links.len() == reader.links.len() + if tag is Link {
                1int
            } else {
                0
            }
            &&& next.images.len() == reader.images.len() + if tag is Image {
                1int
            } else {
                0
            }
            &&& next.quote == reader.quote + if tag is BlockQuote {
                1int
            } else {
                0
            }
            &&& next.lists.len() == reader.lists.len() + if tag is List {
                1int
            } else {
                0
            }
            &&& next.table is Some <==> reader.table is Some || tag is Table
            &&& next.code_blocks == reader.code_blocks
        }),
{
}

/// One fewer, if there are any.
pub open spec fn fewer(count: int) -> int {
    if count > 0 {
        count - 1
    } else {
        0
    }
}

/// What an end tag closes.
proof fn ends_follow(reader: ReaderView, tag: TagEnd)
    requires
        reader.quote >= 0,
    ensures
        ({
            let next = reader.end(tag);
            &&& next.code == reader.code
            &&& next.style == (Inline {
                bold: reader.style.bold && !(tag is Strong || tag is DefinitionListTitle),
                italic: reader.style.italic && !(tag is Emphasis),
                strikethrough: reader.style.strikethrough && !(tag is Strikethrough),
                link: if tag is Link {
                    reader.links.len() > 1
                } else {
                    reader.style.link
                },
                ..reader.style
            })
            &&& next.links.len() == if tag is Link {
                fewer(reader.links.len() as int)
            } else {
                reader.links.len() as int
            }
            &&& next.images.len() == if tag is Image {
                fewer(reader.images.len() as int)
            } else {
                reader.images.len() as int
            }
            &&& next.quote == if tag is BlockQuote {
                fewer(reader.quote)
            } else {
                reader.quote
            }
            &&& next.lists.len() == if tag is List {
                fewer(reader.lists.len() as int)
            } else {
                reader.lists.len() as int
            }
            &&& next.table is Some <==> reader.table is Some && !(tag is Table)
            &&& next.code_blocks == reader.code_blocks
        }),
{
}

/// What neither a start nor an end tag changes.
proof fn others_follow(reader: ReaderView, event: EventView, n: int, shown: bool)
    requires
        reader.code is None,
        !(event is Start),
        !(event is End),
    ensures
        ({
            let next = reader.step(event, n, shown);
            &&& next.code is None
            &&& next.style == reader.style
            &&& next.links == reader.links
            &&& next.images == reader.images
            &&& next.quote == reader.quote
            &&& next.lists == reader.lists
            &&& next.table == reader.table
            &&& next.code_blocks == reader.code_blocks
        }),
{
}

/// How a document reads so far is told by the events: whether code is read, how text looks, and
/// how many links, images, quotes and lists are open around it.
pub proof fn readers_follow(events: Seq<EventView>, shown: Seq<bool>, n: int)
    requires
        0 <= n <= events.len(),
    ensures
        follows(read_of(events, shown, n), events, n),
    decreases n,
{
    if n > 0 {
        readers_follow(events, shown, n - 1);
        let before = read_of(events, shown, n - 1);
        let show = shown_at(shown, n - 1);
        let after = before.step(events[n - 1], n - 1, show);
        reveal_with_fuel(is_on, 2);
        reveal_with_fuel(open_around, 2);
        if before.code is Some {
        } else {
            match events[n - 1] {
                MdEvent::Start(tag) => {
                    starts_follow(before, tag, n - 1, show);
                    assert(after == before.start(tag, n - 1, show));
                },
                MdEvent::End(tag) => {
                    ends_follow(before, tag);
                    assert(after == before.end(tag));
                },
                _ => {
                    others_follow(before, events[n - 1], n - 1, show);
                },
            }
        }
    }
}

/// Whether a reader has read nothing but `text` on.
#[verifier::opaque]
pub open spec fn has_said(before: ReaderView, after: ReaderView, text: Seq<char>) -> bool {
    &&& after == ReaderView {
        paragraph: after.paragraph,
        style: after.style,
        links: after.links,
        ..before
    }
    &&& after.paragraph.text == before.paragraph.text + text
    &&& after.paragraph.marks == before.paragraph.marks
}

/// What an event of a line adds to a paragraph: its words.
proof fn words_are_said(reader: ReaderView, event: EventView, n: int, shown: bool)
    requires
        reader.code is None,
        reader.images.len() == 0,
        is_in_line(event),
    ensures
        has_said(reader, reader.step(event, n, shown), words(event)),
{
    reveal(has_said);
    assert(reader.paragraph.text + Seq::<char>::empty() =~= reader.paragraph.text);
}

/// One text is said after the other.
proof fn texts_are_said(
    first: ReaderView,
    second: ReaderView,
    third: ReaderView,
    one: Seq<char>,
    other: Seq<char>,
)
    requires
        has_said(first, second, one),
        has_said(second, third, other),
    ensures
        has_said(first, third, one + other),
{
    reveal(has_said);
    assert(first.paragraph.text + (one + other) =~= first.paragraph.text + one + other);
}

/// The document as it is read after the first `n` events.
#[verifier::opaque]
spec fn reading(events: Seq<EventView>, shown: Seq<bool>, n: int) -> ReaderView {
    read_of(events, shown, n)
}

/// What one more event of a line adds to a paragraph.
proof fn reading_says(events: Seq<EventView>, shown: Seq<bool>, n: int)
    requires
        0 <= n < events.len(),
        is_in_line(events[n]),
        !in_code_block(events, n),
        open_around(events, n, Around::Image) == 0,
    ensures
        has_said(
            reading(events, shown, n),
            reading(events, shown, n + 1),
            words(events[n]),
        ),
{
    reveal(reading);
    readers_follow(events, shown, n);
    words_are_said(read_of(events, shown, n), events[n], n, shown_at(shown, n));
}

/// What a line of text, code and breaks adds to a paragraph.
proof fn reading_says_lines(events: Seq<EventView>, shown: Seq<bool>, a: int, b: int)
    requires
        0 <= a <= b <= events.len(),
        forall|k: int| a <= k < b ==> is_in_line(#[trigger] events[k]),
        !in_code_block(events, a),
        open_around(events, a, Around::Image) == 0,
    ensures
        has_said(reading(events, shown, a), reading(events, shown, b), said(events, a, b)),
    decreases b - a,
{
    if a == b {
        reveal(has_said);
        let text = reading(events, shown, a).paragraph.text;
        assert(text + said(events, a, b) =~= text);
    } else {
        reading_says_lines(events, shown, a, b - 1);
        lines_stay_outside(events, a, b - 1);
        assert(is_in_line(events[b - 1]));
        reading_says(events, shown, b - 1);
        texts_are_said(
            reading(events, shown, a),
            reading(events, shown, b - 1),
            reading(events, shown, b),
            said(events, a, b - 1),
            words(events[b - 1]),
        );
    }
}

/// A line of text, code and breaks adds its words to the paragraph, and nothing else.
pub proof fn lines_are_said(events: Seq<EventView>, shown: Seq<bool>, a: int, b: int)
    requires
        0 <= a <= b <= events.len(),
        forall|k: int| a <= k < b ==> is_in_line(#[trigger] events[k]),
        !in_code_block(events, a),
        open_around(events, a, Around::Image) == 0,
    ensures
        ({
            let before = read_of(events, shown, a);
            let after = read_of(events, shown, b);
            &&& after == ReaderView {
                paragraph: after.paragraph,
                style: after.style,
                links: after.links,
                ..before
            }
            &&& after.paragraph.text == before.paragraph.text + said(events, a, b)
            &&& after.paragraph.marks == before.paragraph.marks
        }),
{
    reading_says_lines(events, shown, a, b);
    assert(reading(events, shown, a) == read_of(events, shown, a) && reading(events, shown, b)
        == read_of(events, shown, b)) by {
        reveal(reading);
    }
    let before = reading(events, shown, a);
    let after = reading(events, shown, b);
    assert(after == (ReaderView {
        paragraph: after.paragraph,
        style: after.style,
        links: after.links,
        ..before
    }) && after.paragraph.text == before.paragraph.text + said(events, a, b)
        && after.paragraph.marks == before.paragraph.marks) by {
        reveal(has_said);
    }
}

/// Whether two blocks are the same but for the space after them and the alternative text of an
/// image.
pub open spec fn same_block(one: BlockView, other: BlockView) -> bool {
    match (one, other) {
        (
            BlockView::Text { paragraph, heading, name, indent, marker, quote, gap },
            BlockView::Text {
                paragraph: paragraph2,
                heading: heading2,
                name: name2,
                indent: indent2,
                marker: marker2,
                quote: quote2,
                gap: gap2,
            },
        ) => paragraph == paragraph2 && heading == heading2 && name == name2 && indent == indent2
            && marker == marker2 && quote == quote2 && gap <= gap2,
        (
            BlockView::Image { event, indent, quote, .. },
            BlockView::Image { event: event2, indent: indent2, quote: quote2, .. },
        ) => event == event2 && indent == indent2 && quote == quote2,
        _ => one == other,
    }
}

/// Whether blocks go on as others.
pub open spec fn goes_on(blocks: Seq<BlockView>, more: Seq<BlockView>) -> bool {
    &&& blocks.len() <= more.len()
    &&& forall|i: int| 0 <= i < blocks.len() ==> same_block(#[trigger] blocks[i], more[i])
}

/// Setting a paragraph, and widening a gap, keep the blocks before.
proof fn flushes_go_on(reader: ReaderView, gap: u32, wide: u32)
    ensures
        goes_on(reader.blocks, reader.flush(gap).blocks),
        goes_on(reader.blocks, reader.flush_text(gap).blocks),
        goes_on(reader.blocks, reader.widen_gap(wide).blocks),
        goes_on(reader.blocks, reader.flush(gap).widen_gap(wide).blocks),
{
}

/// Saying something keeps the blocks before.
proof fn words_go_on(reader: ReaderView, text: Seq<char>, style: Inline)
    ensures
        goes_on(reader.blocks, reader.say(text, style).blocks),
{
}

/// No event takes away what was set.
#[verifier::spinoff_prover]
proof fn steps_go_on(reader: ReaderView, event: EventView, n: int, shown: bool)
    ensures
        goes_on(reader.blocks, reader.step(event, n, shown).blocks),
{
    flushes_go_on(reader, PARAGRAPH_GAP, PARAGRAPH_GAP);
    flushes_go_on(reader, ITEM_GAP, PARAGRAPH_GAP);
    if reader.code is None {
        match event {
            MdEvent::Start(tag) => {
                match tag {
                    MdTag::Image { .. } => {
                        let next = ReaderView { images: reader.images.push(shown), ..reader };
                        flushes_go_on(next, PARAGRAPH_GAP, PARAGRAPH_GAP);
                    },
                    _ => {},
                }
            },
            MdEvent::End(tag) => {
                match tag {
                    TagEnd::BlockQuote(_) => {
                        let next = ReaderView {
                            quote: fewer(reader.quote),
                            ..reader.flush(PARAGRAPH_GAP)
                        };
                        flushes_go_on(next, PARAGRAPH_GAP, PARAGRAPH_GAP);
                    },
                    TagEnd::List(_) => {
                        let next = ReaderView {
                            lists: crate::rewrite::without_last(reader.lists),
                            ..reader.flush(ITEM_GAP)
                        };
                        flushes_go_on(next, ITEM_GAP, PARAGRAPH_GAP);
                    },
                    _ => {},
                }
            },
            MdEvent::Text(text) => words_go_on(reader, text, reader.style),
            MdEvent::Code(text) => words_go_on(reader, text, Inline { code: true, ..reader.style }),
            MdEvent::Html(html) => words_go_on(reader, crate::html::html_text(html), reader.style),
            MdEvent::InlineHtml(html) => words_go_on(
                reader,
                crate::html::html_text(html),
                reader.style,
            ),
            MdEvent::SoftBreak => words_go_on(reader, " "@, reader.style),
            MdEvent::HardBreak => words_go_on(reader, "\n"@, reader.style),
            MdEvent::InlineMath(latex) => words_go_on(
                reader,
                latex,
                Inline { code: true, ..reader.style },
            ),
            MdEvent::DisplayMath(latex) => words_go_on(
                reader,
                latex,
                Inline { code: true, ..reader.style },
            ),
            _ => {},
        }
    }
}

/// What is set stays set, as the document is read on.
pub proof fn blocks_stay(events: Seq<EventView>, shown: Seq<bool>, a: int, b: int)
    requires
        0 <= a <= b <= events.len(),
    ensures
        goes_on(read_of(events, shown, a).blocks, read_of(events, shown, b).blocks),
    decreases b - a,
{
    if a < b {
        blocks_stay(events, shown, a, b - 1);
        let now = read_of(events, shown, b - 1);
        steps_go_on(now, events[b - 1], b - 1, shown_at(shown, b - 1));
        let first = read_of(events, shown, a).blocks;
        let last = read_of(events, shown, b).blocks;
        assert forall|i: int| 0 <= i < first.len() implies same_block(
            #[trigger] first[i],
            last[i],
        ) by {
            assert(same_block(first[i], now.blocks[i]));
            assert(same_block(now.blocks[i], last[i]));
        }
    }
}

/// What is set stays set in the document.
proof fn blocks_end_up(events: Seq<EventView>, shown: Seq<bool>, a: int)
    requires
        0 <= a <= events.len(),
    ensures
        goes_on(read_of(events, shown, a).blocks, blocks_of(events, shown)),
{
    let n = events.len() as int;
    blocks_stay(events, shown, a, n);
    let last = read_of(events, shown, n);
    flushes_go_on(last, PARAGRAPH_GAP, PARAGRAPH_GAP);
    let first = read_of(events, shown, a).blocks;
    let all = blocks_of(events, shown);
    assert forall|i: int| 0 <= i < first.len() implies same_block(#[trigger] first[i], all[i]) by {
        assert(same_block(first[i], last.blocks[i]));
        assert(same_block(last.blocks[i], all[i]));
    }
}

/// A paragraph of text, code and breaks is a block whose text, after the marker of its item or
/// the label of its note if it opens one, is the text of its text and code, with a space for
/// every soft break and a line break for every hard one: no words are lost, added or run
/// together. A paragraph that shows nothing is no block.
#[verifier::spinoff_prover]
#[verifier::rlimit(40)]
pub proof fn paragraphs_say_their_words(events: Seq<EventView>, shown: Seq<bool>, a: int, b: int)
    requires
        0 <= a < b < events.len(),
        events[a] == EventView::Start(MdTag::Paragraph),
        events[b] == EventView::End(TagEnd::Paragraph),
        forall|k: int| a < k < b ==> is_in_line(#[trigger] events[k]),
        !in_code_block(events, a),
        open_around(events, a, Around::Image) == 0,
    ensures
        ({
            let before = read_of(events, shown, a);
            let opens = !before.has_text();
            let opened = if opens {
                before.paragraph.text
            } else {
                Seq::empty()
            };
            let prefix = if opens {
                before.prefix
            } else {
                0
            };
            let text = opened + said(events, a + 1, b);
            let i = before.blocks.len() + if opens {
                0int
            } else {
                1
            };
            let after = read_of(events, shown, b + 1).blocks;
            &&& trim(past(text, prefix)).len() == 0 ==> after.len() == i
            &&& trim(past(text, prefix)).len() > 0 ==> {
                &&& after.len() == i + 1
                &&& blocks_of(events, shown).len() > i
                &&& blocks_of(events, shown)[i] matches BlockView::Text {
                    paragraph,
                    heading,
                    name,
                    indent,
                    marker,
                    quote,
                    gap,
                } && {
                    &&& paragraph.text == text
                    &&& past(paragraph.text, opened.len() as int) == said(events, a + 1, b)
                    &&& heading == before.heading
                    &&& name == if opens {
                        before.name
                    } else {
                        None
                    }
                    &&& quote == open_around(events, a, Around::Quote)
                    &&& indent == indent_at(events, a) - if marker > 0 {
                        16int
                    } else {
                        0
                    }
                    &&& gap >= 8
                }
            }
        }),
{
    let before = read_of(events, shown, a);
    let opens = !before.has_text();
    readers_follow(events, shown, a);
    let begun = read_of(events, shown, a + 1);
    assert(begun == before.flush_text(PARAGRAPH_GAP));
    lines_stay_outside(events, a + 1, b);
    assert(in_code_block(events, a + 1) == in_code_block(events, a));
    assert(open_around(events, a + 1, Around::Image) == open_around(events, a, Around::Image));
    lines_are_said(events, shown, a + 1, b);
    readers_follow(events, shown, b);
    let full = read_of(events, shown, b);
    let after = read_of(events, shown, b + 1);
    assert(after == full.flush(PARAGRAPH_GAP));
    blocks_end_up(events, shown, b + 1);
    let opened = if opens {
        before.paragraph.text
    } else {
        Seq::empty()
    };
    let i = begun.blocks.len() as int;
    assert(full.paragraph.text =~= opened + said(events, a + 1, b));
    assert((opened + said(events, a + 1, b)).skip(opened.len() as int) =~= said(
        events,
        a + 1,
        b,
    ));
    if full.has_text() {
        assert(same_block(after.blocks[i], blocks_of(events, shown)[i]));
    }
}

/// Text and code are said as they are written, in the look of what is open around them.
pub proof fn text_looks_as_it_stands(
    events: Seq<EventView>,
    shown: Seq<bool>,
    n: int,
    text: Seq<char>,
)
    requires
        0 <= n < events.len(),
        events[n] == EventView::Text(text) || events[n] == EventView::Code(text),
        !in_code_block(events, n),
        open_around(events, n, Around::Image) == 0,
        text.len() > 0,
    ensures
        ({
            let before = read_of(events, shown, n).paragraph;
            let after = read_of(events, shown, n + 1).paragraph;
            let style = Inline { code: events[n] is Code, ..look(events, n) };
            &&& after.text == before.text + text
            &&& after.styles == if style == plain() {
                before.styles
            } else {
                before.styles.push((size(before.text), size(before.text + text), style))
            }
            &&& after.links == before.links
            &&& after.marks == before.marks
        }),
{
    readers_follow(events, shown, n);
}

/// A heading of text, code and breaks is a block of its level that says its words, which links
/// lead to by its id.
#[verifier::spinoff_prover]
#[verifier::rlimit(40)]
pub proof fn headings_say_their_words(
    events: Seq<EventView>,
    shown: Seq<bool>,
    a: int,
    b: int,
    level: HeadingLevel,
    id: Option<Seq<char>>,
)
    requires
        0 <= a < b < events.len(),
        events[a] == EventView::Start(MdTag::Heading { level, id }),
        events[b] == EventView::End(TagEnd::Heading(level)),
        forall|k: int| a < k < b ==> is_in_line(#[trigger] events[k]),
        !in_code_block(events, a),
        open_around(events, a, Around::Image) == 0,
        trim(said(events, a + 1, b)).len() > 0,
    ensures
        ({
            let i = read_of(events, shown, a + 1).blocks.len() as int;
            &&& read_of(events, shown, b + 1).blocks.len() == i + 1
            &&& read_of(events, shown, b + 1).heading is None
            &&& blocks_of(events, shown).len() > i
            &&& blocks_of(events, shown)[i] matches BlockView::Text {
                paragraph,
                heading,
                name,
                indent,
                marker,
                quote,
                ..
            } && {
                &&& paragraph.text == said(events, a + 1, b)
                &&& heading is Some
                &&& heading->0 == rank(level)
                &&& name == id
                &&& indent == indent_at(events, a)
                &&& marker == 0
                &&& quote == open_around(events, a, Around::Quote)
            }
        }),
{
    readers_follow(events, shown, a);
    let before = read_of(events, shown, a);
    let begun = read_of(events, shown, a + 1);
    assert(begun == ReaderView {
        heading: Some(crate::pdf::level_of(level)),
        name: id,
        ..before.flush(PARAGRAPH_GAP)
    });
    assert(in_code_block(events, a + 1) == in_code_block(events, a));
    assert(open_around(events, a + 1, Around::Image) == open_around(events, a, Around::Image));
    lines_stay_outside(events, a + 1, b);
    lines_are_said(events, shown, a + 1, b);
    readers_follow(events, shown, b);
    let full = read_of(events, shown, b);
    let after = read_of(events, shown, b + 1);
    assert(full.paragraph.text =~= said(events, a + 1, b));
    assert(past(full.paragraph.text, 0) =~= said(events, a + 1, b));
    assert(after == ReaderView { heading: None, ..full.flush(PARAGRAPH_GAP) });
    blocks_end_up(events, shown, b + 1);
    let i = begun.blocks.len() as int;
    assert(same_block(after.blocks[i], blocks_of(events, shown)[i]));
}

/// The open lists are counted on from item to item.
#[verifier::spinoff_prover]
#[verifier::rlimit(40)]
proof fn lists_follow(events: Seq<EventView>, shown: Seq<bool>, n: int)
    requires
        0 <= n <= events.len() < u64::MAX,
    ensures
        numbers_of(read_of(events, shown, n).lists) == open_lists(events, n),
        numbers_fit(read_of(events, shown, n).lists, n),
    decreases n,
{
    if n == 0 {
        assert(numbers_of(read_of(events, shown, 0).lists) =~= open_lists(events, 0));
    } else {
        lists_follow(events, shown, n - 1);
        readers_follow(events, shown, n - 1);
        let before = read_of(events, shown, n - 1);
        let after = read_of(events, shown, n);
        let show = shown_at(shown, n - 1);
        let first = match events[n - 1] {
            MdEvent::Start(MdTag::List(first)) => first,
            _ => None,
        };
        lists_are_followed(before.lists, first, n - 1);
        if before.code is None {
            match events[n - 1] {
                MdEvent::Start(tag) => {
                    lists_kept_by_starts(before, tag, n - 1, show);
                },
                MdEvent::End(tag) => {
                    lists_kept_by_ends(before, tag);
                },
                _ => {
                    others_follow(before, events[n - 1], n - 1, show);
                },
            }
        }
    }
}

/// What a start tag does to the open lists.
proof fn lists_kept_by_starts(reader: ReaderView, tag: TagView, n: int, shown: bool)
    ensures
        reader.start(tag, n, shown).lists == match tag {
            MdTag::List(Some(first)) => reader.lists.push(Some(first as u128)),
            MdTag::List(None) => reader.lists.push(None),
            MdTag::Item => lists_after_item(reader.lists),
            _ => reader.lists,
        },
{
}

/// What an end tag does to the open lists.
proof fn lists_kept_by_ends(reader: ReaderView, tag: TagEnd)
    ensures
        reader.end(tag).lists == if tag is List {
            crate::rewrite::without_last(reader.lists)
        } else {
            reader.lists
        },
{
}

/// An item opens with its number, counted on from the first of its list, or with a bullet, in
/// bold, after which its lines hang.
#[verifier::spinoff_prover]
#[verifier::rlimit(40)]
pub proof fn items_open_with_their_markers(events: Seq<EventView>, shown: Seq<bool>, n: int)
    requires
        0 <= n < events.len() < u64::MAX,
        events[n] == EventView::Start(MdTag::Item),
        !in_code_block(events, n),
    ensures
        ({
            let before = read_of(events, shown, n);
            let after = read_of(events, shown, n + 1);
            let opened = if before.has_text() {
                no_text()
            } else {
                before.paragraph
            };
            let marker = item_marker(open_lists(events, n));
            &&& after.paragraph == opened.push(marker, Inline { bold: true, ..plain() })
            &&& after.paragraph.text == opened.text + marker
            &&& after.prefix == after.paragraph.text.len()
            &&& after.hanging
        }),
{
    readers_follow(events, shown, n);
    lists_follow(events, shown, n);
    lists_are_followed(read_of(events, shown, n).lists, None, n);
}

/// Text in a code block is kept.
proof fn code_is_kept(events: Seq<EventView>, shown: Seq<bool>, a: int, b: int)
    requires
        0 <= a < b <= events.len(),
        events[a] matches EventView::Start(MdTag::CodeBlock(_)),
        !in_code_block(events, a),
        forall|k: int| a < k < b ==> (#[trigger] events[k]) is Text,
    ensures
        in_code_block(events, b),
        read_of(events, shown, b) == (ReaderView {
            code: Some(said(events, a + 1, b)),
            ..read_of(events, shown, a + 1)
        }),
    decreases b - a,
{
    readers_follow(events, shown, a);
    if b == a + 1 {
        assert(read_of(events, shown, b).code == Some(Seq::<char>::empty()));
    } else {
        code_is_kept(events, shown, a, b - 1);
        assert(events[b - 1] is Text);
    }
}

/// A code block is a block that holds its text, without the line breaks at its end, and knows
/// the so manieth of the document it is.
#[verifier::spinoff_prover]
#[verifier::rlimit(40)]
pub proof fn code_blocks_hold_their_code(events: Seq<EventView>, shown: Seq<bool>, a: int, b: int)
    requires
        0 <= a < b < events.len(),
        events[a] matches EventView::Start(MdTag::CodeBlock(_)),
        events[b] == EventView::End(TagEnd::CodeBlock),
        forall|k: int| a < k < b ==> (#[trigger] events[k]) is Text,
        !in_code_block(events, a),
    ensures
        ({
            let i = read_of(events, shown, a + 1).blocks.len() as int;
            &&& blocks_of(events, shown).len() > i
            &&& blocks_of(events, shown)[i] == (BlockView::Code {
                code: drop_end(said(events, a + 1, b), '\n'),
                number: code_blocks_before(events, a) as int,
                indent: indent_at(events, a) as int,
                quote: open_around(events, a, Around::Quote) as int,
            })
        }),
{
    readers_follow(events, shown, a);
    code_is_kept(events, shown, a, b);
    readers_follow(events, shown, a + 1);
    let i = read_of(events, shown, a + 1).blocks.len() as int;
    let after = read_of(events, shown, b + 1);
    blocks_end_up(events, shown, b + 1);
    assert(same_block(after.blocks[i], blocks_of(events, shown)[i]));
}

/// A cell of text, code and breaks says its words, and is the next of its row.
#[verifier::spinoff_prover]
#[verifier::rlimit(40)]
pub proof fn cells_say_their_words(events: Seq<EventView>, shown: Seq<bool>, a: int, b: int)
    requires
        0 <= a < b < events.len(),
        events[a] == EventView::Start(MdTag::TableCell),
        events[b] == EventView::End(TagEnd::TableCell),
        forall|k: int| a < k < b ==> is_in_line(#[trigger] events[k]),
        !in_code_block(events, a),
        open_around(events, a, Around::Image) == 0,
        is_on(events, a, Around::Table, Around::Table),
    ensures
        ({
            let (alignments, rows, row) = read_of(events, shown, a).table->0;
            &&& read_of(events, shown, b + 1).table matches Some((alignments2, rows2, row2)) && {
                &&& alignments2 == alignments
                &&& rows2 == rows
                &&& row2.len() == row.len() + 1
                &&& row2.drop_last() == row
                &&& row2.last().text == said(events, a + 1, b)
            }
        }),
{
    readers_follow(events, shown, a);
    let begun = read_of(events, shown, a + 1);
    assert(in_code_block(events, a + 1) == in_code_block(events, a));
    assert(open_around(events, a + 1, Around::Image) == open_around(events, a, Around::Image));
    lines_stay_outside(events, a + 1, b);
    lines_are_said(events, shown, a + 1, b);
    readers_follow(events, shown, b);
    let full = read_of(events, shown, b);
    assert(full.paragraph.text =~= said(events, a + 1, b));
    let (_, _, row) = read_of(events, shown, a).table->0;
    let (_, _, row2) = read_of(events, shown, b + 1).table->0;
    assert(row2.drop_last() =~= row);
}

/// A table starts without rows, a row that ends is the next of its table, and a table that ends
/// is a block with all its rows and the alignments of its columns.
#[verifier::spinoff_prover]
#[verifier::rlimit(40)]
pub proof fn tables_hold_their_rows(events: Seq<EventView>, shown: Seq<bool>, n: int)
    requires
        0 <= n < events.len(),
        !in_code_block(events, n),
    ensures
        ({
            let before = read_of(events, shown, n);
            let after = read_of(events, shown, n + 1);
            &&& events[n] matches EventView::Start(MdTag::Table(alignments)) ==> after.table
                == Some(
                (alignments, Seq::<Seq<ParagraphView>>::empty(), Seq::<ParagraphView>::empty()),
            )
            &&& before.table matches Some((alignments, rows, row)) ==> {
                &&& events[n] == EventView::End(TagEnd::TableHead) || events[n] == EventView::End(
                    TagEnd::TableRow,
                ) ==> after.table == Some(
                    (alignments, rows.push(row), Seq::<ParagraphView>::empty()),
                )
                &&& events[n] == EventView::End(TagEnd::Table) ==> {
                    let i = before.blocks.len() as int;
                    &&& after.table is None
                    &&& blocks_of(events, shown).len() > i
                    &&& blocks_of(events, shown)[i] == (BlockView::Table {
                        rows,
                        alignments,
                        indent: indent_at(events, n) as int,
                        quote: open_around(events, n, Around::Quote) as int,
                    })
                }
            }
        }),
{
    readers_follow(events, shown, n);
    blocks_end_up(events, shown, n + 1);
    let before = read_of(events, shown, n);
    let after = read_of(events, shown, n + 1);
    if events[n] == EventView::End(TagEnd::Table) && before.table is Some {
        let i = before.blocks.len() as int;
        assert(same_block(after.blocks[i], blocks_of(events, shown)[i]));
    }
}

/// A box is black if its task is done, and white if it is not.
pub proof fn boxes_show_what_is_done(events: Seq<EventView>, shown: Seq<bool>, n: int, done: bool)
    requires
        0 <= n < events.len(),
        events[n] == EventView::TaskListMarker(done),
        !in_code_block(events, n),
    ensures
        read_of(events, shown, n + 1).paragraph.text == read_of(events, shown, n).paragraph.text
            + if done {
            "\u{25a0} "@
        } else {
            "\u{25a1} "@
        },
{
    readers_follow(events, shown, n);
}

/// A rule is a block.
pub proof fn rules_are_set(events: Seq<EventView>, shown: Seq<bool>, n: int)
    requires
        0 <= n < events.len(),
        events[n] is Rule,
        !in_code_block(events, n),
    ensures
        ({
            let after = read_of(events, shown, n + 1).blocks;
            &&& after.len() > read_of(events, shown, n).blocks.len()
            &&& after.last() == BlockView::Rule
            &&& blocks_of(events, shown)[after.len() - 1] == BlockView::Rule
        }),
{
    readers_follow(events, shown, n);
    blocks_end_up(events, shown, n + 1);
    let after = read_of(events, shown, n + 1).blocks;
    assert(same_block(after[after.len() - 1], blocks_of(events, shown)[after.len() - 1]));
}

/// Whether a footnote is referred to among the first `n` events, outside code blocks.
pub open spec fn is_referred_to(events: Seq<EventView>, n: int, name: Seq<char>) -> bool {
    exists|k: int|
        0 <= k < n && #[trigger] events[k] == EventView::FootnoteReference(name) && !in_code_block(
            events,
            k,
        )
}

/// A reader knows which footnotes were referred to.
#[verifier::spinoff_prover]
#[verifier::rlimit(40)]
proof fn references_follow(events: Seq<EventView>, shown: Seq<bool>, n: int, name: Seq<char>)
    requires
        0 <= n <= events.len(),
    ensures
        read_of(events, shown, n).referred.contains(name) <==> is_referred_to(events, n, name),
    decreases n,
{
    if n > 0 {
        references_follow(events, shown, n - 1, name);
        readers_follow(events, shown, n - 1);
        let before = read_of(events, shown, n - 1);
        let after = read_of(events, shown, n);
        let show = shown_at(shown, n - 1);
        if before.code is None {
            references_kept(before, events[n - 1], n - 1, show);
            match events[n - 1] {
                MdEvent::FootnoteReference(other) => {
                    if !before.referred.contains(other) {
                        assert(after.referred.last() == other);
                        assert(after.referred.drop_last() =~= before.referred);
                        if before.referred.contains(name) {
                            let i = before.referred.index_of(name);
                            assert(after.referred[i] == name);
                        }
                        if after.referred.contains(name) && name != other {
                            let i = after.referred.index_of(name);
                            assert(before.referred[i] == name);
                        }
                    }
                    assert(events[n - 1] == EventView::FootnoteReference(other));
                },
                _ => {},
            }
        }
        if is_referred_to(events, n - 1, name) {
            let k = choose|k: int|
                0 <= k < n - 1 && #[trigger] events[k] == EventView::FootnoteReference(name)
                    && !in_code_block(events, k);
            assert(events[k] == EventView::FootnoteReference(name));
        }
    }
}

/// Only a reference to a footnote is one more that was referred to.
proof fn references_kept(reader: ReaderView, event: EventView, n: int, shown: bool)
    requires
        reader.code is None,
    ensures
        reader.step(event, n, shown).referred == match event {
            MdEvent::FootnoteReference(name) if !reader.referred.contains(name) =>
            reader.referred.push(name),
            _ => reader.referred,
        },
{
}

/// A reference to a footnote shows its name in brackets, links to its note, and is the place its
/// note leads back to if it is the first.
pub proof fn references_lead_to_their_notes(
    events: Seq<EventView>,
    shown: Seq<bool>,
    n: int,
    name: Seq<char>,
)
    requires
        0 <= n < events.len(),
        events[n] == EventView::FootnoteReference(name),
        !in_code_block(events, n),
    ensures
        ({
            let before = read_of(events, shown, n).paragraph;
            let after = read_of(events, shown, n + 1).paragraph;
            &&& after.text == before.text + ("["@ + name + "]"@)
            &&& after.links == before.links.push(
                (size(before.text), size(after.text), "#"@ + ("fn:"@ + name)),
            )
            &&& after.marks == if is_referred_to(events, n, name) {
                before.marks
            } else {
                before.marks.push(("fnref:"@ + name, size(before.text)))
            }
        }),
{
    readers_follow(events, shown, n);
    references_follow(events, shown, n, name);
}

/// A note is led to by its name, opens with it in brackets, and ends with an arrow that leads
/// back to the first reference to it.
#[verifier::spinoff_prover]
#[verifier::rlimit(40)]
pub proof fn notes_lead_back(events: Seq<EventView>, shown: Seq<bool>, n: int, label: Seq<char>)
    requires
        0 <= n < events.len(),
        !in_code_block(events, n),
    ensures
        events[n] == EventView::Start(MdTag::FootnoteDefinition(label)) ==> {
            let after = read_of(events, shown, n + 1);
            &&& after.note == Some(label)
            &&& after.name == Some("fn:"@ + label)
            &&& after.paragraph.text == "["@ + label + "]: "@
        },
        events[n] == EventView::End(TagEnd::FootnoteDefinition) && read_of(events, shown, n).note
            == Some(label) ==> {
            let after = read_of(events, shown, n + 1);
            let i = after.blocks.len() - 1;
            &&& after.note is None
            &&& blocks_of(events, shown)[i] matches BlockView::Text { paragraph, quote, .. } && {
                &&& paragraph.text == "\u{21a9}"@
                &&& paragraph.links == seq![
                    (0int, size("\u{21a9}"@), "#"@ + ("fnref:"@ + label)),
                ]
                &&& quote == open_around(events, n, Around::Quote)
            }
        },
{
    readers_follow(events, shown, n);
    blocks_end_up(events, shown, n + 1);
    let after = read_of(events, shown, n + 1);
    if events[n] == EventView::Start(MdTag::FootnoteDefinition(label)) {
        assert(after.paragraph.text =~= "["@ + label + "]: "@);
    }
    if events[n] == EventView::End(TagEnd::FootnoteDefinition) {
        if read_of(events, shown, n).note == Some(label) {
            let i = after.blocks.len() - 1;
            assert(same_block(after.blocks[i], blocks_of(events, shown)[i]));
            assert(Seq::<char>::empty() + "\u{21a9}"@ =~= "\u{21a9}"@);
            assert(Seq::<(int, int, Seq<char>)>::empty().push(
                (0int, size("\u{21a9}"@), "#"@ + ("fnref:"@ + label)),
            ) =~= seq![(0int, size("\u{21a9}"@), "#"@ + ("fnref:"@ + label))]);
        }
    }
}

/// Math that typesets is a formula in the line, or a block of its own if it is displayed outside
/// a table; math that does not, or in the place of an image, shows as its source, as code.
pub proof fn math_is_set(
    events: Seq<EventView>,
    shown: Seq<bool>,
    n: int,
    latex: Seq<char>,
    display: bool,
)
    requires
        0 <= n < events.len() <= usize::MAX,
        events[n] == if display {
            EventView::DisplayMath(latex)
        } else {
            EventView::InlineMath(latex)
        },
        !in_code_block(events, n),
        open_around(events, n, Around::Image) == 0,
    ensures
        ({
            let before = read_of(events, shown, n);
            let after = read_of(events, shown, n + 1);
            let style = look(events, n);
            if !(n < shown.len() && shown[n]) {
                after.paragraph == before.paragraph.push(latex, Inline { code: true, ..style })
            } else if display && !is_on(events, n, Around::Table, Around::Table) {
                after.blocks.last() == BlockView::Math {
                    event: n,
                    indent: indent_at(events, n) as int,
                    quote: open_around(events, n, Around::Quote) as int,
                }
            } else {
                after.paragraph == before.paragraph.push(
                    seq!['\u{fffc}'],
                    Inline { math: Some(n as usize), ..style },
                )
            }
        }),
{
    readers_follow(events, shown, n);
}

/// An image that leads to a file is a block, with its text for when it does not decode; one that
/// does not shows its text in italics.
#[verifier::spinoff_prover]
#[verifier::rlimit(40)]
pub proof fn images_are_set(events: Seq<EventView>, shown: Seq<bool>, n: int)
    requires
        0 <= n < events.len(),
        !in_code_block(events, n),
    ensures
        ({
            let before = read_of(events, shown, n);
            let after = read_of(events, shown, n + 1);
            &&& events[n] matches EventView::Start(MdTag::Image { .. }) ==> {
                let show = n < shown.len() && shown[n];
                &&& after.images == before.images.push(show)
                &&& show ==> after.blocks.last() == (BlockView::Image {
                    event: n,
                    alt: Seq::empty(),
                    indent: indent_at(events, n) as int,
                    quote: open_around(events, n, Around::Quote) as int,
                })
                &&& !show ==> after.blocks == before.blocks && after.paragraph == before.paragraph
            }
            &&& events[n] matches EventView::Text(text) ==> before.images.len() > 0 ==> {
                &&& !before.images.last() ==> after.paragraph == before.paragraph.push(
                    text,
                    Inline { italic: true, ..look(events, n) },
                )
                &&& before.images.last() ==> after.paragraph == before.paragraph
                &&& before.images.last() && before.blocks.len() > 0 ==> (before.blocks.last()
                    matches BlockView::Image { event, alt, indent, quote } ==> after.blocks
                    == before.blocks.drop_last().push(
                    BlockView::Image { event, alt: alt + text, indent, quote },
                ))
            }
        }),
{
    readers_follow(events, shown, n);
}

/// A link leads from its words to its address, if that is one on the web, one to write to or a
/// place in the document, and is plain text otherwise.
#[verifier::spinoff_prover]
#[verifier::rlimit(40)]
pub proof fn links_cover_their_words(
    events: Seq<EventView>,
    shown: Seq<bool>,
    a: int,
    b: int,
    url: Seq<char>,
)
    requires
        0 <= a < b < events.len(),
        events[a] matches EventView::Start(MdTag::Link { dest_url, .. }) && dest_url == url,
        events[b] == EventView::End(TagEnd::Link),
        forall|k: int|
            a < k < b ==> is_in_line(#[trigger] events[k]) && !crate::around::starts(
                events[k],
                Around::Link,
            ) && !crate::around::ends(events[k], Around::Link),
        !in_code_block(events, a),
        open_around(events, a, Around::Image) == 0,
    ensures
        ({
            let before = read_of(events, shown, a).paragraph;
            let after = read_of(events, shown, b + 1).paragraph;
            &&& after.text == before.text + said(events, a + 1, b)
            &&& after.links == if is_kept_link(url) {
                before.links.push((size(before.text), size(after.text), url))
            } else {
                before.links
            }
        }),
{
    readers_follow(events, shown, a);
    let begun = read_of(events, shown, a + 1);
    assert(in_code_block(events, a + 1) == in_code_block(events, a));
    assert(open_around(events, a + 1, Around::Image) == open_around(events, a, Around::Image));
    links_are_kept(events, shown, a + 1, b);
    lines_stay_outside(events, a + 1, b);
    lines_are_said(events, shown, a + 1, b);
    readers_follow(events, shown, b);
}

/// Words between the start and the end of a link leave the open links as they are.
proof fn links_are_kept(events: Seq<EventView>, shown: Seq<bool>, a: int, b: int)
    requires
        0 <= a <= b <= events.len(),
        forall|k: int|
            a <= k < b ==> is_in_line(#[trigger] events[k]) && !crate::around::starts(
                events[k],
                Around::Link,
            ) && !crate::around::ends(events[k], Around::Link),
        !in_code_block(events, a),
        open_around(events, a, Around::Image) == 0,
    ensures
        read_of(events, shown, b).links == read_of(events, shown, a).links,
        read_of(events, shown, b).paragraph.links == read_of(events, shown, a).paragraph.links,
    decreases b - a,
{
    if a < b {
        links_are_kept(events, shown, a, b - 1);
        lines_stay_outside(events, a, b - 1);
        readers_follow(events, shown, b - 1);
        assert(is_in_line(events[b - 1]));
        words_keep_links(
            read_of(events, shown, b - 1),
            events[b - 1],
            b - 1,
            shown_at(shown, b - 1),
        );
    }
}

/// An event of a line that neither starts nor ends a link leaves the links as they are.
proof fn words_keep_links(reader: ReaderView, event: EventView, n: int, shown: bool)
    requires
        reader.code is None,
        reader.images.len() == 0,
        is_in_line(event),
        !crate::around::starts(event, Around::Link),
        !crate::around::ends(event, Around::Link),
    ensures
        reader.step(event, n, shown).links == reader.links,
        reader.step(event, n, shown).paragraph.links == reader.paragraph.links,
{
}

/// A list that is in no other, and a quote, that end leave at least as much space after their last
/// text as a paragraph does.
#[verifier::spinoff_prover]
#[verifier::rlimit(40)]
pub proof fn lists_and_quotes_end_apart(
    events: Seq<EventView>,
    shown: Seq<bool>,
    n: int,
    tag: TagEnd,
)
    requires
        0 <= n < events.len(),
        events[n] == EventView::End(tag),
        tag is BlockQuote || (tag is List && open_around(events, n, Around::List) <= 1),
        !in_code_block(events, n),
    ensures
        ({
            let after = read_of(events, shown, n + 1).blocks;
            after.len() > 0 ==> (after.last() matches BlockView::Text { gap, .. } ==> gap >= 8)
        }),
{
    readers_follow(events, shown, n);
}

/// A paragraph is followed by more space than an item, and both by what is given here, in points.
#[verifier::spinoff_prover]
#[verifier::rlimit(40)]
pub proof fn texts_are_set_apart(events: Seq<EventView>, shown: Seq<bool>, n: int, tag: TagEnd)
    requires
        0 <= n < events.len(),
        events[n] == EventView::End(tag),
        tag is Paragraph || tag is Heading || tag is Item || tag is DefinitionListTitle || tag
            is DefinitionListDefinition,
        !in_code_block(events, n),
        read_of(events, shown, n).has_text(),
    ensures
        ({
            let after = read_of(events, shown, n + 1).blocks;
            &&& after.len() == read_of(events, shown, n).blocks.len() + 1
            &&& after.last() matches BlockView::Text { paragraph, gap, .. } && paragraph == read_of(
                events,
                shown,
                n,
            ).paragraph && gap == if tag is Item || tag is DefinitionListTitle {
                3u32
            } else {
                8u32
            }
        }),
{
    readers_follow(events, shown, n);
}

}
