//! The blocks of a document as the PDF export sets them.

use crate::emoji::{all_spelled, pairs, spell_out};
use crate::event::{copy_alignments, DocEvent, DocTag, EventView, MdEvent, MdTag, TagView};
use crate::html::{html_text, strip_html};
use crate::preview::{is_followed, is_safe_link, list_marker, lists_after_item, marker_of};
use crate::rewrite::{footnote_id_of, reference_id_of};
use crate::text::{
    begins, chars_of, cut_end, drop_end, same, starts_with, text_of, texts, trim, trimmed,
};
use pulldown_cmark::{Alignment, HeadingLevel, TagEnd};
use vstd::prelude::*;
use vstd::string::*;

verus! {

/// Space after a paragraph, in points.
pub const PARAGRAPH_GAP: u32 = 8;

/// Space after a list item, in points.
pub const ITEM_GAP: u32 = 3;

/// How far a list indents its items, in points.
pub const LIST_INDENT: i128 = 16;

/// How far a quote indents its text, in points.
pub const QUOTE_INDENT: i128 = 16;

/// How a stretch of text looks.
#[derive(Clone, Copy, Debug, PartialEq, Eq, Structural)]
pub struct Inline {
    pub bold: bool,
    pub italic: bool,
    pub strikethrough: bool,
    pub code: bool,
    pub link: bool,
    pub footnote: bool,
    /// The event of the formula that the text stands for.
    pub math: Option<usize>,
}

/// Text that looks like the rest.
pub open spec fn plain() -> Inline {
    Inline {
        bold: false,
        italic: false,
        strikethrough: false,
        code: false,
        link: false,
        footnote: false,
        math: None,
    }
}

impl Default for Inline {
    fn default() -> (style: Self)
        ensures
            style == plain(),
    {
        Inline {
            bold: false,
            italic: false,
            strikethrough: false,
            code: false,
            link: false,
            footnote: false,
            math: None,
        }
    }
}

/// Text with its styled stretches and links, as byte ranges of the text, and the places in it
/// that links lead to, as contracts speak of it.
#[verifier::ext_equal]
pub struct ParagraphView {
    pub text: Seq<char>,
    pub styles: Seq<(int, int, Inline)>,
    pub links: Seq<(int, int, Seq<char>)>,
    pub marks: Seq<(Seq<char>, int)>,
}

/// Text with its styled stretches and links, as byte ranges of the text, and the places in it
/// that links lead to, by their names.
#[derive(Debug, PartialEq)]
pub struct Paragraph {
    pub text: String,
    pub styles: Vec<(usize, usize, Inline)>,
    pub links: Vec<(usize, usize, String)>,
    pub marks: Vec<(String, usize)>,
}

/// Styled stretches as contracts speak of them.
pub open spec fn style_views(styles: Seq<(usize, usize, Inline)>) -> Seq<(int, int, Inline)> {
    styles.map_values(
        |style: (usize, usize, Inline)| (style.0 as int, style.1 as int, style.2),
    )
}

impl View for Paragraph {
    type V = ParagraphView;

    open spec fn view(&self) -> ParagraphView {
        ParagraphView {
            text: self.text@,
            styles: style_views(self.styles@),
            links: crate::preview::link_views(self.links@),
            marks: crate::preview::start_views(self.marks@),
        }
    }
}

/// How many bytes a text takes.
pub open spec fn size(text: Seq<char>) -> int {
    vstd::utf8::encode_utf8(text).len() as int
}

/// How many bytes a text takes.
fn byte_len(text: &str) -> (bytes: usize)
    ensures
        bytes == size(text@),
{
    text.as_bytes().len()
}

impl ParagraphView {
    /// More text that looks like `style`.
    pub open spec fn push(self, text: Seq<char>, style: Inline) -> ParagraphView {
        ParagraphView {
            text: self.text + text,
            styles: if style != plain() && text.len() > 0 {
                self.styles.push((size(self.text), size(self.text + text), style))
            } else {
                self.styles
            },
            links: self.links,
            marks: self.marks,
        }
    }

    /// The text from `start` on is a link.
    pub open spec fn link(self, start: int, url: Seq<char>) -> ParagraphView {
        ParagraphView { links: self.links.push((start, size(self.text), url)), ..self }
    }
}

/// No text.
pub open spec fn no_text() -> ParagraphView {
    ParagraphView {
        text: Seq::empty(),
        styles: Seq::empty(),
        links: Seq::empty(),
        marks: Seq::empty(),
    }
}

impl Paragraph {
    /// No text.
    pub fn new() -> (paragraph: Self)
        ensures
            paragraph@ == no_text(),
    {
        let paragraph = Paragraph {
            text: String::new(),
            styles: Vec::new(),
            links: Vec::new(),
            marks: Vec::new(),
        };
        proof {
            assert(paragraph@ =~= no_text());
        }
        paragraph
    }

    /// More text that looks like `style`.
    pub fn push(&mut self, text: &str, style: Inline)
        ensures
            final(self)@ == old(self)@.push(text@, style),
    {
        let start = byte_len(self.text.as_str());
        self.text.append(text);
        let ghost before = self.styles@;
        if style != Inline::default() && !text.is_empty() {
            let end = byte_len(self.text.as_str());
            let item = (start, end, style);
            proof {
                assert(style_views(before.push(item)) =~= style_views(before).push(
                    (start as int, end as int, style),
                ));
            }
            self.styles.push(item);
        }
        proof {
            assert(self@ =~= old(self)@.push(text@, style));
        }
    }

    /// Make the text from `start` on a link.
    fn link(&mut self, start: usize, url: String)
        ensures
            final(self)@ == old(self)@.link(start as int, url@),
    {
        let ghost before = self.links@;
        let end = byte_len(self.text.as_str());
        let link = (start, end, url);
        proof {
            assert(crate::preview::link_views(before.push(link)) =~= crate::preview::link_views(
                before,
            ).push((start as int, end as int, url@)));
        }
        self.links.push(link);
        proof {
            assert(self@ =~= old(self)@.link(start as int, url@));
        }
    }

    /// Name a place in the text.
    fn mark(&mut self, name: String, at: usize)
        ensures
            final(self)@ == (ParagraphView {
                marks: old(self)@.marks.push((name@, at as int)),
                ..old(self)@
            }),
    {
        let ghost before = self.marks@;
        let item = (name, at);
        proof {
            assert(crate::preview::start_views(before.push(item)) =~= crate::preview::start_views(
                before,
            ).push((name@, at as int)));
        }
        self.marks.push(item);
        proof {
            assert(self@ =~= ParagraphView {
                marks: old(self)@.marks.push((name@, at as int)),
                ..old(self)@
            });
        }
    }
}

/// A block of a document as the PDF sets it, as contracts speak of it.
pub enum BlockView {
    Text {
        paragraph: ParagraphView,
        heading: Option<usize>,
        name: Option<Seq<char>>,
        indent: int,
        marker: int,
        quote: int,
        gap: u32,
    },
    Code { code: Seq<char>, number: int, indent: int, quote: int },
    Table {
        rows: Seq<Seq<ParagraphView>>,
        alignments: Seq<Alignment>,
        indent: int,
        quote: int,
    },
    Image { event: int, alt: Seq<char>, indent: int, quote: int },
    Math { event: int, indent: int, quote: int },
    Rule,
}

/// A block of a document as the PDF sets it. Indents and gaps are in points.
#[derive(Debug, PartialEq)]
pub enum Block {
    Text {
        paragraph: Paragraph,
        /// The heading level, from 1.
        heading: Option<usize>,
        /// What links lead to it by.
        name: Option<String>,
        indent: i128,
        /// The length of the list marker that opens the text, which wrapped lines hang after.
        marker: usize,
        quote: usize,
        gap: u32,
    },
    /// A code block, which is the so manieth of the document.
    Code { code: String, number: usize, indent: i128, quote: usize },
    Table { rows: Vec<Vec<Paragraph>>, alignments: Vec<Alignment>, indent: i128, quote: usize },
    /// The image that the event starts.
    Image { event: usize, alt: String, indent: i128, quote: usize },
    /// The formula of the event, on a line of its own.
    Math { event: usize, indent: i128, quote: usize },
    Rule,
}

/// A row of a table as contracts speak of it.
pub open spec fn row_view(row: Seq<Paragraph>) -> Seq<ParagraphView> {
    row.map_values(|cell: Paragraph| cell@)
}

/// The rows of a table as contracts speak of them.
pub open spec fn rows_view(rows: Seq<Vec<Paragraph>>) -> Seq<Seq<ParagraphView>> {
    rows.map_values(|row: Vec<Paragraph>| row_view(row@))
}

impl View for Block {
    type V = BlockView;

    open spec fn view(&self) -> BlockView {
        match *self {
            Block::Text { paragraph, heading, name, indent, marker, quote, gap } => BlockView::Text {
                paragraph: paragraph@,
                heading,
                name: crate::event::opt_view(name),
                indent: indent as int,
                marker: marker as int,
                quote: quote as int,
                gap,
            },
            Block::Code { code, number, indent, quote } => BlockView::Code {
                code: code@,
                number: number as int,
                indent: indent as int,
                quote: quote as int,
            },
            Block::Table { rows, alignments, indent, quote } => BlockView::Table {
                rows: rows_view(rows@),
                alignments: alignments@,
                indent: indent as int,
                quote: quote as int,
            },
            Block::Image { event, alt, indent, quote } => BlockView::Image {
                event: event as int,
                alt: alt@,
                indent: indent as int,
                quote: quote as int,
            },
            Block::Math { event, indent, quote } => BlockView::Math {
                event: event as int,
                indent: indent as int,
                quote: quote as int,
            },
            Block::Rule => BlockView::Rule,
        }
    }
}

/// Blocks as contracts speak of them.
pub open spec fn block_views(blocks: Seq<Block>) -> Seq<BlockView> {
    blocks.map_values(|block: Block| block@)
}

/// A document being read, as contracts speak of it.
#[verifier::ext_equal]
pub struct ReaderView {
    pub blocks: Seq<BlockView>,
    pub paragraph: ParagraphView,
    /// How many characters open the paragraph, a list marker or a footnote label, which does
    /// not make it worth setting on its own.
    pub prefix: int,
    /// Whether the prefix is a list marker, which wrapped lines hang after.
    pub hanging: bool,
    pub heading: Option<usize>,
    /// What links lead to the paragraph by.
    pub name: Option<Seq<char>>,
    /// The open footnote.
    pub note: Option<Seq<char>>,
    /// The footnotes referred to so far.
    pub referred: Seq<Seq<char>>,
    pub style: Inline,
    pub lists: Seq<Option<u128>>,
    pub quote: int,
    /// The open links: their addresses and where they start.
    pub links: Seq<(Seq<char>, int)>,
    /// Whether each open image is shown, which hides its alternative text.
    pub images: Seq<bool>,
    /// The text so far of the open code block.
    pub code: Option<Seq<char>>,
    pub code_blocks: int,
    /// The open table: its alignments, its rows and the row being read.
    pub table: Option<(Seq<Alignment>, Seq<Seq<ParagraphView>>, Seq<ParagraphView>)>,
}

/// What follows the first `prefix` characters.
pub open spec fn past(text: Seq<char>, prefix: int) -> Seq<char> {
    if 0 <= prefix <= text.len() {
        text.skip(prefix)
    } else {
        Seq::empty()
    }
}

/// The number of a heading level.
pub open spec fn level_of(level: HeadingLevel) -> usize {
    match level {
        HeadingLevel::H1 => 1,
        HeadingLevel::H2 => 2,
        HeadingLevel::H3 => 3,
        HeadingLevel::H4 => 4,
        HeadingLevel::H5 => 5,
        HeadingLevel::H6 => 6,
    }
}

/// Whether a link is kept: to a web or mail address, or to a place in the document.
pub open spec fn is_kept_link(url: Seq<char>) -> bool {
    is_followed(url) || starts_with(url, "#"@)
}

/// The arrow that links back to the first reference to a footnote.
pub open spec fn arrow_back(name: Seq<char>) -> ParagraphView {
    no_text().push("\u{21a9}"@, Inline { link: true, ..plain() }).link(
        0,
        "#"@ + reference_id_of(name),
    )
}

impl ReaderView {
    /// How far text is indented, in points.
    pub open spec fn indent(self) -> int {
        self.lists.len() * LIST_INDENT + self.quote * QUOTE_INDENT
    }

    /// Whether the paragraph has more than its prefix.
    pub open spec fn has_text(self) -> bool {
        trim(past(self.paragraph.text, self.prefix)).len() > 0
    }

    /// The paragraph read so far is set, if it has more than its prefix, followed by `gap`. An
    /// item's marker sits one step out from the text of the list.
    pub open spec fn flush(self, gap: u32) -> ReaderView {
        let marker = if self.hanging {
            size(
                if 0 <= self.prefix <= self.paragraph.text.len() {
                    self.paragraph.text.take(self.prefix)
                } else {
                    self.paragraph.text
                },
            )
        } else {
            0
        };
        let next = ReaderView {
            paragraph: no_text(),
            prefix: 0,
            hanging: false,
            name: None,
            ..self
        };
        if self.has_text() {
            ReaderView {
                blocks: self.blocks.push(
                    BlockView::Text {
                        paragraph: self.paragraph,
                        heading: self.heading,
                        name: self.name,
                        indent: if marker > 0 {
                            self.indent() - LIST_INDENT
                        } else {
                            self.indent()
                        },
                        marker,
                        quote: self.quote,
                        gap,
                    },
                ),
                ..next
            }
        } else {
            next
        }
    }

    /// At least `gap` is left after the last block.
    pub open spec fn widen_gap(self, gap: u32) -> ReaderView {
        if self.blocks.len() == 0 {
            self
        } else {
            match self.blocks.last() {
                BlockView::Text { paragraph, heading, name, indent, marker, quote, gap: last } =>
                ReaderView {
                    blocks: self.blocks.drop_last().push(
                        BlockView::Text {
                            paragraph,
                            heading,
                            name,
                            indent,
                            marker,
                            quote,
                            gap: if last >= gap {
                                last
                            } else {
                                gap
                            },
                        },
                    ),
                    ..self
                },
                _ => self,
            }
        }
    }

    /// More text in the style `style`. In an image that is shown it is alternative text, kept
    /// in case the image turns out not to decode; in one that is not it is set in italics.
    pub open spec fn say(self, text: Seq<char>, style: Inline) -> ReaderView {
        if self.images.len() == 0 {
            ReaderView { paragraph: self.paragraph.push(text, style), ..self }
        } else if !self.images.last() {
            ReaderView {
                paragraph: self.paragraph.push(text, Inline { italic: true, ..style }),
                ..self
            }
        } else if self.blocks.len() == 0 {
            self
        } else {
            match self.blocks.last() {
                BlockView::Image { event, alt, indent, quote } => ReaderView {
                    blocks: self.blocks.drop_last().push(
                        BlockView::Image { event, alt: alt + text, indent, quote },
                    ),
                    ..self
                },
                _ => self,
            }
        }
    }

    /// A block is set.
    pub open spec fn set(self, block: BlockView) -> ReaderView {
        ReaderView { blocks: self.blocks.push(block), ..self }
    }

    /// An event inside a code block.
    pub open spec fn in_code(self, code: Seq<char>, event: EventView) -> ReaderView {
        match event {
            MdEvent::Text(text) => ReaderView { code: Some(code + text), ..self },
            MdEvent::End(TagEnd::CodeBlock) => ReaderView {
                code: None,
                code_blocks: self.code_blocks + 1,
                ..self.set(
                    BlockView::Code {
                        code: drop_end(code, '\n'),
                        number: self.code_blocks,
                        indent: self.indent(),
                        quote: self.quote,
                    },
                )
            },
            _ => self,
        }
    }

    /// A prefix opens the paragraph.
    pub open spec fn open_with(self, text: Seq<char>, hanging: bool) -> ReaderView {
        let paragraph = self.paragraph.push(text, Inline { bold: true, ..plain() });
        ReaderView {
            paragraph,
            prefix: paragraph.text.len() as int,
            hanging: hanging || self.hanging,
            ..self
        }
    }

    /// The text read so far is set, if there is any.
    pub open spec fn flush_text(self, gap: u32) -> ReaderView {
        if self.has_text() {
            self.flush(gap)
        } else {
            self
        }
    }

    /// Event `n` starts an image, which leads to a file if it is `shown`.
    pub open spec fn start_image(self, n: int, shown: bool) -> ReaderView {
        let next = ReaderView { images: self.images.push(shown), ..self };
        if shown {
            next.flush(PARAGRAPH_GAP).set(
                BlockView::Image {
                    event: n,
                    alt: Seq::empty(),
                    indent: self.indent(),
                    quote: self.quote,
                },
            )
        } else {
            next
        }
    }

    /// Event `n` starts a tag; `shown` tells whether the image it starts leads to a file.
    pub open spec fn start(self, tag: TagView, n: int, shown: bool) -> ReaderView {
        match tag {
            MdTag::Paragraph => self.flush_text(PARAGRAPH_GAP),
            MdTag::Heading { level, id } => ReaderView {
                heading: Some(level_of(level)),
                name: id,
                ..self.flush(PARAGRAPH_GAP)
            },
            MdTag::BlockQuote(_) => ReaderView {
                quote: self.quote + 1,
                ..self.flush(PARAGRAPH_GAP)
            },
            MdTag::CodeBlock(_) => ReaderView {
                code: Some(Seq::empty()),
                ..self.flush(PARAGRAPH_GAP)
            },
            MdTag::List(first) => ReaderView {
                lists: self.lists.push(
                    match first {
                        Some(first) => Some(first as u128),
                        None => None,
                    },
                ),
                ..self.flush_text(ITEM_GAP)
            },
            MdTag::Item => (ReaderView {
                lists: lists_after_item(self.lists),
                ..self.flush_text(ITEM_GAP)
            }).open_with(marker_of(self.lists), true),
            MdTag::FootnoteDefinition(label) => (ReaderView {
                name: Some(footnote_id_of(label)),
                note: Some(label),
                ..self.flush(PARAGRAPH_GAP)
            }).open_with("["@ + label + "]: "@, false),
            MdTag::DefinitionListTitle => ReaderView {
                style: Inline { bold: true, ..self.style },
                ..self.flush(PARAGRAPH_GAP)
            },
            MdTag::DefinitionListDefinition => self.flush(ITEM_GAP),
            MdTag::Table(alignments) => ReaderView {
                table: Some((alignments, Seq::empty(), Seq::empty())),
                ..self.flush(PARAGRAPH_GAP)
            },
            MdTag::TableHead => ReaderView { paragraph: no_text(), ..self },
            MdTag::TableRow => ReaderView { paragraph: no_text(), ..self },
            MdTag::TableCell => ReaderView { paragraph: no_text(), ..self },
            MdTag::Emphasis => ReaderView {
                style: Inline { italic: true, ..self.style },
                ..self
            },
            MdTag::Strong => ReaderView { style: Inline { bold: true, ..self.style }, ..self },
            MdTag::Strikethrough => ReaderView {
                style: Inline { strikethrough: true, ..self.style },
                ..self
            },
            MdTag::Link { dest_url, .. } => ReaderView {
                links: self.links.push((dest_url, size(self.paragraph.text))),
                style: Inline { link: true, ..self.style },
                ..self
            },
            MdTag::Image { .. } => self.start_image(n, shown),
            _ => self,
        }
    }

    /// A tag ends.
    pub open spec fn end(self, tag: TagEnd) -> ReaderView {
        match tag {
            TagEnd::Paragraph => self.flush(PARAGRAPH_GAP),
            TagEnd::Heading(_) => ReaderView { heading: None, ..self.flush(PARAGRAPH_GAP) },
            TagEnd::BlockQuote(_) => (ReaderView {
                quote: if self.quote > 0 {
                    self.quote - 1
                } else {
                    0
                },
                ..self.flush(PARAGRAPH_GAP)
            }).widen_gap(PARAGRAPH_GAP),
            TagEnd::List(_) => {
                let next = ReaderView {
                    lists: crate::rewrite::without_last(self.lists),
                    ..self.flush(ITEM_GAP)
                };
                if next.lists.len() == 0 {
                    next.widen_gap(PARAGRAPH_GAP)
                } else {
                    next
                }
            },
            TagEnd::Item => self.flush(ITEM_GAP),
            TagEnd::FootnoteDefinition => self.end_note(),
            TagEnd::DefinitionListTitle => ReaderView {
                style: Inline { bold: false, ..self.style },
                ..self.flush(ITEM_GAP)
            },
            TagEnd::DefinitionListDefinition => self.flush(PARAGRAPH_GAP),
            TagEnd::TableCell => {
                let next = ReaderView { paragraph: no_text(), ..self };
                match self.table {
                    Some((alignments, rows, row)) => ReaderView {
                        table: Some((alignments, rows, row.push(self.paragraph))),
                        ..next
                    },
                    None => next,
                }
            },
            TagEnd::TableHead => self.end_row(),
            TagEnd::TableRow => self.end_row(),
            TagEnd::Table => match self.table {
                Some((alignments, rows, _)) => (ReaderView { table: None, ..self }).set(
                    BlockView::Table {
                        rows,
                        alignments,
                        indent: self.indent(),
                        quote: self.quote,
                    },
                ),
                None => self,
            },
            TagEnd::Emphasis => ReaderView {
                style: Inline { italic: false, ..self.style },
                ..self
            },
            TagEnd::Strong => ReaderView { style: Inline { bold: false, ..self.style }, ..self },
            TagEnd::Strikethrough => ReaderView {
                style: Inline { strikethrough: false, ..self.style },
                ..self
            },
            TagEnd::Link => self.end_link(),
            TagEnd::Image => ReaderView {
                images: crate::rewrite::without_last(self.images),
                ..self
            },
            _ => self,
        }
    }

    /// The row being read ends.
    pub open spec fn end_row(self) -> ReaderView {
        match self.table {
            Some((alignments, rows, row)) => ReaderView {
                table: Some((alignments, rows.push(row), Seq::empty())),
                ..self
            },
            None => self,
        }
    }

    /// The open footnote ends, with an arrow that links back to the first reference to it.
    pub open spec fn end_note(self) -> ReaderView {
        let next = ReaderView { note: None, ..self.flush(PARAGRAPH_GAP) };
        match self.note {
            Some(name) => next.set(
                BlockView::Text {
                    paragraph: arrow_back(name),
                    heading: None,
                    name: None,
                    indent: self.indent(),
                    marker: 0,
                    quote: self.quote,
                    gap: PARAGRAPH_GAP,
                },
            ),
            None => next,
        }
    }

    /// A reference to a footnote, which links to its note. The first reference to each is the
    /// one its note links back to.
    pub open spec fn refer(self, name: Seq<char>) -> ReaderView {
        let start = size(self.paragraph.text);
        let paragraph = self.paragraph.push(
            "["@ + name + "]"@,
            Inline { footnote: true, ..self.style },
        ).link(start, "#"@ + footnote_id_of(name));
        if self.referred.contains(name) {
            ReaderView { paragraph, ..self }
        } else {
            ReaderView {
                paragraph: ParagraphView {
                    marks: paragraph.marks.push((reference_id_of(name), start)),
                    ..paragraph
                },
                referred: self.referred.push(name),
                ..self
            }
        }
    }

    /// Math, at event `n`: in the line, or on a line of its own if it is displayed outside a
    /// table. Math that does not typeset, or in the place of an image, shows as its source.
    pub open spec fn math(self, latex: Seq<char>, n: int, display: bool, shown: bool) -> ReaderView {
        if !shown || self.images.len() > 0 {
            self.say(latex, Inline { code: true, ..self.style })
        } else if display && self.table is None {
            self.flush(PARAGRAPH_GAP).set(
                BlockView::Math { event: n, indent: self.indent(), quote: self.quote },
            )
        } else {
            ReaderView {
                paragraph: self.paragraph.push(
                    seq![crate::preview::ANCHOR],
                    Inline { math: Some(n as usize), ..self.style },
                ),
                ..self
            }
        }
    }

    /// The innermost link ends; it is kept if it leads to a web or mail address, or to a place
    /// in the document.
    pub open spec fn end_link(self) -> ReaderView {
        let links = crate::rewrite::without_last(self.links);
        let next = ReaderView {
            links,
            style: Inline { link: links.len() > 0, ..self.style },
            ..self
        };
        if self.links.len() > 0 && is_kept_link(self.links.last().0) {
            ReaderView {
                paragraph: self.paragraph.link(self.links.last().1, self.links.last().0),
                ..next
            }
        } else {
            next
        }
    }

    /// Event `n` comes in.
    pub open spec fn step(self, event: EventView, n: int, shown: bool) -> ReaderView {
        match self.code {
            Some(code) => self.in_code(code, event),
            None => match event {
                MdEvent::Start(tag) => self.start(tag, n, shown),
                MdEvent::End(tag) => self.end(tag),
                MdEvent::Text(text) => self.say(text, self.style),
                MdEvent::Code(text) => self.say(text, Inline { code: true, ..self.style }),
                MdEvent::Html(html) => self.say(html_text(html), self.style),
                MdEvent::InlineHtml(html) => self.say(html_text(html), self.style),
                MdEvent::SoftBreak => self.say(" "@, self.style),
                MdEvent::HardBreak => self.say("\n"@, self.style),
                MdEvent::InlineMath(latex) => self.math(latex, n, false, shown),
                MdEvent::DisplayMath(latex) => self.math(latex, n, true, shown),
                MdEvent::FootnoteReference(name) => self.refer(name),
                MdEvent::TaskListMarker(checked) => ReaderView {
                    paragraph: self.paragraph.push(
                        if checked {
                            "\u{25a0} "@
                        } else {
                            "\u{25a1} "@
                        },
                        Inline { bold: true, ..self.style },
                    ),
                    ..self
                },
                MdEvent::Rule => self.flush(PARAGRAPH_GAP).set(BlockView::Rule),
            },
        }
    }
}

/// A document of which nothing is read.
pub open spec fn reader_start() -> ReaderView {
    ReaderView {
        blocks: Seq::empty(),
        paragraph: no_text(),
        prefix: 0,
        hanging: false,
        heading: None,
        name: None,
        note: None,
        referred: Seq::empty(),
        style: plain(),
        lists: Seq::empty(),
        quote: 0,
        links: Seq::empty(),
        images: Seq::empty(),
        code: None,
        code_blocks: 0,
        table: None,
    }
}

/// Whether the image that event `n` starts leads to a file.
pub open spec fn shown_at(shown: Seq<bool>, n: int) -> bool {
    0 <= n < shown.len() && shown[n]
}

/// A document of which the first `n` events are read.
pub open spec fn read_of(events: Seq<EventView>, shown: Seq<bool>, n: int) -> ReaderView
    decreases n,
{
    if n <= 0 {
        reader_start()
    } else {
        read_of(events, shown, n - 1).step(events[n - 1], n - 1, shown_at(shown, n - 1))
    }
}

/// The blocks of a document, in the order they are set.
pub open spec fn blocks_of(events: Seq<EventView>, shown: Seq<bool>) -> Seq<BlockView> {
    read_of(events, shown, events.len() as int).flush(PARAGRAPH_GAP).blocks
}

/// A document being read for the PDF, the way the preview reads it.
pub struct Reader {
    blocks: Vec<Block>,
    paragraph: Paragraph,
    prefix: usize,
    hanging: bool,
    heading: Option<usize>,
    name: Option<String>,
    note: Option<String>,
    referred: Vec<String>,
    style: Inline,
    lists: Vec<Option<u128>>,
    quote: usize,
    links: Vec<(String, usize)>,
    images: Vec<bool>,
    code: Option<String>,
    code_blocks: usize,
    table: Option<(Vec<Alignment>, Vec<Vec<Paragraph>>, Vec<Paragraph>)>,
}

impl View for Reader {
    type V = ReaderView;

    closed spec fn view(&self) -> ReaderView {
        ReaderView {
            blocks: block_views(self.blocks@),
            paragraph: self.paragraph@,
            prefix: self.prefix as int,
            hanging: self.hanging,
            heading: self.heading,
            name: crate::event::opt_view(self.name),
            note: crate::event::opt_view(self.note),
            referred: texts(self.referred@),
            style: self.style,
            lists: self.lists@,
            quote: self.quote as int,
            links: crate::preview::start_views(self.links@),
            images: self.images@,
            code: crate::event::opt_view(self.code),
            code_blocks: self.code_blocks as int,
            table: match self.table {
                Some((alignments, rows, row)) => Some(
                    (alignments@, rows_view(rows@), row_view(row@)),
                ),
                None => None,
            },
        }
    }
}

impl Reader {
    /// Whether the reader's counters are those of at most `n` events.
    pub closed spec fn fits(self, n: nat) -> bool {
        &&& self.quote <= n
        &&& self.code_blocks <= n
        &&& forall|i: int|
            0 <= i < self.lists@.len() && #[trigger] self.lists@[i] is Some ==> self.lists@[i]->0
                <= u64::MAX + n
    }

    /// A document of which nothing is read.
    pub fn new() -> (reader: Self)
        ensures
            reader@ == reader_start(),
            reader.fits(0),
    {
        let reader = Reader {
            blocks: Vec::new(),
            paragraph: Paragraph::new(),
            prefix: 0,
            hanging: false,
            heading: None,
            name: None,
            note: None,
            referred: Vec::new(),
            style: Inline::default(),
            lists: Vec::new(),
            quote: 0,
            links: Vec::new(),
            images: Vec::new(),
            code: None,
            code_blocks: 0,
            table: None,
        };
        proof {
            assert(reader@ =~= reader_start());
        }
        reader
    }

    /// How far text is indented, in points.
    fn indent(&self) -> (indent: i128)
        ensures
            indent == self@.indent(),
            0 <= indent <= 0x1f_ffff_ffff_ffff_ffff,
    {
        (self.lists.len() as i128) * LIST_INDENT + (self.quote as i128) * QUOTE_INDENT
    }

    /// Whether the paragraph has more than its prefix.
    fn has_text(&self) -> (has: bool)
        ensures
            has == self@.has_text(),
    {
        let chars = chars_of(self.paragraph.text.as_str());
        if self.prefix > chars.len() {
            let none: Vec<char> = Vec::new();
            let rest = trimmed(&none);
            proof {
                assert(none@ =~= Seq::<char>::empty());
            }
            return rest.len() > 0;
        }
        let rest = chars_of(text_of(&chars, self.prefix, chars.len()).as_str());
        proof {
            assert(rest@ =~= self@.paragraph.text.skip(self.prefix as int));
        }
        trimmed(&rest).len() > 0
    }

    /// How many bytes the prefix takes.
    fn prefix_len(&self) -> (bytes: usize)
        ensures
            bytes == size(
                if 0 <= self@.prefix <= self@.paragraph.text.len() {
                    self@.paragraph.text.take(self@.prefix)
                } else {
                    self@.paragraph.text
                },
            ),
    {
        let chars = chars_of(self.paragraph.text.as_str());
        if self.prefix <= chars.len() {
            let opening = text_of(&chars, 0, self.prefix);
            proof {
                assert(opening@ =~= self@.paragraph.text.take(self.prefix as int));
            }
            byte_len(opening.as_str())
        } else {
            byte_len(self.paragraph.text.as_str())
        }
    }

    /// Set a block.
    fn set(&mut self, block: Block)
        ensures
            final(self)@ == old(self)@.set(block@),
            forall|n: nat| old(self).fits(n) ==> final(self).fits(n),
    {
        let ghost before = self.blocks@;
        self.blocks.push(block);
        proof {
            assert(block_views(before.push(block)) =~= block_views(before).push(block@));
            assert(self@ =~= old(self)@.set(block@));
        }
    }

    /// Set the paragraph read so far, if it has more than its prefix, followed by `gap`.
    fn flush(&mut self, gap: u32)
        ensures
            final(self)@ == old(self)@.flush(gap),
            forall|n: nat| old(self).fits(n) ==> final(self).fits(n),
    {
        let has = self.has_text();
        let marker = if self.hanging {
            self.prefix_len()
        } else {
            0
        };
        let indent = self.indent();
        let mut paragraph = Paragraph::new();
        std::mem::swap(&mut paragraph, &mut self.paragraph);
        self.prefix = 0;
        self.hanging = false;
        if has {
            // An item's marker sits one step out from the text of the list.
            let indent = if marker > 0 {
                indent - LIST_INDENT
            } else {
                indent
            };
            let heading = self.heading;
            let name = self.name.take();
            let quote = self.quote;
            self.set(Block::Text { paragraph, heading, name, indent, marker, quote, gap });
        }
        self.name = None;
        proof {
            assert(self@ =~= old(self)@.flush(gap));
        }
    }

    /// Set the text read so far, if there is any.
    fn flush_text(&mut self, gap: u32)
        ensures
            final(self)@ == old(self)@.flush_text(gap),
            forall|n: nat| old(self).fits(n) ==> final(self).fits(n),
    {
        if self.has_text() {
            self.flush(gap);
        }
    }

    /// Leave at least `gap` after the last block.
    fn widen_gap(&mut self, gap: u32)
        ensures
            final(self)@ == old(self)@.widen_gap(gap),
            forall|n: nat| old(self).fits(n) ==> final(self).fits(n),
    {
        let ghost before = self.blocks@;
        match self.blocks.pop() {
            Some(block) => {
                proof {
                    assert(block_views(before).drop_last() =~= block_views(before.drop_last()));
                    assert(block_views(before).last() == block@);
                }
                let ghost popped = block;
                match block {
                    Block::Text { paragraph, heading, name, indent, marker, quote, gap: last } => {
                        let gap = if last >= gap {
                            last
                        } else {
                            gap
                        };
                        self.set(
                            Block::Text { paragraph, heading, name, indent, marker, quote, gap },
                        );
                        proof {
                            assert(self@ =~= old(self)@.widen_gap(gap));
                        }
                    },
                    other => {
                        self.set(other);
                        proof {
                            assert(block_views(before) =~= block_views(before.drop_last()).push(
                                popped@,
                            ));
                            assert(self@ =~= old(self)@);
                        }
                    },
                }
            },
            None => {
                proof {
                    assert(self@ =~= old(self)@);
                }
            },
        }
    }

    /// Add text in the style `style`.
    fn say(&mut self, text: &str, style: Inline)
        ensures
            final(self)@ == old(self)@.say(text@, style),
            forall|n: nat| old(self).fits(n) ==> final(self).fits(n),
    {
        let ghost before = self.blocks@;
        let open = self.images.len();
        if open == 0 {
            self.paragraph.push(text, style);
        } else if !self.images[open - 1] {
            self.paragraph.push(text, Inline { italic: true, ..style });
        } else {
            match self.blocks.pop() {
                Some(block) => {
                    proof {
                        assert(block_views(before).drop_last() =~= block_views(
                            before.drop_last(),
                        ));
                        assert(block_views(before).last() == block@);
                    }
                    let ghost popped = block;
                    match block {
                        Block::Image { event, alt, indent, quote } => {
                            let mut alt = alt;
                            alt.append(text);
                            self.set(Block::Image { event, alt, indent, quote });
                        },
                        other => {
                            self.set(other);
                            proof {
                                assert(block_views(before) =~= block_views(
                                    before.drop_last(),
                                ).push(popped@));
                            }
                        },
                    }
                },
                None => {},
            }
        }
        proof {
            assert(self@ =~= old(self)@.say(text@, style));
        }
    }

    /// Take an event inside a code block.
    fn in_code(&mut self, event: &DocEvent, Ghost(n): Ghost<nat>)
        requires
            old(self)@.code is Some,
            old(self).fits(n),
            n < usize::MAX,
        ensures
            final(self)@ == old(self)@.in_code(old(self)@.code->0, event@),
            final(self).fits(n + 1),
    {
        match event {
            MdEvent::Text(text) => {
                if let Some(mut code) = self.code.take() {
                    code.append(text.as_str());
                    self.code = Some(code);
                }
                proof {
                    assert(self@ =~= old(self)@.in_code(old(self)@.code->0, event@));
                }
            },
            MdEvent::End(TagEnd::CodeBlock) => {
                if let Some(code) = self.code.take() {
                    let mut chars = chars_of(code.as_str());
                    cut_end(&mut chars, '\n');
                    let code = text_of(&chars, 0, chars.len());
                    proof {
                        assert(code@ =~= chars@);
                    }
                    let number = self.code_blocks;
                    let indent = self.indent();
                    let quote = self.quote;
                    self.set(Block::Code { code, number, indent, quote });
                    self.code_blocks = self.code_blocks + 1;
                }
                proof {
                    assert(self@ =~= old(self)@.in_code(old(self)@.code->0, event@));
                }
            },
            _ => {},
        }
    }

    /// Open the paragraph with a prefix.
    fn open_with(&mut self, text: &str, hanging: bool)
        ensures
            final(self)@ == old(self)@.open_with(text@, hanging),
            forall|n: nat| old(self).fits(n) ==> final(self).fits(n),
    {
        let plain_style = Inline::default();
        self.paragraph.push(text, Inline { bold: true, ..plain_style });
        self.prefix = self.paragraph.text.as_str().unicode_len();
        if hanging {
            self.hanging = true;
        }
        proof {
            assert(self@ =~= old(self)@.open_with(text@, hanging));
        }
    }

    /// Start an item of a list.
    fn start_item(&mut self, Ghost(n): Ghost<nat>)
        requires
            old(self).fits(n),
            n < usize::MAX,
        ensures
            final(self)@ == (ReaderView {
                lists: lists_after_item(old(self)@.lists),
                ..old(self)@.flush_text(ITEM_GAP)
            }).open_with(marker_of(old(self)@.lists), true),
            final(self).fits(n + 1),
    {
        self.flush_text(ITEM_GAP);
        assert(self.fits(n));
        let ghost before = self@;
        let marker = list_marker(&mut self.lists);
        proof {
            assert(self.fits(n + 1));
            assert(self@ =~= (ReaderView { lists: lists_after_item(before.lists), ..before }));
        }
        self.open_with(marker.as_str(), true);
    }

    /// Start a footnote.
    fn start_note(&mut self, label: &String)
        ensures
            final(self)@ == (ReaderView {
                name: Some(footnote_id_of(label@)),
                note: Some(label@),
                ..old(self)@.flush(PARAGRAPH_GAP)
            }).open_with("["@ + label@ + "]: "@, false),
            forall|n: nat| old(self).fits(n) ==> final(self).fits(n),
    {
        self.flush(PARAGRAPH_GAP);
        let ghost before = self@;
        let mut name = String::from_str("fn:");
        name.append(label.as_str());
        self.name = Some(name);
        self.note = Some(label.clone());
        proof {
            assert(self@ =~= (ReaderView {
                name: Some(footnote_id_of(label@)),
                note: Some(label@),
                ..before
            }));
        }
        let mut text = String::from_str("[");
        text.append(label.as_str());
        text.append("]: ");
        self.open_with(text.as_str(), false);
    }

    /// End the open footnote.
    fn end_note(&mut self)
        ensures
            final(self)@ == old(self)@.end_note(),
            forall|n: nat| old(self).fits(n) ==> final(self).fits(n),
    {
        let indent = self.indent();
        let quote = self.quote;
        self.flush(PARAGRAPH_GAP);
        let ghost before = self@;
        let note = self.note.take();
        proof {
            assert(self@ =~= (ReaderView { note: None, ..before }));
        }
        if let Some(name) = note {
            let plain_style = Inline::default();
            let mut paragraph = Paragraph::new();
            paragraph.push("\u{21a9}", Inline { link: true, ..plain_style });
            let mut url = String::from_str("#");
            url.append("fnref:");
            url.append(name.as_str());
            proof {
                assert(url@ =~= "#"@ + reference_id_of(name@));
            }
            paragraph.link(0, url);
            self.set(
                Block::Text {
                    paragraph,
                    heading: None,
                    name: None,
                    indent,
                    marker: 0,
                    quote,
                    gap: PARAGRAPH_GAP,
                },
            );
        }
    }

    /// Refer to a footnote.
    fn refer(&mut self, name: &String)
        ensures
            final(self)@ == old(self)@.refer(name@),
            forall|n: nat| old(self).fits(n) ==> final(self).fits(n),
    {
        let start = byte_len(self.paragraph.text.as_str());
        let mut text = String::from_str("[");
        text.append(name.as_str());
        text.append("]");
        let style = self.style;
        self.paragraph.push(text.as_str(), Inline { footnote: true, ..style });
        let mut url = String::from_str("#");
        url.append("fn:");
        url.append(name.as_str());
        proof {
            assert(url@ =~= "#"@ + footnote_id_of(name@));
        }
        self.paragraph.link(start, url);
        let known = is_listed(&self.referred, name.as_str());
        if !known {
            let mut id = String::from_str("fnref:");
            id.append(name.as_str());
            self.paragraph.mark(id, start);
            let ghost before = self.referred@;
            let copy = name.clone();
            proof {
                assert(texts(before.push(copy)) =~= texts(before).push(copy@));
            }
            self.referred.push(copy);
        }
        proof {
            assert(self@ =~= old(self)@.refer(name@));
        }
    }

    /// Math, at event `n`.
    fn math(&mut self, latex: &str, n: usize, display: bool, shown: bool)
        ensures
            final(self)@ == old(self)@.math(latex@, n as int, display, shown),
            forall|n: nat| old(self).fits(n) ==> final(self).fits(n),
    {
        let style = self.style;
        if !shown || self.images.len() > 0 {
            self.say(latex, Inline { code: true, ..style });
        } else if display && self.table.is_none() {
            let indent = self.indent();
            let quote = self.quote;
            self.flush(PARAGRAPH_GAP);
            self.set(Block::Math { event: n, indent, quote });
        } else {
            self.paragraph.push("\u{fffc}", Inline { math: Some(n), ..style });
            proof {
                reveal_strlit("\u{fffc}");
                assert("\u{fffc}"@ =~= seq![crate::preview::ANCHOR]);
                assert(self@ =~= old(self)@.math(latex@, n as int, display, shown));
            }
        }
    }

    /// Start a link.
    fn start_link(&mut self, url: &String)
        ensures
            final(self)@ == (ReaderView {
                links: old(self)@.links.push((url@, size(old(self)@.paragraph.text))),
                style: Inline { link: true, ..old(self)@.style },
                ..old(self)@
            }),
            forall|n: nat| old(self).fits(n) ==> final(self).fits(n),
    {
        let ghost before = self.links@;
        let link = (url.clone(), byte_len(self.paragraph.text.as_str()));
        proof {
            assert(crate::preview::start_views(before.push(link)) =~= crate::preview::start_views(
                before,
            ).push((link.0@, link.1 as int)));
        }
        self.links.push(link);
        self.style.link = true;
    }

    /// Start the image of event `n`, which leads to a file if it is `shown`.
    fn start_image(&mut self, n: usize, shown: bool)
        ensures
            final(self)@ == old(self)@.start_image(n as int, shown),
            forall|n: nat| old(self).fits(n) ==> final(self).fits(n),
    {
        let indent = self.indent();
        let quote = self.quote;
        self.images.push(shown);
        proof {
            assert(self@ =~= (ReaderView { images: old(self)@.images.push(shown), ..old(self)@ }));
        }
        if shown {
            self.flush(PARAGRAPH_GAP);
            self.set(Block::Image { event: n, alt: String::new(), indent, quote });
        }
    }

    /// Start a heading.
    fn start_heading(&mut self, level: HeadingLevel, id: &Option<String>)
        ensures
            final(self)@ == (ReaderView {
                heading: Some(level_of(level)),
                name: crate::event::opt_view(*id),
                ..old(self)@.flush(PARAGRAPH_GAP)
            }),
            forall|n: nat| old(self).fits(n) ==> final(self).fits(n),
    {
        self.flush(PARAGRAPH_GAP);
        self.name = crate::event::copy_opt(id);
        self.heading = Some(
            match level {
                HeadingLevel::H1 => 1,
                HeadingLevel::H2 => 2,
                HeadingLevel::H3 => 3,
                HeadingLevel::H4 => 4,
                HeadingLevel::H5 => 5,
                HeadingLevel::H6 => 6,
            },
        );
    }

    /// Start a table.
    fn start_table(&mut self, alignments: &Vec<Alignment>)
        ensures
            final(self)@ == (ReaderView {
                table: Some((alignments@, Seq::empty(), Seq::empty())),
                ..old(self)@.flush(PARAGRAPH_GAP)
            }),
            forall|n: nat| old(self).fits(n) ==> final(self).fits(n),
    {
        self.flush(PARAGRAPH_GAP);
        let rows: Vec<Vec<Paragraph>> = Vec::new();
        let row: Vec<Paragraph> = Vec::new();
        proof {
            assert(rows_view(rows@) =~= Seq::<Seq<ParagraphView>>::empty());
            assert(row_view(row@) =~= Seq::<ParagraphView>::empty());
        }
        self.table = Some((copy_alignments(alignments), rows, row));
    }

    /// Start the tag of event `n`; `shown` tells whether the image it starts leads to a file.
    #[verifier::rlimit(60)]
    #[verifier::spinoff_prover]
    fn start(&mut self, tag: &DocTag, n: usize, shown: bool)
        requires
            old(self).fits(n as nat),
            n < usize::MAX,
        ensures
            final(self)@ == old(self)@.start(tag@, n as int, shown),
            final(self).fits((n + 1) as nat),
    {
        match tag {
            MdTag::Paragraph => self.flush_text(PARAGRAPH_GAP),
            MdTag::Heading { level, id } => self.start_heading(*level, id),
            MdTag::BlockQuote(_) => {
                self.flush(PARAGRAPH_GAP);
                assert(self.fits(n as nat));
                self.quote = self.quote + 1;
            },
            MdTag::CodeBlock(_) => {
                self.flush(PARAGRAPH_GAP);
                self.code = Some(String::new());
            },
            MdTag::List(first) => {
                self.flush_text(ITEM_GAP);
                let first: Option<u128> = match first {
                    Some(first) => Some(*first as u128),
                    None => None,
                };
                self.lists.push(first);
            },
            MdTag::Item => self.start_item(Ghost(n as nat)),
            MdTag::FootnoteDefinition(label) => self.start_note(label),
            MdTag::DefinitionListTitle => {
                self.flush(PARAGRAPH_GAP);
                self.style.bold = true;
            },
            MdTag::DefinitionListDefinition => self.flush(ITEM_GAP),
            MdTag::Table(alignments) => self.start_table(alignments),
            MdTag::TableHead => {
                self.paragraph = Paragraph::new();
            },
            MdTag::TableRow => {
                self.paragraph = Paragraph::new();
            },
            MdTag::TableCell => {
                self.paragraph = Paragraph::new();
            },
            MdTag::Emphasis => {
                self.style.italic = true;
            },
            MdTag::Strong => {
                self.style.bold = true;
            },
            MdTag::Strikethrough => {
                self.style.strikethrough = true;
            },
            MdTag::Link { dest_url, .. } => self.start_link(dest_url),
            MdTag::Image { .. } => self.start_image(n, shown),
            _ => {},
        }
        proof {
            assert(self@ =~= old(self)@.start(tag@, n as int, shown));
        }
    }

    /// End the row of a table being read.
    fn end_row(&mut self)
        ensures
            final(self)@ == old(self)@.end_row(),
            forall|n: nat| old(self).fits(n) ==> final(self).fits(n),
    {
        if let Some((alignments, mut rows, row)) = self.table.take() {
            let ghost before = rows@;
            proof {
                assert(rows_view(before.push(row)) =~= rows_view(before).push(row_view(row@)));
            }
            rows.push(row);
            let next: Vec<Paragraph> = Vec::new();
            proof {
                assert(row_view(next@) =~= Seq::<ParagraphView>::empty());
            }
            self.table = Some((alignments, rows, next));
        }
        proof {
            assert(self@ =~= old(self)@.end_row());
        }
    }

    /// End the innermost link.
    fn end_link(&mut self)
        ensures
            final(self)@ == old(self)@.end_link(),
            forall|n: nat| old(self).fits(n) ==> final(self).fits(n),
    {
        let ghost before = self.links@;
        if let Some((url, start)) = self.links.pop() {
            proof {
                assert(crate::preview::start_views(before).drop_last() =~=
                    crate::preview::start_views(before.drop_last()));
                assert(crate::preview::start_views(before).last() == (url@, start as int));
            }
            if is_safe_link(url.as_str()) || begins(url.as_str(), "#") {
                self.paragraph.link(start, url);
            }
        }
        self.style.link = self.links.len() > 0;
        proof {
            assert(self@ =~= old(self)@.end_link());
        }
    }

    /// End a quote.
    fn end_quote(&mut self, tag: TagEnd)
        requires
            tag is BlockQuote,
        ensures
            final(self)@ == old(self)@.end(tag),
            forall|n: nat| old(self).fits(n) ==> final(self).fits(n),
    {
        self.flush(PARAGRAPH_GAP);
        let ghost before = self@;
        if self.quote > 0 {
            self.quote = self.quote - 1;
        }
        proof {
            assert(self@ =~= (ReaderView {
                quote: if before.quote > 0 {
                    before.quote - 1
                } else {
                    0
                },
                ..before
            }));
        }
        self.widen_gap(PARAGRAPH_GAP);
    }

    /// End a list.
    fn end_list(&mut self, tag: TagEnd)
        requires
            tag is List,
        ensures
            final(self)@ == old(self)@.end(tag),
            forall|n: nat| old(self).fits(n) ==> final(self).fits(n),
    {
        self.flush(ITEM_GAP);
        let ghost before = self@;
        let _ = self.lists.pop();
        proof {
            assert(self@ =~= (ReaderView {
                lists: crate::rewrite::without_last(before.lists),
                ..before
            }));
        }
        if self.lists.len() == 0 {
            self.widen_gap(PARAGRAPH_GAP);
        }
    }

    /// End a cell of a table.
    fn end_cell(&mut self)
        ensures
            final(self)@ == old(self)@.end(TagEnd::TableCell),
            forall|n: nat| old(self).fits(n) ==> final(self).fits(n),
    {
        let mut cell = Paragraph::new();
        std::mem::swap(&mut cell, &mut self.paragraph);
        if let Some((alignments, rows, mut row)) = self.table.take() {
            let ghost before = row@;
            proof {
                assert(row_view(before.push(cell)) =~= row_view(before).push(cell@));
            }
            row.push(cell);
            self.table = Some((alignments, rows, row));
        }
        proof {
            assert(self@ =~= old(self)@.end(TagEnd::TableCell));
        }
    }

    /// End a table.
    fn end_table(&mut self)
        ensures
            final(self)@ == old(self)@.end(TagEnd::Table),
            forall|n: nat| old(self).fits(n) ==> final(self).fits(n),
    {
        if let Some((alignments, rows, _)) = self.table.take() {
            let indent = self.indent();
            let quote = self.quote;
            self.set(Block::Table { rows, alignments, indent, quote });
        }
        proof {
            assert(self@ =~= old(self)@.end(TagEnd::Table));
        }
    }

    /// End a tag.
    #[verifier::rlimit(60)]
    #[verifier::spinoff_prover]
    fn end(&mut self, tag: TagEnd)
        ensures
            final(self)@ == old(self)@.end(tag),
            forall|n: nat| old(self).fits(n) ==> final(self).fits(n),
    {
        match tag {
            TagEnd::Paragraph => self.flush(PARAGRAPH_GAP),
            TagEnd::Heading(_) => {
                self.flush(PARAGRAPH_GAP);
                self.heading = None;
            },
            TagEnd::BlockQuote(_) => self.end_quote(tag),
            TagEnd::List(_) => self.end_list(tag),
            TagEnd::Item => self.flush(ITEM_GAP),
            TagEnd::FootnoteDefinition => self.end_note(),
            TagEnd::DefinitionListTitle => {
                self.flush(ITEM_GAP);
                self.style.bold = false;
            },
            TagEnd::DefinitionListDefinition => self.flush(PARAGRAPH_GAP),
            TagEnd::TableCell => self.end_cell(),
            TagEnd::TableHead => self.end_row(),
            TagEnd::TableRow => self.end_row(),
            TagEnd::Table => self.end_table(),
            TagEnd::Emphasis => {
                self.style.italic = false;
            },
            TagEnd::Strong => {
                self.style.bold = false;
            },
            TagEnd::Strikethrough => {
                self.style.strikethrough = false;
            },
            TagEnd::Link => self.end_link(),
            TagEnd::Image => {
                let _ = self.images.pop();
            },
            _ => {},
        }
        proof {
            assert(self@ =~= old(self)@.end(tag));
        }
    }

    /// Take event `n`; `shown` tells whether the image it starts leads to a file.
    pub fn event(&mut self, event: &DocEvent, n: usize, shown: bool)
        requires
            old(self).fits(n as nat),
            n < usize::MAX,
        ensures
            final(self)@ == old(self)@.step(event@, n as int, shown),
            final(self).fits((n + 1) as nat),
    {
        if self.code.is_some() {
            self.in_code(event, Ghost(n as nat));
            return;
        }
        proof {
            assert(self.fits((n + 1) as nat));
        }
        let style = self.style;
        match event {
            MdEvent::Start(tag) => self.start(tag, n, shown),
            MdEvent::End(tag) => self.end(*tag),
            MdEvent::Text(text) => self.say(text.as_str(), style),
            MdEvent::Code(text) => self.say(text.as_str(), Inline { code: true, ..style }),
            MdEvent::Html(html) => {
                let text = strip_html(html.as_str());
                self.say(text.as_str(), style);
            },
            MdEvent::InlineHtml(html) => {
                let text = strip_html(html.as_str());
                self.say(text.as_str(), style);
            },
            MdEvent::SoftBreak => self.say(" ", style),
            MdEvent::HardBreak => self.say("\n", style),
            MdEvent::InlineMath(latex) => self.math(latex.as_str(), n, false, shown),
            MdEvent::DisplayMath(latex) => self.math(latex.as_str(), n, true, shown),
            MdEvent::FootnoteReference(name) => self.refer(name),
            MdEvent::TaskListMarker(checked) => {
                let mark = if *checked {
                    "\u{25a0} "
                } else {
                    "\u{25a1} "
                };
                self.paragraph.push(mark, Inline { bold: true, ..style });
            },
            MdEvent::Rule => {
                self.flush(PARAGRAPH_GAP);
                self.set(Block::Rule);
            },
        }
        proof {
            assert(self@ =~= old(self)@.step(event@, n as int, shown));
        }
    }

    /// The blocks of a document with these events, in the order they are set. `shown` tells of
    /// each event whether the image it starts leads to a file of the document's folder, or its
    /// formula typesets.
    pub fn read(events: &Vec<DocEvent>, shown: &Vec<bool>) -> (blocks: Vec<Block>)
        ensures
            block_views(blocks@) == blocks_of(crate::event::views(events@), shown@),
    {
        let mut reader = Reader::new();
        for i in 0..events.len()
            invariant
                reader@ == read_of(crate::event::views(events@), shown@, i as int),
                reader.fits(i as nat),
        {
            let found = i < shown.len() && shown[i];
            reader.event(&events[i], i, found);
        }
        reader.flush(PARAGRAPH_GAP);
        reader.blocks
    }
}

/// A document as the PDF reads it: with the shortcodes of the emoji that no font has in their
/// place.
pub open spec fn document_in_fonts(text: Seq<char>, missing: Seq<(Seq<char>, Seq<char>)>) -> Seq<
    EventView,
> {
    let events = crate::page::document(text);
    all_spelled(events, missing, events.len() as int).0
}

/// The blocks of a document as the PDF sets them. `shown` tells of each of its events whether
/// the image it starts leads to a file of the document's folder, or its formula typesets, and
/// `missing` are the emoji that no font has, each with its shortcode.
pub fn read_blocks(text: &str, shown: &Vec<bool>, missing: &Vec<(String, String)>) -> (blocks: Vec<
    Block,
>)
    ensures
        block_views(blocks@) == blocks_of(document_in_fonts(text@, pairs(missing@)), shown@),
{
    let events = crate::page::document_events(text);
    proof {
        assert(crate::event::views(events@).len() == events@.len());
    }
    Reader::read(&spell_out(&events, missing), shown)
}

/// Whether `name` is one of `names`.
fn is_listed(names: &Vec<String>, name: &str) -> (listed: bool)
    ensures
        listed == texts(names@).contains(name@),
{
    for i in 0..names.len()
        invariant
            forall|k: int| 0 <= k < i ==> texts(names@)[k] != name@,
    {
        if same(names[i].as_str(), name) {
            assert(texts(names@)[i as int] == name@);
            return true;
        }
    }
    false
}

}
