//! What the preview shows of a document: text with tags, and the widgets between it.

use crate::cell::{
    close_part, closed, copy_cell_part, ended_by, ends_of, find_open, mark_of_style, push_copies,
    push_ends, set_apart, style_mark,
};
use crate::event::{copy_alignments, DocEvent, EventView, MdEvent, MdTag};
use crate::html::{
    holds_markup, html_parts, is_markup, part_views, parts_of, HtmlAlign, HtmlBlock, HtmlPart, HtmlStyle, PartView,
};
use crate::links::{link_target, target_of, LinkTarget};
use crate::rewrite::{footnote_id_of, reference_id_of};
use crate::text::{
    begins, chars_of, cut_end, drop_end, push_decimal, starts_with, text_of,
};
use pulldown_cmark::{Alignment, BlockQuoteKind, HeadingLevel, TagEnd};
use vstd::prelude::*;
use vstd::string::*;

verus! {

/// How far each level of list nesting indents its items.
pub const LIST_INDENT: i32 = 20;

/// How far each level of blockquote nesting indents its text.
pub const QUOTE_INDENT: i32 = 24;

/// Horizontal margin of the preview text view. Tag margins are absolute (a `left-margin` on a
/// tag replaces the view's own margin rather than adding to it), so indenting tags have to
/// start from this value.
pub const TEXT_MARGIN: i32 = 32;

/// Characters after which the text of a table cell wraps.
pub const CELL_WRAP_CHARS: usize = 40;

/// The character a widget takes in the text of the preview.
pub const ANCHOR: char = '\u{fffc}';

/// How a stretch of the preview's text is shown.
#[derive(Debug, Clone, Copy, PartialEq, Eq, Structural)]
pub enum TextTag {
    /// A heading of the first, second or third level, or of a lower one.
    Heading(u8),
    Bold,
    Italic,
    Strikethrough,
    Link,
    Code,
    Footnote,
    ImageAlt,
    Underline,
    Keyboard,
    Superscript,
    Subscript,
    Mark,
    /// The title of an alert.
    Alert(Alert),
    /// The summary of a `<details>` element, which a click opens and closes.
    Summary,
    /// Aligned as raw HTML says.
    Align(HtmlAlign),
    /// A quote so many levels deep.
    Quote(usize),
    /// An item of a list in so many lists.
    List(usize),
}

/// A kind of alert.
#[derive(Debug, Clone, Copy, PartialEq, Eq, Structural)]
pub enum Alert {
    Note,
    Tip,
    Important,
    Warning,
    Caution,
}

impl Alert {
    /// The kind of alert that the parser found.
    pub open spec fn of(kind: BlockQuoteKind) -> Alert {
        match kind {
            BlockQuoteKind::Note => Alert::Note,
            BlockQuoteKind::Tip => Alert::Tip,
            BlockQuoteKind::Important => Alert::Important,
            BlockQuoteKind::Warning => Alert::Warning,
            BlockQuoteKind::Caution => Alert::Caution,
        }
    }

    /// The kind of alert that the parser found.
    fn from_kind(kind: BlockQuoteKind) -> (alert: Self)
        ensures
            alert == Alert::of(kind),
    {
        match kind {
            BlockQuoteKind::Note => Alert::Note,
            BlockQuoteKind::Tip => Alert::Tip,
            BlockQuoteKind::Important => Alert::Important,
            BlockQuoteKind::Warning => Alert::Warning,
            BlockQuoteKind::Caution => Alert::Caution,
        }
    }

    /// The colour of the title of an alert in the light appearance, and in the dark one.
    pub open spec fn colors(self) -> (Seq<char>, Seq<char>) {
        match self {
            Alert::Note => ("#0461be"@, "#81d0ff"@),
            Alert::Tip => ("#15772e"@, "#8de698"@),
            Alert::Important => ("#8939a4"@, "#fba7ff"@),
            Alert::Warning => ("#905300"@, "#ffc057"@),
            Alert::Caution => ("#c00023"@, "#ff888c"@),
        }
    }

    /// The colour of the title of an alert.
    pub fn color(self, dark: bool) -> (color: &'static str)
        ensures
            color@ == (if dark {
                self.colors().1
            } else {
                self.colors().0
            }),
    {
        match (self, dark) {
            (Alert::Note, false) => "#0461be",
            (Alert::Note, true) => "#81d0ff",
            (Alert::Tip, false) => "#15772e",
            (Alert::Tip, true) => "#8de698",
            (Alert::Important, false) => "#8939a4",
            (Alert::Important, true) => "#fba7ff",
            (Alert::Warning, false) => "#905300",
            (Alert::Warning, true) => "#ffc057",
            (Alert::Caution, false) => "#c00023",
            (Alert::Caution, true) => "#ff888c",
        }
    }

    /// The name of an alert among the tags of the preview.
    pub open spec fn name_of(self) -> Seq<char> {
        match self {
            Alert::Note => "alert-note"@,
            Alert::Tip => "alert-tip"@,
            Alert::Important => "alert-important"@,
            Alert::Warning => "alert-warning"@,
            Alert::Caution => "alert-caution"@,
        }
    }

    /// The name of an alert among the tags of the preview.
    fn name(self) -> (name: &'static str)
        ensures
            name@ == self.name_of(),
    {
        match self {
            Alert::Note => "alert-note",
            Alert::Tip => "alert-tip",
            Alert::Important => "alert-important",
            Alert::Warning => "alert-warning",
            Alert::Caution => "alert-caution",
        }
    }
}

impl TextTag {
    /// The name of the tag in the preview.
    pub open spec fn name_of(self) -> Seq<char> {
        match self {
            TextTag::Heading(level) => "h"@ + crate::text::decimal(level as nat),
            TextTag::Bold => "bold"@,
            TextTag::Italic => "italic"@,
            TextTag::Strikethrough => "strikethrough"@,
            TextTag::Link => "link"@,
            TextTag::Code => "code"@,
            TextTag::Footnote => "footnote"@,
            TextTag::ImageAlt => "image-alt"@,
            TextTag::Underline => "underline"@,
            TextTag::Keyboard => "keyboard"@,
            TextTag::Superscript => "superscript"@,
            TextTag::Subscript => "subscript"@,
            TextTag::Mark => "mark"@,
            TextTag::Alert(alert) => alert.name_of(),
            TextTag::Summary => "summary"@,
            TextTag::Align(HtmlAlign::Center) => "align-center"@,
            TextTag::Align(HtmlAlign::Right) => "align-right"@,
            TextTag::Quote(depth) => "blockquote-"@ + crate::text::decimal(depth as nat),
            TextTag::List(depth) => "list-"@ + crate::text::decimal(depth as nat),
        }
    }

    /// The name of the tag in the preview.
    pub fn name(self) -> (name: String)
        ensures
            name@ == self.name_of(),
    {
        match self {
            TextTag::Heading(level) => {
                let mut name = String::from_str("h");
                push_decimal(&mut name, level as u128);
                name
            },
            TextTag::Bold => String::from_str("bold"),
            TextTag::Italic => String::from_str("italic"),
            TextTag::Strikethrough => String::from_str("strikethrough"),
            TextTag::Link => String::from_str("link"),
            TextTag::Code => String::from_str("code"),
            TextTag::Footnote => String::from_str("footnote"),
            TextTag::ImageAlt => String::from_str("image-alt"),
            TextTag::Underline => String::from_str("underline"),
            TextTag::Keyboard => String::from_str("keyboard"),
            TextTag::Superscript => String::from_str("superscript"),
            TextTag::Subscript => String::from_str("subscript"),
            TextTag::Mark => String::from_str("mark"),
            TextTag::Alert(alert) => String::from_str(alert.name()),
            TextTag::Summary => String::from_str("summary"),
            TextTag::Align(HtmlAlign::Center) => String::from_str("align-center"),
            TextTag::Align(HtmlAlign::Right) => String::from_str("align-right"),
            TextTag::Quote(depth) => {
                let mut name = String::from_str("blockquote-");
                push_decimal(&mut name, depth as u128);
                name
            },
            TextTag::List(depth) => {
                let mut name = String::from_str("list-");
                push_decimal(&mut name, depth as u128);
                name
            },
        }
    }
}

/// The tag of a style that raw HTML gives text.
pub open spec fn tag_of_style(style: HtmlStyle) -> TextTag {
    match style {
        HtmlStyle::Bold => TextTag::Bold,
        HtmlStyle::Italic => TextTag::Italic,
        HtmlStyle::Strikethrough => TextTag::Strikethrough,
        HtmlStyle::Underline => TextTag::Underline,
        HtmlStyle::Code => TextTag::Code,
        HtmlStyle::Keyboard => TextTag::Keyboard,
        HtmlStyle::Superscript => TextTag::Superscript,
        HtmlStyle::Subscript => TextTag::Subscript,
        HtmlStyle::Mark => TextTag::Mark,
    }
}

/// The tag of a style that raw HTML gives text.
fn style_tag(style: HtmlStyle) -> (tag: TextTag)
    ensures
        tag == tag_of_style(style),
{
    match style {
        HtmlStyle::Bold => TextTag::Bold,
        HtmlStyle::Italic => TextTag::Italic,
        HtmlStyle::Strikethrough => TextTag::Strikethrough,
        HtmlStyle::Underline => TextTag::Underline,
        HtmlStyle::Code => TextTag::Code,
        HtmlStyle::Keyboard => TextTag::Keyboard,
        HtmlStyle::Superscript => TextTag::Superscript,
        HtmlStyle::Subscript => TextTag::Subscript,
        HtmlStyle::Mark => TextTag::Mark,
    }
}

/// The tags without the innermost `tag`, if it is among them.
pub open spec fn without_innermost(tags: Seq<TextTag>, tag: TextTag) -> Seq<TextTag>
    decreases tags.len(),
{
    if tags.len() == 0 {
        tags
    } else if tags.last() == tag {
        tags.drop_last()
    } else {
        without_innermost(tags.drop_last(), tag).push(tags.last())
    }
}

/// Close the innermost open `tag`, so that when the same inline tag nests the outer run stays
/// open.
pub fn close_tag(tags: &mut Vec<TextTag>, tag: TextTag)
    ensures
        final(tags)@ == without_innermost(old(tags)@, tag),
{
    let ghost all = tags@;
    let mut after: usize = tags.len();
    proof {
        assert(all.take(all.len() as int) =~= all);
        assert(without_innermost(all, tag) + all.skip(all.len() as int) =~= without_innermost(
            all,
            tag,
        ));
    }
    while after > 0 && tags[after - 1] != tag
        invariant
            after <= all.len(),
            tags@ == all,
            without_innermost(all, tag) == without_innermost(all.take(after as int), tag)
                + all.skip(after as int),
        decreases after,
    {
        proof {
            let here = all.take(after as int);
            assert(here.drop_last() =~= all.take(after - 1));
            assert(without_innermost(here, tag) + all.skip(after as int) =~= without_innermost(
                all.take(after - 1),
                tag,
            ) + all.skip(after - 1));
        }
        after -= 1;
    }
    if after > 0 {
        proof {
            let here = all.take(after as int);
            assert(all.remove(after - 1) =~= here.drop_last() + all.skip(after as int));
        }
        let _ = tags.remove(after - 1);
    } else {
        proof {
            assert(all.take(0) + all.skip(0) =~= all);
        }
    }
}

/// Whether a tag is other than `tag`, or is neither a heading nor the title of an alert where
/// there is none.
pub open spec fn is_kept(other: TextTag, tag: Option<TextTag>) -> bool {
    match tag {
        Some(tag) => other != tag,
        None => !(other is Heading) && !(other is Alert),
    }
}

/// The tags that are not `tag`, or neither headings nor titles of alerts where there is none.
pub open spec fn kept_tags(tags: Seq<TextTag>, tag: Option<TextTag>) -> Seq<TextTag> {
    tags.filter(|other: TextTag| is_kept(other, tag))
}

/// Drop `tag` from the tags, or every heading and title of an alert where there is none.
fn drop_tags(tags: &mut Vec<TextTag>, tag: Option<TextTag>)
    ensures
        final(tags)@ == kept_tags(old(tags)@, tag),
{
    let mut kept: Vec<TextTag> = Vec::new();
    let ghost keep = |other: TextTag| is_kept(other, tag);
    proof {
        reveal(Seq::filter);
    }
    for i in 0..tags.len()
        invariant
            tags@ == old(tags)@,
            keep == (|other: TextTag| is_kept(other, tag)),
            kept@ == tags@.take(i as int).filter(keep),
    {
        proof {
            reveal(Seq::filter);
            assert(tags@.take(i + 1).drop_last() =~= tags@.take(i as int));
        }
        let other = tags[i];
        let keeps = match tag {
            Some(tag) => other != tag,
            None => match other {
                TextTag::Heading(_) => false,
                TextTag::Alert(_) => false,
                _ => true,
            },
        };
        if keeps {
            kept.push(other);
        }
    }
    proof {
        assert(tags@.take(tags@.len() as int) =~= tags@);
    }
    *tags = kept;
}

/// Whether a link may be handed to the system URI launcher.
pub open spec fn is_followed(url: Seq<char>) -> bool {
    starts_with(url, "http://"@) || starts_with(url, "https://"@) || starts_with(url, "mailto:"@)
}

/// Whether a link may be handed to the system URI launcher. Documents can come from untrusted
/// sources, so only web and mail links are ever followed.
pub fn is_safe_link(url: &str) -> (safe: bool)
    ensures
        safe == is_followed(url@),
{
    begins(url, "http://") || begins(url, "https://") || begins(url, "mailto:")
}

/// The marker of the next list item: its number in an ordered list, else a bullet that
/// alternates by nesting depth.
pub open spec fn marker_of(lists: Seq<Option<u128>>) -> Seq<char> {
    if lists.len() > 0 && lists.last() is Some {
        crate::text::decimal(lists.last()->0 as nat) + ". "@
    } else if lists.len() % 2 == 1 {
        "\u{2022} "@
    } else {
        "\u{25e6} "@
    }
}

/// The open lists once an item has its number.
pub open spec fn lists_after_item(lists: Seq<Option<u128>>) -> Seq<Option<u128>> {
    if lists.len() > 0 && lists.last() is Some {
        lists.update(lists.len() - 1, Some((lists.last()->0 + 1) as u128))
    } else {
        lists
    }
}

/// The visual marker for the next list item, advancing the ordered counter. `Some(n)` at the
/// top of the stack is an ordered list (renders `n. `); otherwise a bullet that alternates by
/// nesting depth.
pub fn list_marker(list_stack: &mut Vec<Option<u128>>) -> (marker: String)
    requires
        old(list_stack)@.len() > 0 ==> old(list_stack)@.last() != Some(u128::MAX),
    ensures
        marker@ == marker_of(old(list_stack)@),
        final(list_stack)@ == lists_after_item(old(list_stack)@),
{
    let depth = list_stack.len();
    if depth > 0 {
        if let Some(number) = list_stack[depth - 1] {
            let mut marker = String::new();
            push_decimal(&mut marker, number);
            proof {
                assert(marker@ =~= crate::text::decimal(number as nat));
            }
            marker.append(". ");
            list_stack.set(depth - 1, Some(number + 1));
            return marker;
        }
    }
    if depth % 2 == 1 {
        String::from_str("\u{2022} ")
    } else {
        String::from_str("\u{25e6} ")
    }
}

/// Left margin of a code block or table in so many lists and quotes.
pub open spec fn indent_of(lists: int, quotes: int) -> int {
    (if lists <= i32::MAX {
        lists
    } else {
        0
    }) * LIST_INDENT + quotes * QUOTE_INDENT
}

/// Left margin of a code block or table, in line with the text of the list item or blockquote
/// around it.
pub fn block_indent(lists: usize, quotes: usize) -> (indent: i32)
    requires
        indent_of(lists as int, quotes as int) <= i32::MAX,
    ensures
        indent == indent_of(lists as int, quotes as int),
{
    let lists: i32 = if lists <= 0x7fff_ffff {
        lists as i32
    } else {
        0
    };
    lists * LIST_INDENT + (quotes as i32) * QUOTE_INDENT
}

/// A piece of markup in a table cell that is not text.
#[derive(Debug, Clone, Copy, PartialEq, Eq, Structural)]
pub enum Mark {
    BoldStart,
    BoldEnd,
    ItalicStart,
    ItalicEnd,
    StrikethroughStart,
    StrikethroughEnd,
    UnderlineStart,
    UnderlineEnd,
    CodeStart,
    CodeEnd,
    SuperscriptStart,
    SuperscriptEnd,
    SubscriptStart,
    SubscriptEnd,
    HighlightStart,
    HighlightEnd,
    LinkEnd,
}

/// A piece of a table cell, over a type of text `S`.
#[derive(Debug, PartialEq)]
pub enum CellPart<S> {
    Mark(Mark),
    /// A link that leads somewhere: to a web or mail address, to a place in the document, or to
    /// a Markdown file.
    LinkStart(S),
    Code(S),
    Text(S),
    /// The formula at an event of the document.
    Math { event: usize },
}

/// A piece of a table cell as contracts speak of it.
pub type CellPartView = CellPart<Seq<char>>;

impl View for CellPart<String> {
    type V = CellPartView;

    open spec fn view(&self) -> CellPartView {
        match *self {
            CellPart::Mark(mark) => CellPart::Mark(mark),
            CellPart::LinkStart(url) => CellPart::LinkStart(url@),
            CellPart::Code(text) => CellPart::Code(text@),
            CellPart::Text(text) => CellPart::Text(text@),
            CellPart::Math { event } => CellPart::Math { event },
        }
    }
}

/// A table cell.
pub type Cell = Vec<CellPart<String>>;

/// A table cell as contracts speak of it.
pub open spec fn cell_view(cell: Seq<CellPart<String>>) -> Seq<CellPartView> {
    cell.map_values(|part: CellPart<String>| part@)
}

/// A row of a table as contracts speak of it.
pub open spec fn row_view(row: Seq<Cell>) -> Seq<Seq<CellPartView>> {
    row.map_values(|cell: Cell| cell_view(cell@))
}

/// The rows of a table as contracts speak of them.
pub open spec fn rows_view(rows: Seq<Vec<Cell>>) -> Seq<Seq<Seq<CellPartView>>> {
    rows.map_values(|row: Vec<Cell>| row_view(row@))
}

/// A widget between the text of the preview, as contracts speak of it.
pub enum WidgetView {
    Code { code: Seq<char>, info: Seq<char>, lists: int, quotes: int },
    Table {
        rows: Seq<Seq<Seq<CellPartView>>>,
        alignments: Seq<Alignment>,
        lists: int,
        quotes: int,
    },
    Picture { event: int },
    Math { event: int, display: bool },
    Rule,
}

/// A widget between the text of the preview.
#[derive(Debug, PartialEq)]
pub enum Widget {
    /// A code block with its info string, in so many lists and quotes.
    Code { code: String, info: String, lists: usize, quotes: usize },
    /// A table, in so many lists and quotes.
    Table { rows: Vec<Vec<Cell>>, alignments: Vec<Alignment>, lists: usize, quotes: usize },
    /// The picture of the image that the event starts.
    Picture { event: usize },
    /// The formula of the event, in the line or on a line of its own.
    Math { event: usize, display: bool },
    /// A thematic break.
    Rule,
}

impl View for Widget {
    type V = WidgetView;

    open spec fn view(&self) -> WidgetView {
        match *self {
            Widget::Code { code, info, lists, quotes } => WidgetView::Code {
                code: code@,
                info: info@,
                lists: lists as int,
                quotes: quotes as int,
            },
            Widget::Table { rows, alignments, lists, quotes } => WidgetView::Table {
                rows: rows_view(rows@),
                alignments: alignments@,
                lists: lists as int,
                quotes: quotes as int,
            },
            Widget::Picture { event } => WidgetView::Picture { event: event as int },
            Widget::Math { event, display } => WidgetView::Math { event: event as int, display },
            Widget::Rule => WidgetView::Rule,
        }
    }
}

/// A place in the preview: where links lead, what a click is on, and the ends of quotes and of
/// `<details>` elements. The names are of a type `S`.
#[derive(Debug, PartialEq)]
pub enum Place<S> {
    /// A heading, whose name is up to the whole document.
    Heading,
    /// A footnote.
    Note(S),
    /// A reference to a footnote.
    Reference(S),
    /// The box of a task, which a click ticks.
    Box,
    /// The start of a quote that is in no other, and which alert it is.
    Quote(Option<Alert>),
    /// The end of a quote that is in no other.
    QuoteEnd,
    /// The start of a `<details>` element, which is open at first or not.
    Details(bool),
    /// The end of the summary of a `<details>` element.
    Content,
    /// The end of a `<details>` element.
    DetailsEnd,
}

/// A place in the preview, as contracts speak of it.
pub type PlaceView = Place<Seq<char>>;

impl View for Place<String> {
    type V = PlaceView;

    open spec fn view(&self) -> PlaceView {
        match *self {
            Place::Heading => Place::Heading,
            Place::Note(name) => Place::Note(name@),
            Place::Reference(name) => Place::Reference(name@),
            Place::Box => Place::Box,
            Place::Quote(alert) => Place::Quote(alert),
            Place::QuoteEnd => Place::QuoteEnd,
            Place::Details(open) => Place::Details(open),
            Place::Content => Place::Content,
            Place::DetailsEnd => Place::DetailsEnd,
        }
    }
}

/// Places as contracts speak of them.
pub open spec fn place_views(places: Seq<(Place<String>, usize)>) -> Seq<(PlaceView, int)> {
    places.map_values(|place: (Place<String>, usize)| (place.0@, place.1 as int))
}

/// What became of an image or a formula of the document.
#[derive(Debug, Clone, Copy, PartialEq, Eq, Structural)]
pub enum Resolved {
    /// An image that leads to no file of the document's folder.
    Elsewhere,
    /// An image that leads to a file that could not be decoded, or a formula that does not
    /// typeset.
    Unreadable,
    /// There is a picture of it.
    Shown,
}

/// The state of a rendering: the text so far with its tags and widgets, and what is open.
#[verifier::ext_equal]
pub struct PreviewView {
    /// The text so far, after the end of what precedes it.
    pub text: Seq<char>,
    /// How much of `text` precedes the rendering.
    pub origin: int,
    /// Stretches of text and their tags.
    pub spans: Seq<(int, int, Seq<TextTag>)>,
    pub widgets: Seq<(int, WidgetView)>,
    pub links: Seq<(int, int, Seq<char>)>,
    /// The places that links lead to.
    pub places: Seq<(PlaceView, int)>,
    /// The images that lead to a file, by their events.
    pub images: Seq<int>,
    /// The alternative texts of the pictures, by their events.
    pub alts: Seq<(int, Seq<char>)>,
    pub tags: Seq<TextTag>,
    /// One entry per open list: the next number of an ordered one, `None` for bullets.
    pub lists: Seq<Option<u128>>,
    pub quotes: int,
    pub in_table: bool,
    pub rows: Seq<Seq<Seq<CellPartView>>>,
    pub alignments: Seq<Alignment>,
    pub row: Seq<Seq<CellPartView>>,
    pub cell: Seq<CellPartView>,
    /// The styles and links open in the cell, the innermost last.
    pub cell_open: Seq<CellPartView>,
    pub in_code: bool,
    pub code: Seq<char>,
    pub code_info: Seq<char>,
    /// The open image: whether there is a picture of it, its event, and its alternative text
    /// so far.
    pub image: Option<(bool, int, Seq<char>)>,
    pub link_starts: Seq<(Seq<char>, int)>,
    /// The open footnote.
    pub note: Option<Seq<char>>,
    /// The open blocks of raw HTML.
    pub html: Seq<HtmlBlock>,
}

/// How many line breaks `text` ends with, two at most.
pub open spec fn breaks_at_end(text: Seq<char>) -> int {
    if text.len() == 0 || text.last() != '\n' {
        0
    } else if text.len() == 1 || text[text.len() - 2] != '\n' {
        1
    } else {
        2
    }
}

/// The line breaks still missing for a blank line to separate what follows from `text`. A
/// fixed pair would double up when an inner paragraph has already ended the block.
pub open spec fn block_break(text: Seq<char>) -> Seq<char> {
    if text.len() == 0 || breaks_at_end(text) == 2 {
        Seq::empty()
    } else if breaks_at_end(text) == 1 {
        "\n"@
    } else {
        "\n\n"@
    }
}

/// Whether a line starts after `text`.
pub open spec fn at_line_start(text: Seq<char>) -> bool {
    text.len() == 0 || text.last() == '\n' || text.last() == '\r' || text.last() == '\u{2029}'
}

/// The line break still missing for a line to start after `text`.
pub open spec fn line_break(text: Seq<char>) -> Seq<char> {
    if at_line_start(text) {
        Seq::empty()
    } else {
        "\n"@
    }
}

/// The tag of a heading.
pub open spec fn heading_tag(level: HeadingLevel) -> TextTag {
    match level {
        HeadingLevel::H1 => TextTag::Heading(1),
        HeadingLevel::H2 => TextTag::Heading(2),
        HeadingLevel::H3 => TextTag::Heading(3),
        _ => TextTag::Heading(4),
    }
}

impl PreviewView {
    /// Where the text ends, from where the rendering starts.
    pub open spec fn offset(self) -> int {
        self.text.len() - self.origin
    }

    /// More text, without tags.
    pub open spec fn add(self, text: Seq<char>) -> PreviewView {
        PreviewView { text: self.text + text, ..self }
    }

    /// More text with the given tags.
    pub open spec fn insert(self, text: Seq<char>, tags: Seq<TextTag>) -> PreviewView {
        PreviewView {
            spans: self.spans.push((self.offset(), self.offset() + text.len(), tags)),
            ..self.add(text)
        }
    }

    /// A blank line follows the text.
    pub open spec fn end_block(self) -> PreviewView {
        self.add(block_break(self.text))
    }

    /// A line starts after the text.
    pub open spec fn start_line(self) -> PreviewView {
        self.add(line_break(self.text))
    }

    /// A widget stands in the text.
    pub open spec fn anchor(self, widget: WidgetView) -> PreviewView {
        PreviewView {
            widgets: self.widgets.push((self.offset(), widget)),
            ..self.add(seq![ANCHOR])
        }
    }

    /// A code block or table on a line of its own: inside a list only the line ends after it,
    /// so the next item follows as closely as after text; elsewhere a blank line follows.
    pub open spec fn widget_block(self, widget: WidgetView) -> PreviewView {
        let next = self.start_line().anchor(widget);
        if self.lists.len() == 0 {
            next.end_block()
        } else {
            next.start_line()
        }
    }

    /// An event inside a code block.
    pub open spec fn in_code_block(self, event: EventView) -> PreviewView {
        match event {
            MdEvent::Text(text) => PreviewView { code: self.code + text, ..self },
            MdEvent::Code(text) => PreviewView { code: self.code + text, ..self },
            MdEvent::End(TagEnd::CodeBlock) => (PreviewView {
                in_code: false,
                ..self
            }).widget_block(
                WidgetView::Code {
                    code: drop_end(self.code, '\n'),
                    info: self.code_info,
                    lists: self.lists.len() as int,
                    quotes: self.quotes,
                },
            ),
            _ => self,
        }
    }

    /// One more piece of the open cell.
    pub open spec fn cell_part(self, part: CellPartView) -> PreviewView {
        PreviewView { cell: self.cell.push(part), ..self }
    }

    /// A style or a link starts in the open cell.
    pub open spec fn cell_start(self, part: CellPartView) -> PreviewView {
        PreviewView {
            cell: self.cell.push(part),
            cell_open: self.cell_open.push(part),
            ..self
        }
    }

    /// The style or link that a mark ends is over in the open cell.
    pub open spec fn cell_end(self, end: Mark) -> PreviewView {
        let (cell, cell_open) = closed(self.cell, self.cell_open, end);
        PreviewView { cell, cell_open, ..self }
    }

    /// Pieces of the open cell that no style and no link reaches.
    pub open spec fn cell_alone(self, parts: Seq<CellPartView>) -> PreviewView {
        PreviewView { cell: set_apart(self.cell, self.cell_open, parts), ..self }
    }

    /// Math in the open cell, at event `n`: in the line. Math that does not typeset shows as its
    /// source.
    pub open spec fn cell_math(self, latex: Seq<char>, n: int, resolved: Resolved) -> PreviewView {
        if resolved is Shown {
            self.cell_alone(seq![CellPart::Math { event: n as usize }])
        } else {
            self.cell_part(CellPart::Code(latex))
        }
    }

    /// A part of raw HTML in the open cell: its text is kept, and the tags of text styles still
    /// style it.
    pub open spec fn cell_html_part(self, part: PartView) -> PreviewView {
        match part {
            HtmlPart::Text(text) => self.cell_part(CellPart::Text(text)),
            HtmlPart::StyleStart(style) => self.cell_start(CellPart::Mark(mark_of_style(style))),
            HtmlPart::StyleEnd(style) => self.cell_end(mark_of_style(style).end()),
            _ => self,
        }
    }

    /// The first `n` parts of raw HTML in the open cell.
    pub open spec fn cell_html_parts(self, parts: Seq<PartView>, n: int) -> PreviewView
        decreases n,
    {
        if n <= 0 {
            self
        } else {
            self.cell_html_parts(parts, n - 1).cell_html_part(parts[n - 1])
        }
    }

    /// Raw HTML in the open cell.
    pub open spec fn cell_html(self, html: Seq<char>) -> PreviewView {
        self.cell_html_parts(parts_of(html), parts_of(html).len() as int)
    }

    /// A reference to a footnote in the open cell, which links to its note.
    pub open spec fn cell_refer(self, name: Seq<char>) -> PreviewView {
        self.place(Place::Reference(name)).cell_alone(
            seq![
                CellPart::LinkStart("#"@ + footnote_id_of(name)),
                CellPart::Text("["@ + name + "]"@),
                CellPart::Mark(Mark::LinkEnd),
            ],
        )
    }

    /// The open table ends.
    pub open spec fn end_table(self) -> PreviewView {
        (PreviewView { in_table: false, ..self }).widget_block(
            WidgetView::Table {
                rows: self.rows,
                alignments: self.alignments,
                lists: self.lists.len() as int,
                quotes: self.quotes,
            },
        )
    }

    /// Event `n`, inside a table.
    pub open spec fn in_table_block(self, event: EventView, n: int, resolved: Resolved) -> PreviewView {
        match event {
            MdEvent::Start(MdTag::TableHead) => PreviewView { row: Seq::empty(), ..self },
            MdEvent::Start(MdTag::TableRow) => PreviewView { row: Seq::empty(), ..self },
            MdEvent::Start(MdTag::TableCell) => PreviewView {
                cell: Seq::empty(),
                cell_open: Seq::empty(),
                ..self
            },
            MdEvent::End(TagEnd::TableHead) => PreviewView {
                rows: self.rows.push(self.row),
                row: Seq::empty(),
                ..self
            },
            MdEvent::End(TagEnd::TableRow) => PreviewView {
                rows: self.rows.push(self.row),
                row: Seq::empty(),
                ..self
            },
            MdEvent::End(TagEnd::TableCell) => PreviewView {
                row: self.row.push(self.cell + ends_of(self.cell_open, 0)),
                cell: Seq::empty(),
                cell_open: Seq::empty(),
                ..self
            },
            MdEvent::Start(MdTag::Strong) => self.cell_start(CellPart::Mark(Mark::BoldStart)),
            MdEvent::End(TagEnd::Strong) => self.cell_end(Mark::BoldEnd),
            MdEvent::Start(MdTag::Emphasis) => self.cell_start(CellPart::Mark(Mark::ItalicStart)),
            MdEvent::End(TagEnd::Emphasis) => self.cell_end(Mark::ItalicEnd),
            MdEvent::Start(MdTag::Strikethrough) => self.cell_start(
                CellPart::Mark(Mark::StrikethroughStart),
            ),
            MdEvent::End(TagEnd::Strikethrough) => self.cell_end(Mark::StrikethroughEnd),
            MdEvent::Start(MdTag::Link { dest_url, .. }) => if target_of(dest_url, true)
                is Nothing {
                self.cell_start(CellPart::Mark(Mark::UnderlineStart))
            } else {
                self.cell_start(CellPart::LinkStart(dest_url))
            },
            MdEvent::End(TagEnd::Link) => self.cell_end(
                if ended_by(self.cell_open, Mark::LinkEnd) >= 0 {
                    Mark::LinkEnd
                } else {
                    Mark::UnderlineEnd
                },
            ),
            MdEvent::Code(text) => self.cell_part(CellPart::Code(text)),
            MdEvent::InlineMath(latex) => self.cell_math(latex, n, resolved),
            MdEvent::DisplayMath(latex) => self.cell_math(latex, n, resolved),
            MdEvent::Text(text) => self.cell_part(CellPart::Text(text)),
            MdEvent::Html(html) => self.cell_html(html),
            MdEvent::InlineHtml(html) => self.cell_html(html),
            MdEvent::FootnoteReference(name) => self.cell_refer(name),
            MdEvent::End(TagEnd::Table) => self.end_table(),
            _ => self,
        }
    }

    /// Links can lead here.
    pub open spec fn place(self, place: PlaceView) -> PreviewView {
        PreviewView { places: self.places.push((place, self.offset())), ..self }
    }

    /// Where the last line of text ends.
    pub open spec fn text_end(self) -> int {
        from_start(self.offset(), breaks_at_end(self.text))
    }

    /// A quote starts.
    pub open spec fn start_quote(self, kind: Option<BlockQuoteKind>) -> PreviewView {
        let alert = match kind {
            Some(kind) => Some(Alert::of(kind)),
            None => None,
        };
        let placed = if self.quotes == 0 {
            self.place(Place::Quote(alert))
        } else {
            self
        };
        let next = (PreviewView { quotes: self.quotes + 1, ..placed }).open_tag(
            TextTag::Quote((self.quotes + 1) as usize),
        );
        match alert {
            Some(alert) => next.open_tag(TextTag::Alert(alert)),
            None => next,
        }
    }

    /// A quote ends.
    pub open spec fn end_quote(self) -> PreviewView {
        let next = PreviewView {
            tags: kept_tags(self.tags, Some(TextTag::Quote(self.quotes as usize))),
            quotes: if self.quotes > 0 {
                self.quotes - 1
            } else {
                0
            },
            places: if self.quotes == 1 {
                self.places.push((Place::QuoteEnd, self.text_end()))
            } else {
                self.places
            },
            ..self
        };
        next.end_block()
    }

    /// More text with the given tags, which is a link.
    pub open spec fn insert_link(
        self,
        text: Seq<char>,
        tags: Seq<TextTag>,
        url: Seq<char>,
    ) -> PreviewView {
        let next = self.insert(text, tags);
        PreviewView { links: next.links.push((self.offset(), next.offset(), url)), ..next }
    }

    /// The open footnote ends, with an arrow that links back to the first reference to it.
    pub open spec fn end_note(self) -> PreviewView {
        match self.note {
            Some(name) => (PreviewView { note: None, ..self }).insert_link(
                "\u{21a9}"@,
                seq![TextTag::Link],
                "#"@ + reference_id_of(name),
            ).end_block(),
            None => self,
        }
    }

    /// A tag is open.
    pub open spec fn open_tag(self, tag: TextTag) -> PreviewView {
        PreviewView { tags: self.tags.push(tag), ..self }
    }

    /// The innermost `tag` is no longer open.
    pub open spec fn shut_tag(self, tag: TextTag) -> PreviewView {
        PreviewView { tags: without_innermost(self.tags, tag), ..self }
    }

    /// An image starts at event `n`.
    pub open spec fn start_image(self, n: int, resolved: Resolved) -> PreviewView {
        let next = PreviewView {
            image: Some((resolved is Shown, n, Seq::empty())),
            images: if resolved is Elsewhere {
                self.images
            } else {
                self.images.push(n)
            },
            ..self
        };
        if resolved is Shown {
            next.anchor(WidgetView::Picture { event: n })
        } else {
            next
        }
    }

    /// Event `n` starts a tag.
    pub open spec fn start(
        self,
        tag: crate::event::TagView,
        n: int,
        resolved: Resolved,
    ) -> PreviewView {
        match tag {
            MdTag::CodeBlock(info) => PreviewView {
                in_code: true,
                code: Seq::empty(),
                code_info: match info {
                    Some(info) => info,
                    None => Seq::empty(),
                },
                ..self
            },
            MdTag::Table(alignments) => PreviewView {
                in_table: true,
                rows: Seq::empty(),
                alignments,
                ..self
            },
            MdTag::Heading { level, .. } => self.place(Place::Heading).open_tag(
                heading_tag(level),
            ),
            MdTag::Strong => self.open_tag(TextTag::Bold),
            MdTag::Emphasis => self.open_tag(TextTag::Italic),
            MdTag::Strikethrough => self.open_tag(TextTag::Strikethrough),
            MdTag::Link { dest_url, .. } => PreviewView {
                link_starts: self.link_starts.push((dest_url, self.offset())),
                ..self.open_tag(TextTag::Link)
            },
            MdTag::Image { .. } => self.start_image(n, resolved),
            MdTag::BlockQuote(kind) => self.start_quote(kind),
            MdTag::List(first) => {
                let next = self.start_line();
                (PreviewView {
                    lists: self.lists.push(
                        match first {
                            Some(first) => Some(first as u128),
                            None => None,
                        },
                    ),
                    ..next
                }).open_tag(TextTag::List(self.lists.len() as usize))
            },
            MdTag::Item => (PreviewView { lists: lists_after_item(self.lists), ..self }).insert(
                marker_of(self.lists),
                seq![TextTag::Bold] + self.tags,
            ),
            MdTag::FootnoteDefinition(label) => (PreviewView {
                note: Some(label),
                ..self.end_block().place(Place::Note(label))
            }).insert("["@ + label + "]: "@, seq![TextTag::Bold]),
            MdTag::DefinitionListTitle => self.start_line().open_tag(TextTag::Bold),
            MdTag::DefinitionListDefinition => self.start_line(),
            _ => self,
        }
    }

    /// The open image ends. One there is no picture of shows its alternative text, so the
    /// document does not silently lose the content.
    pub open spec fn end_image(self) -> PreviewView {
        let next = PreviewView { image: None, ..self };
        match self.image {
            Some((shown, event, alt)) => if alt.len() == 0 {
                next
            } else if shown {
                PreviewView { alts: self.alts.push((event, alt)), ..next }
            } else {
                next.insert(alt, seq![TextTag::ImageAlt] + self.tags)
            },
            None => next,
        }
    }

    /// A tag ends.
    pub open spec fn end(self, tag: TagEnd) -> PreviewView {
        match tag {
            TagEnd::Heading(_) => (PreviewView {
                tags: kept_tags(self.tags, None),
                ..self
            }).end_block(),
            TagEnd::Strong => self.shut_tag(TextTag::Bold),
            TagEnd::Emphasis => self.shut_tag(TextTag::Italic),
            TagEnd::Strikethrough => self.shut_tag(TextTag::Strikethrough),
            TagEnd::Link => {
                let next = self.shut_tag(TextTag::Link);
                if self.link_starts.len() == 0 {
                    next
                } else {
                    let (url, start) = self.link_starts.last();
                    PreviewView {
                        link_starts: self.link_starts.drop_last(),
                        links: self.links.push((start, self.offset(), url)),
                        ..next
                    }
                }
            },
            TagEnd::Image => self.end_image(),
            TagEnd::BlockQuote(_) => self.end_quote(),
            TagEnd::List(_) => {
                let depth = if self.lists.len() > 0 {
                    self.lists.len() - 1
                } else {
                    0
                };
                let next = PreviewView {
                    tags: kept_tags(self.tags, Some(TextTag::List(depth as usize))),
                    lists: self.lists.take(depth),
                    ..self
                };
                if depth == 0 {
                    next.end_block()
                } else {
                    next
                }
            },
            TagEnd::Item => self.start_line(),
            TagEnd::Paragraph => (PreviewView {
                tags: kept_tags(self.tags, None),
                ..self
            }).end_block(),
            TagEnd::FootnoteDefinition => self.end_note(),
            TagEnd::DefinitionListTitle => self.shut_tag(TextTag::Bold).start_line(),
            TagEnd::DefinitionListDefinition => self.end_block(),
            _ => self,
        }
    }

    /// Text outside code blocks and tables: in an image it is alternative text.
    pub open spec fn say(self, text: Seq<char>, tags: Seq<TextTag>) -> PreviewView {
        match self.image {
            Some((shown, event, alt)) => PreviewView {
                image: Some((shown, event, alt + text)),
                ..self
            },
            None => self.insert(text, tags),
        }
    }

    /// Math outside code blocks and tables, at event `n`: in the line, or on a line of its own
    /// if it is displayed. Math that does not typeset shows as its source.
    pub open spec fn math(
        self,
        latex: Seq<char>,
        n: int,
        display: bool,
        resolved: Resolved,
    ) -> PreviewView {
        if resolved is Shown && self.image is None {
            let widget = WidgetView::Math { event: n, display };
            if display {
                self.start_line().anchor(widget).start_line()
            } else {
                self.anchor(widget)
            }
        } else {
            self.say(latex, seq![TextTag::Code] + self.tags)
        }
    }

    /// Whether a paragraph of raw HTML is the innermost open block.
    pub open spec fn in_html_paragraph(self) -> bool {
        self.html.len() > 0 && self.html.last().paragraph
    }

    /// The innermost open block of raw HTML ends, and its alignment with it.
    pub open spec fn drop_html(self) -> PreviewView {
        let next = PreviewView { html: self.html.drop_last(), ..self };
        match self.html.last().align {
            Some(align) => next.shut_tag(TextTag::Align(align)),
            None => next,
        }
    }

    /// A block of raw HTML starts, which ends an open paragraph.
    pub open spec fn open_html(self, block: HtmlBlock) -> PreviewView {
        let around = if self.in_html_paragraph() {
            self.drop_html()
        } else {
            self
        };
        let next = PreviewView { html: around.html.push(block), ..around };
        match block.align {
            Some(align) => next.open_tag(TextTag::Align(align)),
            None => next,
        }
    }

    /// A block of raw HTML ends, and a paragraph that is still open in it.
    pub open spec fn close_html(self, paragraph: bool) -> PreviewView {
        let around = if self.in_html_paragraph() {
            self.drop_html()
        } else {
            self
        };
        if !paragraph && around.html.len() > 0 {
            around.drop_html()
        } else {
            around
        }
    }

    /// What a part of raw HTML other than text and text styles does once it has started a line:
    /// blocks align what is in them, and the places of `<details>` elements are kept.
    pub open spec fn lay(self, part: PartView) -> PreviewView {
        match part {
            HtmlPart::BlockStart(block) => self.open_html(block),
            HtmlPart::BlockEnd { paragraph } => self.close_html(paragraph),
            HtmlPart::DetailsStart { open } => self.place(Place::Details(open)),
            HtmlPart::SummaryStart => self.open_tag(TextTag::Summary),
            HtmlPart::SummaryEnd => self.shut_tag(TextTag::Summary).place(Place::Content),
            HtmlPart::DetailsEnd => self.place(Place::DetailsEnd),
            _ => self,
        }
    }

    /// A part of raw HTML outside code blocks and tables: its text is kept, the tags of text
    /// styles still style it, and others start a line.
    pub open spec fn say_part(self, part: PartView) -> PreviewView {
        match part {
            HtmlPart::Text(text) => if text.len() == 0 {
                self
            } else {
                self.say(text, self.tags)
            },
            HtmlPart::StyleStart(style) => self.open_tag(tag_of_style(style)),
            HtmlPart::StyleEnd(style) => self.shut_tag(tag_of_style(style)),
            _ => match self.image {
                Some(_) => self,
                None => self.start_line().lay(part),
            },
        }
    }

    /// The first `n` parts of raw HTML outside code blocks and tables, with their text or
    /// without it.
    pub open spec fn say_parts(self, parts: Seq<PartView>, n: int, silent: bool) -> PreviewView
        decreases n,
    {
        if n <= 0 {
            self
        } else {
            let before = self.say_parts(parts, n - 1, silent);
            if silent && parts[n - 1] is Text {
                before
            } else {
                before.say_part(parts[n - 1])
            }
        }
    }

    /// Raw HTML outside code blocks and tables, a block of it or a piece in a line. A block that
    /// holds nothing but markup, such as a comment or a lone tag on its own line, says no text,
    /// or it would leave a stray blank line behind. A piece in a line is kept as it comes, since
    /// a `<br>` is just a line break.
    pub open spec fn say_html(self, html: Seq<char>, block: bool) -> PreviewView {
        self.say_parts(parts_of(html), parts_of(html).len() as int, block && is_markup(html))
    }

    /// The rendering after event `n`.
    pub open spec fn step(self, event: EventView, n: int, resolved: Resolved) -> PreviewView {
        if self.in_code {
            self.in_code_block(event)
        } else if self.in_table {
            self.in_table_block(event, n, resolved)
        } else {
            match event {
                MdEvent::Start(tag) => self.start(tag, n, resolved),
                MdEvent::End(tag) => self.end(tag),
                MdEvent::Text(text) => self.say(text, self.tags),
                MdEvent::Code(text) => self.say(text, seq![TextTag::Code] + self.tags),
                MdEvent::InlineMath(latex) => self.math(latex, n, false, resolved),
                MdEvent::DisplayMath(latex) => self.math(latex, n, true, resolved),
                MdEvent::Html(html) => self.say_html(html, true),
                MdEvent::InlineHtml(html) => self.say_html(html, false),
                MdEvent::FootnoteReference(name) => self.place(Place::Reference(name)).insert_link(
                    "["@ + name + "]"@,
                    seq![TextTag::Footnote],
                    "#"@ + footnote_id_of(name),
                ),
                MdEvent::TaskListMarker(checked) => self.place(Place::Box).insert(
                    if checked {
                        "\u{25a0} "@
                    } else {
                        "\u{25a1} "@
                    },
                    seq![TextTag::Bold] + self.tags,
                ),
                MdEvent::Rule => self.anchor(WidgetView::Rule).end_block(),
                MdEvent::SoftBreak => self.say(" "@, self.tags),
                MdEvent::HardBreak => match self.image {
                    Some(_) => self.say(" "@, self.tags),
                    None => self.insert("\n"@, self.tags),
                },
            }
        }
    }
}

/// A rendering with no text, after nothing or after a block.
pub open spec fn preview_start(follows: bool) -> PreviewView {
    PreviewView {
        text: if follows {
            "\n\n"@
        } else {
            Seq::empty()
        },
        origin: if follows {
            2
        } else {
            0
        },
        spans: Seq::empty(),
        widgets: Seq::empty(),
        links: Seq::empty(),
        places: Seq::empty(),
        images: Seq::empty(),
        alts: Seq::empty(),
        tags: Seq::empty(),
        lists: Seq::empty(),
        quotes: 0,
        in_table: false,
        rows: Seq::empty(),
        alignments: Seq::empty(),
        row: Seq::empty(),
        cell: Seq::empty(),
        cell_open: Seq::empty(),
        in_code: false,
        code: Seq::empty(),
        code_info: Seq::empty(),
        image: None,
        link_starts: Seq::empty(),
        note: None,
        html: Seq::empty(),
    }
}

/// What became of the image that event `n` starts.
pub open spec fn resolved_at(resolved: Seq<Resolved>, n: int) -> Resolved {
    if 0 <= n < resolved.len() {
        resolved[n]
    } else {
        Resolved::Elsewhere
    }
}

/// The rendering after the events from `start` up to `n`.
pub open spec fn rendered(
    state: PreviewView,
    events: Seq<EventView>,
    resolved: Seq<Resolved>,
    start: int,
    n: int,
) -> PreviewView
    decreases n - start,
{
    if n <= start {
        state
    } else {
        rendered(state, events, resolved, start, n - 1).step(
            events[n - 1],
            n - 1,
            resolved_at(resolved, n - 1),
        )
    }
}

/// The state of a rendering.
pub struct Preview {
    text: Vec<char>,
    origin: usize,
    spans: Vec<(usize, usize, Vec<TextTag>)>,
    widgets: Vec<(usize, Widget)>,
    links: Vec<(usize, usize, String)>,
    places: Vec<(Place<String>, usize)>,
    images: Vec<usize>,
    alts: Vec<(usize, String)>,
    tags: Vec<TextTag>,
    lists: Vec<Option<u128>>,
    quotes: usize,
    in_table: bool,
    rows: Vec<Vec<Cell>>,
    alignments: Vec<Alignment>,
    row: Vec<Cell>,
    cell: Cell,
    cell_open: Cell,
    in_code: bool,
    code: String,
    code_info: String,
    image: Option<(bool, usize, String)>,
    link_starts: Vec<(String, usize)>,
    note: Option<String>,
    html: Vec<HtmlBlock>,
}

/// Tagged stretches as contracts speak of them.
pub open spec fn span_views(spans: Seq<(usize, usize, Vec<TextTag>)>) -> Seq<
    (int, int, Seq<TextTag>),
> {
    spans.map_values(
        |span: (usize, usize, Vec<TextTag>)| (span.0 as int, span.1 as int, span.2@),
    )
}

/// Widgets and where they stand, as contracts speak of them.
pub open spec fn widget_views(widgets: Seq<(usize, Widget)>) -> Seq<(int, WidgetView)> {
    widgets.map_values(|widget: (usize, Widget)| (widget.0 as int, widget.1@))
}

/// Links and where they stand, as contracts speak of them.
pub open spec fn link_views(links: Seq<(usize, usize, String)>) -> Seq<(int, int, Seq<char>)> {
    links.map_values(|link: (usize, usize, String)| (link.0 as int, link.1 as int, link.2@))
}

/// Events by number, as contracts speak of them.
pub open spec fn number_views(numbers: Seq<usize>) -> Seq<int> {
    numbers.map_values(|number: usize| number as int)
}

/// Alternative texts by event, as contracts speak of them.
pub open spec fn alt_views(alts: Seq<(usize, String)>) -> Seq<(int, Seq<char>)> {
    alts.map_values(|alt: (usize, String)| (alt.0 as int, alt.1@))
}

/// Where links start, as contracts speak of it.
pub open spec fn start_views(starts: Seq<(String, usize)>) -> Seq<(Seq<char>, int)> {
    starts.map_values(|start: (String, usize)| (start.0@, start.1 as int))
}

impl View for Preview {
    type V = PreviewView;

    closed spec fn view(&self) -> PreviewView {
        PreviewView {
            text: self.text@,
            origin: self.origin as int,
            spans: span_views(self.spans@),
            widgets: widget_views(self.widgets@),
            links: link_views(self.links@),
            places: place_views(self.places@),
            images: number_views(self.images@),
            alts: alt_views(self.alts@),
            tags: self.tags@,
            lists: self.lists@,
            quotes: self.quotes as int,
            in_table: self.in_table,
            rows: rows_view(self.rows@),
            alignments: self.alignments@,
            row: row_view(self.row@),
            cell: cell_view(self.cell@),
            cell_open: cell_view(self.cell_open@),
            in_code: self.in_code,
            code: self.code@,
            code_info: self.code_info@,
            image: match self.image {
                Some((shown, event, alt)) => Some((shown, event as int, alt@)),
                None => None,
            },
            link_starts: start_views(self.link_starts@),
            note: crate::event::opt_view(self.note),
            html: self.html@,
        }
    }
}

/// A copy of tags, with one more before them if there is one.
fn copy_tags(first: Option<TextTag>, tags: &Vec<TextTag>) -> (copy: Vec<TextTag>)
    ensures
        copy@ == (match first {
            Some(first) => seq![first] + tags@,
            None => tags@,
        }),
{
    let mut copy: Vec<TextTag> = Vec::new();
    if let Some(first) = first {
        copy.push(first);
    }
    let ghost start = copy@;
    for i in 0..tags.len()
        invariant
            copy@ == start + tags@.take(i as int),
    {
        proof {
            assert(start + tags@.take(i + 1) =~= (start + tags@.take(i as int)).push(
                tags@[i as int],
            ));
        }
        copy.push(tags[i]);
    }
    proof {
        assert(tags@.take(tags@.len() as int) =~= tags@);
        assert(copy@ =~= match first {
            Some(first) => seq![first] + tags@,
            None => tags@,
        });
    }
    copy
}

/// Add the characters of `text`.
fn push_chars(chars: &mut Vec<char>, text: &str)
    ensures
        final(chars)@ == old(chars)@ + text@,
{
    let ghost before = chars@;
    let more = chars_of(text);
    for i in 0..more.len()
        invariant
            more@ == text@,
            chars@ == before + more@.take(i as int),
    {
        proof {
            assert(before + more@.take(i + 1) =~= (before + more@.take(i as int)).push(
                more@[i as int],
            ));
        }
        chars.push(more[i]);
    }
    proof {
        assert(more@.take(more@.len() as int) =~= more@);
    }
}

impl Preview {
    /// Whether the counters have room for `n` events to have come in.
    pub closed spec fn fits(self, n: nat) -> bool {
        &&& self.quotes <= n
        &&& self.lists@.len() <= n
        &&& self.origin <= self.text@.len()
        &&& forall|i: int|
            0 <= i < self.lists@.len() && #[trigger] self.lists@[i] is Some ==> self.lists@[i]->0
                <= u64::MAX + n
    }

    /// Whether two states have the same room in their counters.
    closed spec fn same_room(self, other: Preview) -> bool {
        self.quotes == other.quotes && self.lists == other.lists && self.origin == other.origin
            && self.text@.len() >= other.text@.len()
    }

    /// A rendering with no text, after nothing or after a block.
    pub fn new(follows: bool) -> (preview: Self)
        ensures
            preview@ == preview_start(follows),
            preview.fits(0),
    {
        let text: Vec<char> = if follows {
            chars_of("\n\n")
        } else {
            Vec::new()
        };
        let origin: usize = if follows {
            2
        } else {
            0
        };
        let preview = Preview {
            text,
            origin,
            spans: Vec::new(),
            widgets: Vec::new(),
            links: Vec::new(),
            places: Vec::new(),
            images: Vec::new(),
            alts: Vec::new(),
            tags: Vec::new(),
            lists: Vec::new(),
            quotes: 0,
            in_table: false,
            rows: Vec::new(),
            alignments: Vec::new(),
            row: Vec::new(),
            cell: Vec::new(),
            cell_open: Vec::new(),
            in_code: false,
            code: String::new(),
            code_info: String::new(),
            image: None,
            link_starts: Vec::new(),
            note: None,
            html: Vec::new(),
        };
        proof {
            reveal_strlit("\n\n");
            assert(preview@ =~= preview_start(follows));
        }
        preview
    }

    /// More text, without tags.
    fn add(&mut self, text: &str)
        ensures
            final(self)@ == old(self)@.add(text@),
            final(self).same_room(*old(self)),
    {
        push_chars(&mut self.text, text);
        proof {
            assert(self@ =~= old(self)@.add(text@));
        }
    }

    /// More text with the given tags.
    fn insert(&mut self, text: &str, tags: Vec<TextTag>)
        requires
            old(self).origin <= old(self).text@.len(),
        ensures
            final(self)@ == old(self)@.insert(text@, tags@),
            final(self).same_room(*old(self)),
    {
        let start = self.text.len() - self.origin;
        let ghost before = self.spans@;
        push_chars(&mut self.text, text);
        let end = self.text.len() - self.origin;
        let span = (start, end, tags);
        proof {
            assert(span_views(before.push(span)) =~= span_views(before).push(
                (start as int, end as int, tags@),
            ));
        }
        self.spans.push(span);
        proof {
            assert(self@ =~= old(self)@.insert(text@, tags@));
        }
    }

    /// A blank line follows the text.
    fn end_block(&mut self)
        ensures
            final(self)@ == old(self)@.end_block(),
            final(self).same_room(*old(self)),
    {
        let size = self.text.len();
        if size == 0 {
            proof {
                assert(self@ =~= old(self)@.end_block());
            }
            return;
        }
        if self.text[size - 1] != '\n' {
            self.add("\n\n");
        } else if size == 1 || self.text[size - 2] != '\n' {
            self.add("\n");
        } else {
            proof {
                assert(self@ =~= old(self)@.end_block());
            }
        }
    }

    /// A line starts after the text.
    fn start_line(&mut self)
        ensures
            final(self)@ == old(self)@.start_line(),
            final(self).same_room(*old(self)),
    {
        let size = self.text.len();
        if size > 0 {
            let last = self.text[size - 1];
            if last != '\n' && last != '\r' && last != '\u{2029}' {
                self.add("\n");
                return;
            }
        }
        proof {
            assert(self@ =~= old(self)@.start_line());
        }
    }

    /// A widget stands in the text.
    fn anchor(&mut self, widget: Widget)
        requires
            old(self).origin <= old(self).text@.len(),
        ensures
            final(self)@ == old(self)@.anchor(widget@),
            final(self).same_room(*old(self)),
    {
        let at = self.text.len() - self.origin;
        let ghost before = self.widgets@;
        let item = (at, widget);
        proof {
            assert(widget_views(before.push(item)) =~= widget_views(before).push(
                (at as int, widget@),
            ));
        }
        self.widgets.push(item);
        self.text.push(ANCHOR);
        proof {
            assert(self@ =~= old(self)@.anchor(widget@));
        }
    }

    /// A code block or table on a line of its own.
    fn widget_block(&mut self, widget: Widget)
        requires
            old(self).origin <= old(self).text@.len(),
        ensures
            final(self)@ == old(self)@.widget_block(widget@),
            final(self).same_room(*old(self)),
    {
        self.start_line();
        self.anchor(widget);
        if self.lists.len() == 0 {
            self.end_block();
        } else {
            self.start_line();
        }
    }

    /// An event inside a code block.
    fn in_code_block(&mut self, event: &DocEvent)
        requires
            old(self).origin <= old(self).text@.len(),
        ensures
            final(self)@ == old(self)@.in_code_block(event@),
            final(self).same_room(*old(self)),
    {
        match event {
            MdEvent::Text(text) => {
                self.code.append(text.as_str());
            },
            MdEvent::Code(text) => {
                self.code.append(text.as_str());
            },
            MdEvent::End(TagEnd::CodeBlock) => {
                self.in_code = false;
                let mut code = chars_of(self.code.as_str());
                cut_end(&mut code, '\n');
                let shown = text_of(&code, 0, code.len());
                proof {
                    assert(code@.subrange(0, code@.len() as int) =~= code@);
                    assert(self@ =~= PreviewView { in_code: false, ..old(self)@ });
                }
                let widget = Widget::Code {
                    code: shown,
                    info: self.code_info.clone(),
                    lists: self.lists.len(),
                    quotes: self.quotes,
                };
                self.widget_block(widget);
            },
            _ => {},
        }
        proof {
            assert(self@ =~= old(self)@.in_code_block(event@));
        }
    }

    /// One more piece of the open cell.
    fn cell_part(&mut self, part: CellPart<String>)
        ensures
            final(self)@ == old(self)@.cell_part(part@),
            final(self).same_room(*old(self)),
    {
        let ghost before = self.cell@;
        self.cell.push(part);
        proof {
            assert(cell_view(self.cell@) =~= cell_view(before).push(part@));
            assert(self@ =~= old(self)@.cell_part(part@));
        }
    }

    /// The open row ends.
    fn end_row(&mut self)
        ensures
            final(self)@ == (PreviewView {
                rows: old(self)@.rows.push(old(self)@.row),
                row: Seq::empty(),
                ..old(self)@
            }),
            final(self).same_room(*old(self)),
    {
        let ghost before = self.rows@;
        let mut row: Vec<Cell> = Vec::new();
        std::mem::swap(&mut row, &mut self.row);
        self.rows.push(row);
        proof {
            assert(rows_view(self.rows@) =~= rows_view(before).push(row_view(row@)));
            assert(row_view(self.row@) =~= Seq::empty());
            assert(self@ =~= PreviewView {
                rows: old(self)@.rows.push(old(self)@.row),
                row: Seq::empty(),
                ..old(self)@
            });
        }
    }

    /// The open cell ends, and what is open in it.
    fn end_cell(&mut self)
        ensures
            final(self)@ == (PreviewView {
                row: old(self)@.row.push(old(self)@.cell + ends_of(old(self)@.cell_open, 0)),
                cell: Seq::empty(),
                cell_open: Seq::empty(),
                ..old(self)@
            }),
            final(self).same_room(*old(self)),
    {
        let ghost before = self.row@;
        let mut cell: Cell = Vec::new();
        std::mem::swap(&mut cell, &mut self.cell);
        push_ends(&mut cell, &self.cell_open, 0);
        self.cell_open = Vec::new();
        self.row.push(cell);
        proof {
            assert(row_view(self.row@) =~= row_view(before).push(cell_view(cell@)));
            assert(cell_view(self.cell@) =~= Seq::empty());
            assert(cell_view(self.cell_open@) =~= Seq::empty());
            assert(self@ =~= PreviewView {
                row: old(self)@.row.push(old(self)@.cell + ends_of(old(self)@.cell_open, 0)),
                cell: Seq::empty(),
                cell_open: Seq::empty(),
                ..old(self)@
            });
        }
    }

    /// A style or a link starts in the open cell.
    fn cell_start(&mut self, part: CellPart<String>)
        ensures
            final(self)@ == old(self)@.cell_start(part@),
            final(self).same_room(*old(self)),
    {
        let ghost before = self.cell@;
        let ghost open_before = self.cell_open@;
        let copy = copy_cell_part(&part);
        self.cell.push(part);
        self.cell_open.push(copy);
        proof {
            assert(cell_view(self.cell@) =~= cell_view(before).push(part@));
            assert(cell_view(self.cell_open@) =~= cell_view(open_before).push(part@));
            assert(self@ =~= old(self)@.cell_start(part@));
        }
    }

    /// The style or link that a mark ends is over in the open cell.
    fn cell_end(&mut self, end: Mark)
        ensures
            final(self)@ == old(self)@.cell_end(end),
            final(self).same_room(*old(self)),
    {
        close_part(&mut self.cell, &mut self.cell_open, end);
        proof {
            assert(self@ =~= old(self)@.cell_end(end));
        }
    }

    /// Pieces of the open cell that no style and no link reaches.
    fn cell_alone(&mut self, parts: &Cell)
        ensures
            final(self)@ == old(self)@.cell_alone(cell_view(parts@)),
            final(self).same_room(*old(self)),
    {
        push_ends(&mut self.cell, &self.cell_open, 0);
        push_copies(&mut self.cell, parts, 0);
        push_copies(&mut self.cell, &self.cell_open, 0);
        proof {
            assert(cell_view(parts@).skip(0) =~= cell_view(parts@));
            assert(old(self)@.cell_open.skip(0) =~= old(self)@.cell_open);
            assert(self@ =~= old(self)@.cell_alone(cell_view(parts@)));
        }
    }

    /// Math in the open cell, at event `n`.
    fn cell_math(&mut self, latex: &str, n: usize, resolved: Resolved)
        ensures
            final(self)@ == old(self)@.cell_math(latex@, n as int, resolved),
            final(self).same_room(*old(self)),
    {
        match resolved {
            Resolved::Shown => {
                let mut parts: Cell = Vec::new();
                parts.push(CellPart::Math { event: n });
                proof {
                    assert(cell_view(parts@) =~= seq![CellPart::Math { event: n }]);
                }
                self.cell_alone(&parts);
            },
            _ => self.cell_part(CellPart::Code(String::from_str(latex))),
        }
    }

    /// Raw HTML in the open cell.
    fn cell_html(&mut self, html: &str)
        ensures
            final(self)@ == old(self)@.cell_html(html@),
            final(self).same_room(*old(self)),
    {
        let parts = html_parts(html);
        let ghost all = part_views(parts@);
        let ghost first = self@;
        for i in 0..parts.len()
            invariant
                all == part_views(parts@),
                self@ == first.cell_html_parts(all, i as int),
                self.same_room(*old(self)),
        {
            proof {
                assert(all[i as int] == parts@[i as int]@);
            }
            match &parts[i] {
                HtmlPart::Text(text) => self.cell_part(CellPart::Text(text.clone())),
                HtmlPart::StyleStart(style) => self.cell_start(CellPart::Mark(style_mark(*style))),
                HtmlPart::StyleEnd(style) => self.cell_end(style_mark(*style).ended()),
                _ => {},
            }
        }
    }

    /// A reference to a footnote in the open cell.
    fn cell_refer(&mut self, name: &str)
        requires
            old(self).origin <= old(self).text@.len(),
        ensures
            final(self)@ == old(self)@.cell_refer(name@),
            final(self).same_room(*old(self)),
    {
        self.place(Place::Reference(String::from_str(name)));
        let mut url = String::from_str("#");
        url.append("fn:");
        url.append(name);
        let mut text = String::from_str("[");
        text.append(name);
        text.append("]");
        let mut parts: Cell = Vec::new();
        parts.push(CellPart::LinkStart(url));
        parts.push(CellPart::Text(text));
        parts.push(CellPart::Mark(Mark::LinkEnd));
        proof {
            assert(url@ =~= "#"@ + footnote_id_of(name@));
            assert(cell_view(parts@) =~= seq![
                CellPart::LinkStart("#"@ + footnote_id_of(name@)),
                CellPart::Text("["@ + name@ + "]"@),
                CellPart::Mark(Mark::LinkEnd),
            ]);
        }
        self.cell_alone(&parts);
    }

    /// A link starts in the open cell.
    fn cell_link(&mut self, url: &str)
        ensures
            final(self)@ == (if target_of(url@, true) is Nothing {
                old(self)@.cell_start(CellPart::Mark(Mark::UnderlineStart))
            } else {
                old(self)@.cell_start(CellPart::LinkStart(url@))
            }),
            final(self).same_room(*old(self)),
    {
        match link_target(url, true) {
            LinkTarget::Nothing => self.cell_start(CellPart::Mark(Mark::UnderlineStart)),
            _ => self.cell_start(CellPart::LinkStart(String::from_str(url))),
        }
    }

    /// Event `n`, inside a table.
    fn in_table_block(&mut self, event: &DocEvent, n: usize, resolved: Resolved)
        requires
            old(self).origin <= old(self).text@.len(),
        ensures
            final(self)@ == old(self)@.in_table_block(event@, n as int, resolved),
            final(self).same_room(*old(self)),
    {
        match event {
            MdEvent::Start(MdTag::TableHead) => {
                self.row = Vec::new();
                proof {
                    assert(row_view(self.row@) =~= Seq::empty());
                }
            },
            MdEvent::Start(MdTag::TableRow) => {
                self.row = Vec::new();
                proof {
                    assert(row_view(self.row@) =~= Seq::empty());
                }
            },
            MdEvent::Start(MdTag::TableCell) => {
                self.cell = Vec::new();
                self.cell_open = Vec::new();
                proof {
                    assert(cell_view(self.cell@) =~= Seq::empty());
                }
            },
            MdEvent::End(TagEnd::TableHead) => self.end_row(),
            MdEvent::End(TagEnd::TableRow) => self.end_row(),
            MdEvent::End(TagEnd::TableCell) => self.end_cell(),
            MdEvent::Start(MdTag::Strong) => self.cell_start(CellPart::Mark(Mark::BoldStart)),
            MdEvent::End(TagEnd::Strong) => self.cell_end(Mark::BoldEnd),
            MdEvent::Start(MdTag::Emphasis) => self.cell_start(CellPart::Mark(Mark::ItalicStart)),
            MdEvent::End(TagEnd::Emphasis) => self.cell_end(Mark::ItalicEnd),
            MdEvent::Start(MdTag::Strikethrough) => self.cell_start(
                CellPart::Mark(Mark::StrikethroughStart),
            ),
            MdEvent::End(TagEnd::Strikethrough) => self.cell_end(Mark::StrikethroughEnd),
            MdEvent::Start(MdTag::Link { dest_url, .. }) => self.cell_link(dest_url.as_str()),
            MdEvent::End(TagEnd::Link) => {
                let end = match find_open(&self.cell_open, Mark::LinkEnd) {
                    Some(_) => Mark::LinkEnd,
                    None => Mark::UnderlineEnd,
                };
                self.cell_end(end);
            },
            MdEvent::Code(text) => self.cell_part(CellPart::Code(text.clone())),
            MdEvent::InlineMath(latex) => self.cell_math(latex.as_str(), n, resolved),
            MdEvent::DisplayMath(latex) => self.cell_math(latex.as_str(), n, resolved),
            MdEvent::Text(text) => self.cell_part(CellPart::Text(text.clone())),
            MdEvent::Html(html) => self.cell_html(html.as_str()),
            MdEvent::InlineHtml(html) => self.cell_html(html.as_str()),
            MdEvent::FootnoteReference(name) => self.cell_refer(name.as_str()),
            MdEvent::End(TagEnd::Table) => self.end_table(),
            _ => {},
        }
        proof {
            assert(self@ =~= old(self)@.in_table_block(event@, n as int, resolved));
        }
    }

    /// The open table ends.
    fn end_table(&mut self)
        requires
            old(self).origin <= old(self).text@.len(),
        ensures
            final(self)@ == old(self)@.end_table(),
            final(self).same_room(*old(self)),
    {
        self.in_table = false;
        let rows = copy_rows(&self.rows);
        let widget = Widget::Table {
            rows,
            alignments: copy_alignments(&self.alignments),
            lists: self.lists.len(),
            quotes: self.quotes,
        };
        proof {
            assert(self@ =~= PreviewView { in_table: false, ..old(self)@ });
        }
        self.widget_block(widget);
    }
}

/// A copy of a cell.
fn copy_cell(cell: &Cell) -> (copy: Cell)
    ensures
        cell_view(copy@) == cell_view(cell@),
{
    let mut copy: Cell = Vec::new();
    push_copies(&mut copy, cell, 0);
    proof {
        assert(cell_view(copy@) =~= cell_view(cell@));
    }
    copy
}

/// A copy of the rows of a table.
fn copy_rows(rows: &Vec<Vec<Cell>>) -> (copy: Vec<Vec<Cell>>)
    ensures
        rows_view(copy@) == rows_view(rows@),
{
    let mut copy: Vec<Vec<Cell>> = Vec::new();
    for i in 0..rows.len()
        invariant
            rows_view(copy@) == rows_view(rows@).take(i as int),
    {
        let row = &rows[i];
        let mut cells: Vec<Cell> = Vec::new();
        for j in 0..row.len()
            invariant
                row_view(cells@) == row_view(row@).take(j as int),
        {
            let cell = copy_cell(&row[j]);
            proof {
                assert(row_view(cells@.push(cell)) =~= row_view(cells@).push(cell_view(cell@)));
                assert(row_view(row@).take(j + 1) =~= row_view(row@).take(j as int).push(
                    cell_view(row@[j as int]@),
                ));
            }
            cells.push(cell);
        }
        proof {
            assert(row_view(row@).take(row@.len() as int) =~= row_view(row@));
            assert(rows_view(copy@.push(cells)) =~= rows_view(copy@).push(row_view(cells@)));
            assert(rows_view(rows@).take(i + 1) =~= rows_view(rows@).take(i as int).push(
                row_view(rows@[i as int]@),
            ));
        }
        copy.push(cells);
    }
    proof {
        assert(rows_view(rows@).take(rows@.len() as int) =~= rows_view(rows@));
    }
    copy
}

impl Preview {
    /// Links can lead here.
    fn place(&mut self, place: Place<String>)
        requires
            old(self).origin <= old(self).text@.len(),
        ensures
            final(self)@ == old(self)@.place(place@),
            final(self).same_room(*old(self)),
    {
        let ghost before = self.places@;
        let item = (place, self.text.len() - self.origin);
        proof {
            assert(place_views(before.push(item)) =~= place_views(before).push(
                (place@, item.1 as int),
            ));
        }
        self.places.push(item);
        proof {
            assert(self@ =~= old(self)@.place(place@));
        }
    }

    /// A quote starts.
    fn start_quote(&mut self, kind: Option<BlockQuoteKind>)
        requires
            old(self).origin <= old(self).text@.len(),
            old(self).quotes < usize::MAX,
        ensures
            final(self)@ == old(self)@.start_quote(kind),
            final(self).origin == old(self).origin,
            final(self).text@.len() >= old(self).text@.len(),
            final(self).lists == old(self).lists,
            final(self).quotes == old(self).quotes + 1,
    {
        let alert = match kind {
            Some(kind) => Some(Alert::from_kind(kind)),
            None => None,
        };
        if self.quotes == 0 {
            self.place(Place::Quote(alert));
        }
        let ghost placed = self@;
        self.quotes = self.quotes + 1;
        proof {
            assert(self@ =~= PreviewView { quotes: old(self)@.quotes + 1, ..placed });
        }
        self.open_tag(TextTag::Quote(self.quotes));
        if let Some(alert) = alert {
            self.open_tag(TextTag::Alert(alert));
        }
    }

    /// A quote ends.
    fn end_quote(&mut self)
        requires
            old(self).origin <= old(self).text@.len(),
        ensures
            final(self)@ == old(self)@.end_quote(),
            final(self).origin == old(self).origin,
            final(self).origin <= final(self).text@.len(),
            final(self).lists == old(self).lists,
            final(self).quotes <= old(self).quotes,
    {
        if self.quotes == 1 {
            let len = self.text.len();
            let breaks: usize = if len == 0 || self.text[len - 1] != '\n' {
                0
            } else if len == 1 || self.text[len - 2] != '\n' {
                1
            } else {
                2
            };
            let item = (Place::QuoteEnd, distance(len - self.origin, breaks));
            proof {
                assert(place_views(self.places@.push(item)) =~= place_views(self.places@).push(
                    (Place::QuoteEnd, item.1 as int),
                ));
            }
            self.places.push(item);
        }
        drop_tags(&mut self.tags, Some(TextTag::Quote(self.quotes)));
        if self.quotes > 0 {
            self.quotes = self.quotes - 1;
        }
        proof {
            let was = old(self)@;
            assert(self@ =~= PreviewView {
                tags: kept_tags(was.tags, Some(TextTag::Quote(was.quotes as usize))),
                quotes: if was.quotes > 0 {
                    was.quotes - 1
                } else {
                    0
                },
                places: if was.quotes == 1 {
                    was.places.push((Place::QuoteEnd, was.text_end()))
                } else {
                    was.places
                },
                ..was
            });
        }
        self.end_block();
    }

    /// More text with the given tags, which is a link.
    fn insert_link(&mut self, text: &str, tags: Vec<TextTag>, url: String)
        requires
            old(self).origin <= old(self).text@.len(),
        ensures
            final(self)@ == old(self)@.insert_link(text@, tags@, url@),
            final(self).same_room(*old(self)),
    {
        let start = self.text.len() - self.origin;
        self.insert(text, tags);
        let ghost before = self.links@;
        let item = (start, self.text.len() - self.origin, url);
        proof {
            assert(link_views(before.push(item)) =~= link_views(before).push(
                (start as int, item.1 as int, url@),
            ));
        }
        self.links.push(item);
        proof {
            assert(self@ =~= old(self)@.insert_link(text@, tags@, url@));
        }
    }

    /// The open footnote ends.
    fn end_note(&mut self)
        requires
            old(self).origin <= old(self).text@.len(),
        ensures
            final(self)@ == old(self)@.end_note(),
            final(self).same_room(*old(self)),
    {
        match self.note.take() {
            Some(name) => {
                proof {
                    assert(self@ =~= PreviewView { note: None, ..old(self)@ });
                }
                let mut tags: Vec<TextTag> = Vec::new();
                tags.push(TextTag::Link);
                let mut url = String::from_str("#");
                url.append("fnref:");
                url.append(name.as_str());
                proof {
                    assert(tags@ =~= seq![TextTag::Link]);
                    assert(url@ =~= "#"@ + reference_id_of(name@));
                }
                self.insert_link("\u{21a9}", tags, url);
                self.end_block();
            },
            None => {
                proof {
                    assert(self@ =~= old(self)@);
                }
            },
        }
    }

    /// A tag is open.
    fn open_tag(&mut self, tag: TextTag)
        ensures
            final(self)@ == old(self)@.open_tag(tag),
            final(self).same_room(*old(self)),
    {
        self.tags.push(tag);
        proof {
            assert(self@ =~= old(self)@.open_tag(tag));
        }
    }

    /// The innermost `tag` is no longer open.
    fn shut_tag(&mut self, tag: TextTag)
        ensures
            final(self)@ == old(self)@.shut_tag(tag),
            final(self).same_room(*old(self)),
    {
        close_tag(&mut self.tags, tag);
        proof {
            assert(self@ =~= old(self)@.shut_tag(tag));
        }
    }

    /// An image starts at event `n`.
    fn start_image(&mut self, n: usize, resolved: Resolved)
        requires
            old(self).origin <= old(self).text@.len(),
        ensures
            final(self)@ == old(self)@.start_image(n as int, resolved),
            final(self).same_room(*old(self)),
    {
        let shown = resolved == Resolved::Shown;
        self.image = Some((shown, n, String::new()));
        let ghost before = self.images@;
        if resolved != Resolved::Elsewhere {
            self.images.push(n);
            proof {
                assert(number_views(before.push(n)) =~= number_views(before).push(n as int));
            }
        }
        let ghost next = PreviewView {
            image: Some((resolved is Shown, n as int, Seq::empty())),
            images: if resolved is Elsewhere {
                old(self)@.images
            } else {
                old(self)@.images.push(n as int)
            },
            ..old(self)@
        };
        proof {
            assert(self@ =~= next);
        }
        if shown {
            self.anchor(Widget::Picture { event: n });
        }
    }

    /// Event `n` starts a tag.
    fn start(&mut self, tag: &crate::event::DocTag, n: usize, resolved: Resolved)
        requires
            old(self).fits(n as nat),
            n < usize::MAX,
        ensures
            final(self)@ == old(self)@.start(tag@, n as int, resolved),
            final(self).fits((n + 1) as nat),
    {
        match tag {
            MdTag::CodeBlock(info) => {
                self.in_code = true;
                self.code = String::new();
                self.code_info = match info {
                    Some(info) => info.clone(),
                    None => String::new(),
                };
                proof {
                    assert(self@ =~= old(self)@.start(tag@, n as int, resolved));
                }
            },
            MdTag::Table(alignments) => {
                self.in_table = true;
                self.rows = Vec::new();
                self.alignments = copy_alignments(alignments);
                proof {
                    assert(rows_view(self.rows@) =~= Seq::empty());
                    assert(self@ =~= old(self)@.start(tag@, n as int, resolved));
                }
            },
            MdTag::Heading { level, .. } => {
                let tag = match level {
                    HeadingLevel::H1 => TextTag::Heading(1),
                    HeadingLevel::H2 => TextTag::Heading(2),
                    HeadingLevel::H3 => TextTag::Heading(3),
                    _ => TextTag::Heading(4),
                };
                self.place(Place::Heading);
                self.open_tag(tag);
            },
            MdTag::Strong => self.open_tag(TextTag::Bold),
            MdTag::Emphasis => self.open_tag(TextTag::Italic),
            MdTag::Strikethrough => self.open_tag(TextTag::Strikethrough),
            MdTag::Link { dest_url, .. } => {
                let at = self.text.len() - self.origin;
                let ghost before = self.link_starts@;
                self.open_tag(TextTag::Link);
                let item = (dest_url.clone(), at);
                proof {
                    assert(start_views(before.push(item)) =~= start_views(before).push(
                        (dest_url@, at as int),
                    ));
                }
                self.link_starts.push(item);
                proof {
                    assert(self@ =~= old(self)@.start(tag@, n as int, resolved));
                }
            },
            MdTag::Image { .. } => self.start_image(n, resolved),
            MdTag::BlockQuote(kind) => self.start_quote(*kind),
            MdTag::List(first) => {
                self.start_line();
                let depth = self.lists.len();
                let number: Option<u128> = match first {
                    Some(first) => Some(*first as u128),
                    None => None,
                };
                let ghost line = self@;
                self.lists.push(number);
                proof {
                    assert(self@ =~= PreviewView { lists: line.lists.push(number), ..line });
                }
                self.open_tag(TextTag::List(depth));
            },
            MdTag::Item => {
                let marker = list_marker(&mut self.lists);
                proof {
                    assert(self@ =~= PreviewView {
                        lists: lists_after_item(old(self)@.lists),
                        ..old(self)@
                    });
                    assert forall|i: int|
                        0 <= i < self.lists@.len() && #[trigger] self.lists@[i] is Some implies
                        self.lists@[i]->0 <= u64::MAX + (n + 1) as nat by {
                        assert(old(self).lists@[i] is Some);
                    }
                }
                let tags = copy_tags(Some(TextTag::Bold), &self.tags);
                self.insert(marker.as_str(), tags);
            },
            MdTag::FootnoteDefinition(label) => {
                self.end_block();
                self.place(Place::Note(label.clone()));
                let ghost before = self@;
                self.note = Some(label.clone());
                proof {
                    assert(self@ =~= PreviewView { note: Some(label@), ..before });
                }
                let mut text = String::from_str("[");
                text.append(label.as_str());
                text.append("]: ");
                let mut tags: Vec<TextTag> = Vec::new();
                tags.push(TextTag::Bold);
                proof {
                    assert(tags@ =~= seq![TextTag::Bold]);
                }
                self.insert(text.as_str(), tags);
            },
            MdTag::DefinitionListTitle => {
                self.start_line();
                self.open_tag(TextTag::Bold);
            },
            MdTag::DefinitionListDefinition => self.start_line(),
            _ => {},
        }
    }

    /// The open image ends.
    fn end_image(&mut self)
        requires
            old(self).origin <= old(self).text@.len(),
        ensures
            final(self)@ == old(self)@.end_image(),
            final(self).same_room(*old(self)),
    {
        let image = self.image.take();
        proof {
            assert(self@ =~= PreviewView { image: None, ..old(self)@ });
        }
        if let Some((shown, event, alt)) = image {
            if !alt.as_str().is_empty() {
                if shown {
                    let ghost before = self.alts@;
                    let item = (event, alt);
                    proof {
                        assert(alt_views(before.push(item)) =~= alt_views(before).push(
                            (event as int, alt@),
                        ));
                    }
                    self.alts.push(item);
                    proof {
                        assert(self@ =~= old(self)@.end_image());
                    }
                } else {
                    let tags = copy_tags(Some(TextTag::ImageAlt), &self.tags);
                    self.insert(alt.as_str(), tags);
                }
            }
        }
    }

    /// A tag ends.
    fn end(&mut self, tag: TagEnd, Ghost(n): Ghost<nat>)
        requires
            old(self).fits(n),
        ensures
            final(self)@ == old(self)@.end(tag),
            final(self).fits(n),
    {
        match tag {
            TagEnd::Heading(_) | TagEnd::Paragraph => {
                drop_tags(&mut self.tags, None);
                proof {
                    assert(self@ =~= PreviewView {
                        tags: kept_tags(old(self)@.tags, None),
                        ..old(self)@
                    });
                }
                self.end_block();
            },
            TagEnd::Strong => self.shut_tag(TextTag::Bold),
            TagEnd::Emphasis => self.shut_tag(TextTag::Italic),
            TagEnd::Strikethrough => self.shut_tag(TextTag::Strikethrough),
            TagEnd::Link => {
                self.shut_tag(TextTag::Link);
                let ghost starts = self.link_starts@;
                let ghost links = self.links@;
                match self.link_starts.pop() {
                    Some((url, start)) => {
                        let item = (start, self.text.len() - self.origin, url);
                        proof {
                            assert(start_views(starts).last() == (url@, start as int));
                            assert(start_views(self.link_starts@) =~= start_views(
                                starts,
                            ).drop_last());
                            assert(link_views(links.push(item)) =~= link_views(links).push(
                                (start as int, item.1 as int, url@),
                            ));
                        }
                        self.links.push(item);
                    },
                    None => {},
                }
                proof {
                    assert(self@ =~= old(self)@.end(tag));
                }
            },
            TagEnd::Image => self.end_image(),
            TagEnd::BlockQuote(_) => self.end_quote(),
            TagEnd::List(_) => {
                let depth: usize = if self.lists.len() > 0 {
                    self.lists.len() - 1
                } else {
                    0
                };
                drop_tags(&mut self.tags, Some(TextTag::List(depth)));
                let _ = self.lists.pop();
                proof {
                    assert(self.lists@ =~= old(self).lists@.take(depth as int));
                    assert(self@ =~= PreviewView {
                        tags: kept_tags(old(self)@.tags, Some(TextTag::List(depth))),
                        lists: old(self)@.lists.take(depth as int),
                        ..old(self)@
                    });
                }
                if depth == 0 {
                    self.end_block();
                }
            },
            TagEnd::Item => self.start_line(),
            TagEnd::FootnoteDefinition => self.end_note(),
            TagEnd::DefinitionListTitle => {
                self.shut_tag(TextTag::Bold);
                self.start_line();
            },
            TagEnd::DefinitionListDefinition => self.end_block(),
            _ => {},
        }
    }

    /// Text outside code blocks and tables: in an image it is alternative text.
    fn say(&mut self, text: &str, first: Option<TextTag>)
        requires
            old(self).origin <= old(self).text@.len(),
        ensures
            final(self)@ == old(self)@.say(
                text@,
                match first {
                    Some(first) => seq![first] + old(self)@.tags,
                    None => old(self)@.tags,
                },
            ),
            final(self).same_room(*old(self)),
    {
        match self.image.take() {
            Some((shown, event, alt)) => {
                let mut alt = alt;
                alt.append(text);
                self.image = Some((shown, event, alt));
                proof {
                    assert(self@ =~= old(self)@.say(
                        text@,
                        match first {
                            Some(first) => seq![first] + old(self)@.tags,
                            None => old(self)@.tags,
                        },
                    ));
                }
            },
            None => {
                proof {
                    assert(self@ =~= old(self)@);
                }
                let tags = copy_tags(first, &self.tags);
                self.insert(text, tags);
            },
        }
    }

    /// Math outside code blocks and tables, at event `n`.
    fn math(&mut self, latex: &str, n: usize, display: bool, resolved: Resolved)
        requires
            old(self).origin <= old(self).text@.len(),
        ensures
            final(self)@ == old(self)@.math(latex@, n as int, display, resolved),
            final(self).same_room(*old(self)),
    {
        if resolved == Resolved::Shown && self.image.is_none() {
            let widget = Widget::Math { event: n, display };
            if display {
                self.start_line();
                self.anchor(widget);
                self.start_line();
            } else {
                self.anchor(widget);
            }
        } else {
            self.say(latex, Some(TextTag::Code));
        }
    }

    /// A part of raw HTML outside code blocks and tables.
    fn say_part(&mut self, part: &HtmlPart<String>)
        requires
            old(self).origin <= old(self).text@.len(),
        ensures
            final(self)@ == old(self)@.say_part(part@),
            final(self).same_room(*old(self)),
    {
        match part {
            HtmlPart::Text(text) => {
                if !text.as_str().is_empty() {
                    self.say(text.as_str(), None);
                }
            },
            HtmlPart::StyleStart(style) => self.open_tag(style_tag(*style)),
            HtmlPart::StyleEnd(style) => self.shut_tag(style_tag(*style)),
            _ => {
                if self.image.is_none() {
                    self.start_line();
                    self.lay(part);
                }
            },
        }
    }

    /// The innermost open block of raw HTML ends, and its alignment with it.
    fn drop_html(&mut self)
        requires
            old(self).origin <= old(self).text@.len(),
            old(self).html@.len() > 0,
        ensures
            final(self)@ == old(self)@.drop_html(),
            final(self).same_room(*old(self)),
    {
        let ghost before = self@;
        if let Some(block) = self.html.pop() {
            proof {
                assert(self@ =~= PreviewView { html: before.html.drop_last(), ..before });
            }
            if let Some(align) = block.align {
                self.shut_tag(TextTag::Align(align));
            }
        }
    }

    /// Whether a paragraph of raw HTML is the innermost open block.
    fn in_html_paragraph(&self) -> (inside: bool)
        ensures
            inside == self@.in_html_paragraph(),
    {
        self.html.len() > 0 && self.html[self.html.len() - 1].paragraph
    }

    /// A block of raw HTML starts, which ends an open paragraph.
    fn open_html(&mut self, block: HtmlBlock)
        requires
            old(self).origin <= old(self).text@.len(),
        ensures
            final(self)@ == old(self)@.open_html(block),
            final(self).same_room(*old(self)),
    {
        if self.in_html_paragraph() {
            self.drop_html();
        }
        let ghost around = self@;
        self.html.push(block);
        proof {
            assert(self@ =~= PreviewView { html: around.html.push(block), ..around });
        }
        if let Some(align) = block.align {
            self.open_tag(TextTag::Align(align));
        }
    }

    /// A block of raw HTML ends, and a paragraph that is still open in it.
    fn close_html(&mut self, paragraph: bool)
        requires
            old(self).origin <= old(self).text@.len(),
        ensures
            final(self)@ == old(self)@.close_html(paragraph),
            final(self).same_room(*old(self)),
    {
        if self.in_html_paragraph() {
            self.drop_html();
        }
        if !paragraph && self.html.len() > 0 {
            self.drop_html();
        }
    }

    /// What a part of raw HTML other than text and text styles does once it has started a line.
    fn lay(&mut self, part: &HtmlPart<String>)
        requires
            old(self).origin <= old(self).text@.len(),
        ensures
            final(self)@ == old(self)@.lay(part@),
            final(self).same_room(*old(self)),
    {
        match part {
            HtmlPart::BlockStart(block) => self.open_html(*block),
            HtmlPart::BlockEnd { paragraph } => self.close_html(*paragraph),
            HtmlPart::DetailsStart { open } => self.place(Place::Details(*open)),
            HtmlPart::SummaryStart => self.open_tag(TextTag::Summary),
            HtmlPart::SummaryEnd => {
                self.shut_tag(TextTag::Summary);
                self.place(Place::Content);
            },
            HtmlPart::DetailsEnd => self.place(Place::DetailsEnd),
            _ => {},
        }
    }

    /// Raw HTML outside code blocks and tables, a block of it or a piece in a line.
    fn say_html(&mut self, html: &str, block: bool)
        requires
            old(self).origin <= old(self).text@.len(),
        ensures
            final(self)@ == old(self)@.say_html(html@, block),
            final(self).same_room(*old(self)),
    {
        let parts = html_parts(html);
        let silent = block && holds_markup(html);
        let ghost before = self@;
        let ghost all = part_views(parts@);
        for i in 0..parts.len()
            invariant
                all == part_views(parts@),
                self@ == before.say_parts(all, i as int, silent),
                self.origin <= self.text@.len(),
                self.same_room(*old(self)),
        {
            proof {
                assert(all[i as int] == parts@[i as int]@);
            }
            match &parts[i] {
                HtmlPart::Text(_) if silent => {},
                part => self.say_part(part),
            }
        }
    }

    /// Event `n` comes in.
    pub fn step(&mut self, event: &DocEvent, n: usize, resolved: Resolved)
        requires
            old(self).fits(n as nat),
            n < usize::MAX,
        ensures
            final(self)@ == old(self)@.step(event@, n as int, resolved),
            final(self).fits((n + 1) as nat),
    {
        if self.in_code {
            self.in_code_block(event);
        } else if self.in_table {
            self.in_table_block(event, n, resolved);
        } else {
            match event {
                MdEvent::Start(tag) => self.start(tag, n, resolved),
                MdEvent::End(tag) => self.end(*tag, Ghost(n as nat)),
                MdEvent::Text(text) => self.say(text.as_str(), None),
                MdEvent::Code(text) => self.say(text.as_str(), Some(TextTag::Code)),
                MdEvent::InlineMath(latex) => self.math(latex.as_str(), n, false, resolved),
                MdEvent::DisplayMath(latex) => self.math(latex.as_str(), n, true, resolved),
                MdEvent::Html(html) => self.say_html(html.as_str(), true),
                MdEvent::InlineHtml(html) => self.say_html(html.as_str(), false),
                MdEvent::FootnoteReference(name) => {
                    let mut text = String::from_str("[");
                    text.append(name.as_str());
                    text.append("]");
                    let mut tags: Vec<TextTag> = Vec::new();
                    tags.push(TextTag::Footnote);
                    let mut url = String::from_str("#");
                    url.append("fn:");
                    url.append(name.as_str());
                    proof {
                        assert(tags@ =~= seq![TextTag::Footnote]);
                        assert(url@ =~= "#"@ + footnote_id_of(name@));
                    }
                    self.place(Place::Reference(name.clone()));
                    self.insert_link(text.as_str(), tags, url);
                },
                MdEvent::TaskListMarker(checked) => {
                    let tags = copy_tags(Some(TextTag::Bold), &self.tags);
                    self.place(Place::Box);
                    if *checked {
                        self.insert("\u{25a0} ", tags);
                    } else {
                        self.insert("\u{25a1} ", tags);
                    }
                },
                MdEvent::Rule => {
                    self.anchor(Widget::Rule);
                    self.end_block();
                },
                MdEvent::SoftBreak => self.say(" ", None),
                MdEvent::HardBreak => {
                    if self.image.is_some() {
                        self.say(" ", None);
                    } else {
                        let tags = copy_tags(None, &self.tags);
                        self.insert("\n", tags);
                    }
                },
            }
        }
    }
}

/// What a block rendered to: where its text starts and ends, its links, its widgets and the
/// places in it that links lead to, with offsets from its start, and the images of it that lead
/// to a file, as contracts speak of it.
#[verifier::ext_equal]
pub struct BlockView {
    pub start: int,
    pub end: int,
    pub links: Seq<(int, int, Seq<char>)>,
    pub widgets: Seq<(int, WidgetView)>,
    pub places: Seq<(PlaceView, int)>,
    pub images: Seq<int>,
}

/// What a block rendered to: where its text starts and ends, its links, its widgets and the
/// places in it that links lead to, with offsets from its start, and the images of it that lead
/// to a file.
#[derive(Debug, PartialEq)]
pub struct BlockOut {
    pub start: usize,
    pub end: usize,
    pub links: Vec<(usize, usize, String)>,
    pub widgets: Vec<(usize, Widget)>,
    pub places: Vec<(Place<String>, usize)>,
    pub images: Vec<usize>,
}

impl View for BlockOut {
    type V = BlockView;

    open spec fn view(&self) -> BlockView {
        BlockView {
            start: self.start as int,
            end: self.end as int,
            links: link_views(self.links@),
            widgets: widget_views(self.widgets@),
            places: place_views(self.places@),
            images: number_views(self.images@),
        }
    }
}

/// How far `at` is after `start`, or 0 if it is not after it.
pub open spec fn from_start(at: int, start: int) -> int {
    if at >= start {
        at - start
    } else {
        0
    }
}

/// How far `at` is after `start`, or 0 if it is not after it.
fn distance(at: usize, start: usize) -> (by: usize)
    ensures
        by == from_start(at as int, start as int),
{
    if at >= start {
        at - start
    } else {
        0
    }
}

impl PreviewView {
    /// What the block has rendered to.
    pub open spec fn block(self) -> BlockView {
        BlockView {
            start: 0,
            end: self.end_block().offset(),
            links: self.links,
            widgets: self.widgets,
            places: self.places,
            images: self.images,
        }
    }
}

impl Preview {
    /// The counters have no less room later on.
    pub proof fn fits_later(self, n: nat, m: nat)
        requires
            self.fits(n),
            n <= m,
        ensures
            self.fits(m),
    {
    }

    /// The text of a block that has ended, its tagged stretches, the alternative texts of its
    /// pictures, and what it has rendered to.
    pub fn finish(self, Ghost(n): Ghost<nat>) -> (out: (
        String,
        Vec<(usize, usize, Vec<TextTag>)>,
        Vec<(usize, String)>,
        BlockOut,
    ))
        requires
            self.fits(n),
        ensures
            out.0@ == self@.end_block().text.skip(self@.origin),
            span_views(out.1@) == self@.spans,
            alt_views(out.2@) == self@.alts,
            out.3@ == self@.block(),
    {
        let ghost state = self@;
        let mut preview = self;
        preview.end_block();
        let end = preview.text.len() - preview.origin;
        let text = text_of(&preview.text, preview.origin, preview.text.len());
        let block = BlockOut {
            start: 0,
            end,
            links: preview.links,
            widgets: preview.widgets,
            places: preview.places,
            images: preview.images,
        };
        proof {
            assert(text@ =~= state.end_block().text.skip(state.origin));
            assert(block@ =~= state.block());
        }
        (text, preview.spans, preview.alts, block)
    }
}

/// A copy of a place.
pub fn copy_place(place: &Place<String>) -> (copy: Place<String>)
    ensures
        copy@ == place@,
{
    match place {
        Place::Heading => Place::Heading,
        Place::Note(name) => Place::Note(name.clone()),
        Place::Reference(name) => Place::Reference(name.clone()),
        Place::Box => Place::Box,
        Place::Quote(alert) => Place::Quote(*alert),
        Place::QuoteEnd => Place::QuoteEnd,
        Place::Details(open) => Place::Details(*open),
        Place::Content => Place::Content,
        Place::DetailsEnd => Place::DetailsEnd,
    }
}

}
