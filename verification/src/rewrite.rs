//! The events of an exported page: a document's events with the raw HTML, links, images, code
//! blocks, math and footnotes written the way the page shows them.

use crate::event::{copy_event, DocEvent, EventView, MdEvent, MdTag};
use crate::export::{
    code_block_html, code_html, escape_html, escaped, sanitize_export_url, sanitized, CodeRun,
};
use crate::html::{
    html_parts, part_views, parts_of, HtmlAlign, HtmlBlock, HtmlPart, HtmlStyle, PartView,
};
use crate::text::{
    chars_of, cut_end, drop_end, has_at, lower_chars, lowered, push_decimal, same, spread, starts_with,
    text_of, texts, trim, trimmed,
};
use pulldown_cmark::TagEnd;
use vstd::prelude::*;
use vstd::string::*;

verus! {

/// An element of raw HTML the export writes again, other than a style.
#[derive(Debug, Clone, Copy, PartialEq, Eq, Structural)]
pub enum Opened {
    /// A `<div>`, for a `<p>` if `paragraph`.
    Block { paragraph: bool },
    Details,
}

/// The end tag of an element.
pub open spec fn end_tag(element: Opened) -> Seq<char> {
    match element {
        Opened::Block { .. } => "</div>"@,
        Opened::Details => "</details>"@,
    }
}

/// The end tags of `elements`, in their order.
pub open spec fn end_tags_of(elements: Seq<Opened>) -> Seq<char>
    decreases elements.len(),
{
    if elements.len() == 0 {
        Seq::empty()
    } else {
        end_tags_of(elements.drop_last()) + end_tag(elements.last())
    }
}

/// The end tags of `elements`, in their order.
pub fn end_tags(elements: &Vec<Opened>) -> (tags: String)
    ensures
        tags@ == end_tags_of(elements@),
{
    let mut tags = String::new();
    for i in 0..elements.len()
        invariant
            tags@ == end_tags_of(elements@.take(i as int)),
    {
        proof {
            assert(elements@.take(i + 1).drop_last() =~= elements@.take(i as int));
        }
        match elements[i] {
            Opened::Block { .. } => tags.append("</div>"),
            Opened::Details => tags.append("</details>"),
        }
    }
    proof {
        assert(elements@.take(elements@.len() as int) =~= elements@);
    }
    tags
}

/// The end tags of the styles raw HTML left open, innermost first.
pub open spec fn style_ends(styles: Seq<HtmlStyle>) -> Seq<char>
    decreases styles.len(),
{
    if styles.len() == 0 {
        Seq::empty()
    } else {
        "</"@ + styles.last().name() + ">"@ + style_ends(styles.drop_last())
    }
}

/// The start tags of styles, outermost first.
pub open spec fn style_starts(styles: Seq<HtmlStyle>) -> Seq<char>
    decreases styles.len(),
{
    if styles.len() == 0 {
        Seq::empty()
    } else {
        style_starts(styles.drop_last()) + ("<"@ + styles.last().name() + ">"@)
    }
}

/// The end tags of the styles raw HTML left open, innermost first; none is open afterwards.
pub fn close_styles(styles: &mut Vec<HtmlStyle>) -> (tags: String)
    ensures
        tags@ == style_ends(old(styles)@),
        final(styles)@.len() == 0,
{
    let ghost all = styles@;
    let mut tags = String::new();
    proof {
        assert(tags@ + style_ends(styles@) =~= style_ends(styles@));
    }
    while styles.len() > 0
        invariant
            tags@ + style_ends(styles@) == style_ends(all),
        decreases styles@.len(),
    {
        let ghost before = tags@;
        let ghost rest = styles@;
        match styles.pop() {
            Some(style) => {
                tags.append("</");
                tags.append(style.element());
                tags.append(">");
                proof {
                    assert(before + ("</"@ + style.name() + ">"@ + style_ends(rest.drop_last()))
                        =~= tags@ + style_ends(styles@));
                }
            },
            None => {},
        }
    }
    proof {
        assert(tags@ + Seq::<char>::empty() =~= tags@);
    }
    tags
}

/// The elements of raw HTML that are open, each with how many containers of the document
/// were open when it was, and how many are open now.
#[verifier::ext_equal]
pub struct OpenView {
    pub depth: int,
    pub open: Seq<(usize, Opened)>,
}

/// The elements of raw HTML that are open, innermost last. An element opened inside a
/// container of the document, a quote or an item, ends with it at the latest.
#[derive(Debug)]
pub struct OpenHtml {
    pub depth: usize,
    pub open: Vec<(usize, Opened)>,
}

impl View for OpenHtml {
    type V = OpenView;

    open spec fn view(&self) -> OpenView {
        OpenView { depth: self.depth as int, open: self.open@ }
    }
}

/// The elements past the first `keep`, innermost first.
pub open spec fn closed_past(open: Seq<(usize, Opened)>, keep: int) -> Seq<Opened>
    decreases open.len(),
{
    if open.len() <= keep || open.len() == 0 {
        Seq::empty()
    } else {
        seq![open.last().1] + closed_past(open.drop_last(), keep)
    }
}

/// How many containers are open after an event. A block of raw HTML holds nothing but the
/// raw HTML.
pub open spec fn depth_after(depth: int, event: EventView) -> int {
    match event {
        MdEvent::Start(MdTag::HtmlBlock) => depth,
        MdEvent::Start(_) => depth + 1,
        MdEvent::End(TagEnd::HtmlBlock) => depth,
        MdEvent::End(_) => if depth > 0 {
            depth - 1
        } else {
            depth
        },
        _ => depth,
    }
}

/// How many of `open` were opened no deeper than `depth`, from the outermost on.
pub open spec fn kept_above(open: Seq<(usize, Opened)>, depth: int) -> int
    decreases open.len(),
{
    if open.len() > 0 && open.last().0 > depth {
        kept_above(open.drop_last(), depth)
    } else {
        open.len() as int
    }
}

/// How many of `open` stay when the innermost `wanted` of the current container ends, with
/// all that is open in it.
pub open spec fn kept_across(open: Seq<(usize, Opened)>, depth: int, wanted: Opened) -> Option<int>
    decreases open.len(),
{
    if open.len() == 0 || open.last().0 != depth {
        None
    } else if open.last().1 == wanted {
        Some(open.len() - 1)
    } else {
        kept_across(open.drop_last(), depth, wanted)
    }
}

/// How many of `open` stay when the innermost elements of the current container that are
/// `wanted` end.
pub open spec fn kept_within(open: Seq<(usize, Opened)>, depth: int, wanted: Opened) -> int
    decreases open.len(),
{
    if open.len() > 0 && open.last().0 == depth && open.last().1 == wanted {
        kept_within(open.drop_last(), depth, wanted)
    } else {
        open.len() as int
    }
}

impl OpenView {
    /// How many elements stay open after an event.
    pub open spec fn kept_after(self, event: EventView) -> int {
        kept_above(self.open, depth_after(self.depth, event))
    }

    /// What an event ends, innermost first.
    pub open spec fn ended_by(self, event: EventView) -> Seq<Opened> {
        closed_past(self.open, self.kept_after(event))
    }

    /// What is open after an event.
    pub open spec fn after(self, event: EventView) -> OpenView {
        OpenView {
            depth: depth_after(self.depth, event),
            open: self.open.take(self.kept_after(event)),
        }
    }

    /// How many elements stay open when the element `wanted` ends, across the elements
    /// opened in it or only if none is.
    pub open spec fn kept_without(self, across: bool, wanted: Opened) -> int {
        if across {
            match kept_across(self.open, self.depth, wanted) {
                Some(keep) => keep,
                None => self.open.len() as int,
            }
        } else {
            kept_within(self.open, self.depth, wanted)
        }
    }

    /// What ends when the element `wanted` does, innermost first.
    pub open spec fn ended_with(self, across: bool, wanted: Opened) -> Seq<Opened> {
        closed_past(self.open, self.kept_without(across, wanted))
    }

    /// What is open once the element `wanted` has ended.
    pub open spec fn without(self, across: bool, wanted: Opened) -> OpenView {
        OpenView { open: self.open.take(self.kept_without(across, wanted)), ..self }
    }

    /// What is open once one more element is.
    pub open spec fn with(self, element: Opened) -> OpenView {
        OpenView { open: self.open.push((self.depth as usize, element)), ..self }
    }
}

impl OpenHtml {
    /// Nothing is open.
    pub fn new() -> (open: Self)
        ensures
            open@ == (OpenView { depth: 0, open: Seq::empty() }),
    {
        OpenHtml { depth: 0, open: Vec::new() }
    }

    /// End the elements past the first `keep`.
    fn cut(&mut self, keep: usize) -> (closed: Vec<Opened>)
        requires
            keep <= old(self).open@.len(),
        ensures
            closed@ == closed_past(old(self).open@, keep as int),
            final(self)@ == (OpenView { open: old(self).open@.take(keep as int), ..old(self)@ }),
            final(self).depth == old(self).depth,
    {
        let ghost all = self.open@;
        let mut closed: Vec<Opened> = Vec::new();
        proof {
            assert(closed@ + closed_past(all, keep as int) =~= closed_past(all, keep as int));
            assert(all =~= all.take(all.len() as int));
        }
        while self.open.len() > keep
            invariant
                keep <= self.open@.len() <= all.len(),
                self.open@ == all.take(self.open@.len() as int),
                self.depth == old(self).depth,
                closed@ + closed_past(self.open@, keep as int) == closed_past(all, keep as int),
            decreases self.open@.len(),
        {
            let ghost before = closed@;
            let ghost open = self.open@;
            match self.open.pop() {
                Some((_, element)) => {
                    closed.push(element);
                    proof {
                        assert(open.drop_last() =~= self.open@);
                        assert(before + (seq![element] + closed_past(self.open@, keep as int))
                            =~= closed@ + closed_past(self.open@, keep as int));
                    }
                },
                None => {},
            }
        }
        proof {
            assert(closed@ + Seq::<Opened>::empty() =~= closed@);
        }
        closed
    }

    /// Follow the document by one event, and end the elements it ends.
    pub fn follow(&mut self, event: &DocEvent) -> (closed: Vec<Opened>)
        requires
            old(self).depth < usize::MAX,
        ensures
            closed@ == old(self)@.ended_by(event@),
            final(self)@ == old(self)@.after(event@),
            final(self).depth <= old(self).depth + 1,
    {
        match event {
            MdEvent::Start(MdTag::HtmlBlock) => {},
            MdEvent::Start(_) => {
                self.depth = self.depth + 1;
            },
            MdEvent::End(TagEnd::HtmlBlock) => {},
            MdEvent::End(_) => {
                if self.depth > 0 {
                    self.depth = self.depth - 1;
                }
            },
            _ => {},
        }
        let ghost all = self.open@;
        let mut keep: usize = self.open.len();
        proof {
            assert(all =~= all.take(all.len() as int));
        }
        while keep > 0 && self.open[keep - 1].0 > self.depth
            invariant
                keep <= all.len(),
                self.open@ == all,
                kept_above(all.take(keep as int), self.depth as int) == kept_above(
                    all,
                    self.depth as int,
                ),
            decreases keep,
        {
            proof {
                assert(all.take(keep as int).drop_last() =~= all.take(keep - 1));
            }
            keep -= 1;
        }
        self.cut(keep)
    }

    /// One more element is open.
    pub fn open(&mut self, element: Opened)
        ensures
            final(self)@ == old(self)@.with(element),
            final(self).depth == old(self).depth,
    {
        self.open.push((self.depth, element));
    }

    /// End the element `wanted` of the current container: with `across` the innermost one
    /// with all that is open in it, else those that nothing is open in.
    pub fn close(&mut self, across: bool, wanted: Opened) -> (closed: Vec<Opened>)
        ensures
            closed@ == old(self)@.ended_with(across, wanted),
            final(self)@ == old(self)@.without(across, wanted),
            final(self).depth == old(self).depth,
    {
        let ghost all = self.open@;
        let ghost depth = self.depth as int;
        let mut keep: usize = self.open.len();
        proof {
            assert(all =~= all.take(all.len() as int));
        }
        if across {
            while keep > 0 && self.open[keep - 1].0 == self.depth && self.open[keep - 1].1 != wanted
                invariant
                    keep <= all.len(),
                    self.open@ == all,
                    depth == self.depth,
                    kept_across(all.take(keep as int), depth, wanted) == kept_across(
                        all,
                        depth,
                        wanted,
                    ),
                decreases keep,
            {
                proof {
                    assert(all.take(keep as int).drop_last() =~= all.take(keep - 1));
                }
                keep -= 1;
            }
            if keep > 0 && self.open[keep - 1].0 == self.depth {
                keep -= 1;
            } else {
                keep = self.open.len();
            }
        } else {
            while keep > 0 && self.open[keep - 1].0 == self.depth && self.open[keep - 1].1 == wanted
                invariant
                    keep <= all.len(),
                    self.open@ == all,
                    depth == self.depth,
                    kept_within(all.take(keep as int), depth, wanted) == kept_within(
                        all,
                        depth,
                        wanted,
                    ),
                decreases keep,
            {
                proof {
                    assert(all.take(keep as int).drop_last() =~= all.take(keep - 1));
                }
                keep -= 1;
            }
        }
        self.cut(keep)
    }

    /// End all that is open.
    pub fn close_all(&mut self) -> (closed: Vec<Opened>)
        ensures
            closed@ == closed_past(old(self)@.open, 0),
            final(self)@ == (OpenView { open: Seq::empty(), ..old(self)@ }),
    {
        let closed = self.cut(0);
        proof {
            assert(self@.open =~= Seq::empty());
        }
        closed
    }
}

/// What a piece of raw HTML has written so far, with the styles and the other elements that
/// are open.
#[verifier::ext_equal]
pub struct RawView {
    pub html: Seq<char>,
    pub styles: Seq<HtmlStyle>,
    pub open: OpenView,
}

impl RawView {
    /// More HTML is written.
    pub open spec fn write(self, html: Seq<char>) -> RawView {
        RawView { html: self.html + html, ..self }
    }

    /// The styles end.
    pub open spec fn end_styles(self) -> RawView {
        RawView { html: self.html + style_ends(self.styles), styles: Seq::empty(), ..self }
    }

    /// The element `wanted` ends, with the styles, if it is open.
    pub open spec fn end_element(self, wanted: Opened) -> RawView {
        let closed = self.open.ended_with(true, wanted);
        let left = RawView { open: self.open.without(true, wanted), ..self };
        if closed.len() == 0 {
            left
        } else {
            left.end_styles().write(end_tags_of(closed))
        }
    }

    /// What a part writes. A block written inside the text of a paragraph would end the
    /// paragraph, so blocks are written only in a block of raw HTML.
    pub open spec fn part(self, part: PartView, block: bool) -> RawView {
        match part {
            HtmlPart::Text(text) => self.write(with_breaks(escaped(text))),
            HtmlPart::DetailsStart { open } => RawView {
                open: self.open.with(Opened::Details),
                ..self.write(
                    if open {
                        "<details open>"@
                    } else {
                        "<details>"@
                    },
                )
            },
            HtmlPart::DetailsEnd => self.end_element(Opened::Details),
            HtmlPart::SummaryStart => self.write("<summary>"@),
            HtmlPart::SummaryEnd => self.write("</summary>"@),
            HtmlPart::BlockStart(opened) => if block {
                RawView {
                    open: self.open.with(Opened::Block { paragraph: opened.paragraph }),
                    ..self.end_styles().write(block_tag(opened.align))
                }
            } else {
                self
            },
            HtmlPart::BlockEnd { paragraph } => if block {
                self.end_element(Opened::Block { paragraph })
            } else {
                self
            },
            HtmlPart::StyleStart(style) => RawView {
                styles: self.styles.push(style),
                ..self.write("<"@ + style.name() + ">"@)
            },
            HtmlPart::StyleEnd(style) => match last_style(self.styles, style) {
                Some(index) => {
                    let inner = self.styles.skip(index);
                    RawView {
                        styles: self.styles.remove(index),
                        ..self.write(style_ends(inner)).write(style_starts(inner.skip(1)))
                    }
                },
                None => self,
            },
        }
    }

    /// What parts write.
    pub open spec fn parts(self, parts: Seq<PartView>, block: bool) -> RawView
        decreases parts.len(),
    {
        if parts.len() == 0 {
            self
        } else {
            self.parts(parts.drop_last(), block).part(parts.last(), block)
        }
    }
}

/// Where the style `style` was opened last.
pub open spec fn last_style(styles: Seq<HtmlStyle>, style: HtmlStyle) -> Option<int>
    decreases styles.len(),
{
    if styles.len() == 0 {
        None
    } else if styles.last() == style {
        Some(styles.len() - 1)
    } else {
        last_style(styles.drop_last(), style)
    }
}

/// The start tag of a block of raw HTML.
pub open spec fn block_tag(align: Option<HtmlAlign>) -> Seq<char> {
    match align {
        Some(HtmlAlign::Center) => "<div class=\"align-center\">"@,
        Some(HtmlAlign::Right) => "<div class=\"align-right\">"@,
        None => "<div>"@,
    }
}

/// Text whose line breaks are written as HTML.
pub open spec fn with_breaks(text: Seq<char>) -> Seq<char> {
    spread(
        text,
        |c: char|
            if c == '\n' {
                "<br>\n"@
            } else {
                seq![c]
            },
    )
}

/// Add `text`, with its line breaks written as HTML.
fn push_with_breaks(out: &mut String, text: &str)
    ensures
        final(out)@ == old(out)@ + with_breaks(text@),
{
    let ghost before = out@;
    let ghost write = |c: char|
        if c == '\n' {
            "<br>\n"@
        } else {
            seq![c]
        };
    let chars = chars_of(text);
    for i in 0..chars.len()
        invariant
            chars@ == text@,
            write == (|c: char|
                if c == '\n' {
                    "<br>\n"@
                } else {
                    seq![c]
                }),
            out@ == before + spread(chars@.take(i as int), write),
    {
        let c = chars[i];
        proof {
            assert(chars@.take(i + 1) =~= chars@.take(i as int).push(c));
            crate::text::spread_push(chars@.take(i as int), c, write);
        }
        let ghost then = out@;
        if c == '\n' {
            out.append("<br>\n");
        } else {
            out.push(c);
        }
        proof {
            assert(out@ =~= then + write(c));
            assert(before + (spread(chars@.take(i as int), write) + write(c)) =~= out@);
        }
    }
    proof {
        assert(chars@.take(chars@.len() as int) =~= chars@);
    }
}

/// What a piece of raw HTML has written so far, with the styles and the other elements that
/// are open.
struct Raw {
    html: String,
    styles: Vec<HtmlStyle>,
    open: OpenHtml,
}

impl View for Raw {
    type V = RawView;

    closed spec fn view(&self) -> RawView {
        RawView { html: self.html@, styles: self.styles@, open: self.open@ }
    }
}

impl Raw {
    /// The styles end.
    fn end_styles(&mut self)
        ensures
            final(self)@ == old(self)@.end_styles(),
            final(self).open.depth == old(self).open.depth,
    {
        let tags = close_styles(&mut self.styles);
        self.html.append(tags.as_str());
        proof {
            assert(self@ =~= old(self)@.end_styles());
        }
    }

    /// The element `wanted` ends, with the styles, if it is open.
    fn end_element(&mut self, wanted: Opened)
        ensures
            final(self)@ == old(self)@.end_element(wanted),
            final(self).open.depth == old(self).open.depth,
    {
        let closed = self.open.close(true, wanted);
        if closed.len() > 0 {
            self.end_styles();
            self.html.append(end_tags(&closed).as_str());
        }
        proof {
            assert(self@ =~= old(self)@.end_element(wanted));
        }
    }

    /// What a part writes.
    fn part(&mut self, part: &HtmlPart<String>, block: bool)
        ensures
            final(self)@ == old(self)@.part(part@, block),
            final(self).open.depth == old(self).open.depth,
    {
        match part {
            HtmlPart::Text(text) => {
                push_with_breaks(&mut self.html, escape_html(text.as_str()).as_str());
            },
            HtmlPart::DetailsStart { open } => {
                if *open {
                    self.html.append("<details open>");
                } else {
                    self.html.append("<details>");
                }
                self.open.open(Opened::Details);
            },
            HtmlPart::DetailsEnd => {
                self.end_element(Opened::Details);
            },
            HtmlPart::SummaryStart => {
                self.html.append("<summary>");
            },
            HtmlPart::SummaryEnd => {
                self.html.append("</summary>");
            },
            HtmlPart::BlockStart(opened) => {
                if block {
                    self.end_styles();
                    match opened.align {
                        Some(HtmlAlign::Center) => {
                            self.html.append("<div class=\"align-center\">");
                        },
                        Some(HtmlAlign::Right) => {
                            self.html.append("<div class=\"align-right\">");
                        },
                        None => {
                            self.html.append("<div>");
                        },
                    }
                    self.open.open(Opened::Block { paragraph: opened.paragraph });
                }
            },
            HtmlPart::BlockEnd { paragraph } => {
                if block {
                    self.end_element(Opened::Block { paragraph: *paragraph });
                }
            },
            HtmlPart::StyleStart(style) => {
                self.html.append("<");
                self.html.append(style.element());
                self.html.append(">");
                self.styles.push(*style);
                proof {
                    assert(self.html@ =~= old(self).html@ + ("<"@ + style.name() + ">"@));
                }
            },
            HtmlPart::StyleEnd(style) => {
                self.end_style(*style);
            },
        }
        proof {
            assert(self@ =~= old(self)@.part(part@, block));
        }
    }

    /// A style ends: the styles opened inside the one that ends are ended with it and started
    /// again, as elements have to nest.
    fn end_style(&mut self, style: HtmlStyle)
        ensures
            final(self)@ == old(self)@.part(HtmlPart::StyleEnd(style), true),
            final(self).open.depth == old(self).open.depth,
    {
        let ghost all = self.styles@;
        let mut after: usize = self.styles.len();
        proof {
            assert(all.take(all.len() as int) =~= all);
        }
        while after > 0 && self.styles[after - 1] != style
            invariant
                after <= all.len(),
                self.styles@ == all,
                self.html@ == old(self).html@,
                self.open == old(self).open,
                last_style(all.take(after as int), style) == last_style(all, style),
            decreases after,
        {
            proof {
                assert(all.take(after as int).drop_last() =~= all.take(after - 1));
            }
            after -= 1;
        }
        if after == 0 {
            return;
        }
        let index = after - 1;
        let ghost inner = all.skip(index as int);
        let mut ended: Vec<HtmlStyle> = self.styles.split_off(index);
        proof {
            assert(ended@ =~= inner);
        }
        let mut restarted: Vec<HtmlStyle> = Vec::new();
        for i in 1..ended.len()
            invariant
                ended@.len() >= 1,
                restarted@ == ended@.subrange(1, i as int),
        {
            proof {
                assert(ended@.subrange(1, i + 1) =~= ended@.subrange(1, i as int).push(
                    ended@[i as int],
                ));
            }
            restarted.push(ended[i]);
        }
        proof {
            assert(restarted@ =~= inner.skip(1));
        }
        self.html.append(close_styles(&mut ended).as_str());
        let ghost written = self.html@;
        let ghost kept = self.styles@;
        for i in 0..restarted.len()
            invariant
                restarted@ == inner.skip(1),
                self.open == old(self).open,
                self.styles@ == kept + restarted@.take(i as int),
                self.html@ == written + style_starts(restarted@.take(i as int)),
        {
            let again = restarted[i];
            let ghost before = self.html@;
            proof {
                assert(restarted@.take(i + 1).drop_last() =~= restarted@.take(i as int));
                assert(kept + restarted@.take(i + 1) =~= (kept + restarted@.take(i as int)).push(
                    again,
                ));
            }
            self.html.append("<");
            self.html.append(again.element());
            self.html.append(">");
            self.styles.push(again);
            proof {
                assert(self.html@ =~= before + ("<"@ + again.name() + ">"@));
                assert(written + (style_starts(restarted@.take(i as int)) + ("<"@ + again.name()
                    + ">"@)) =~= self.html@);
            }
        }
        proof {
            assert(restarted@.take(restarted@.len() as int) =~= restarted@);
            assert(self.styles@ =~= all.remove(index as int));
            assert(self@ =~= old(self)@.part(HtmlPart::StyleEnd(style), true));
        }
    }
}

/// An export under way: the events written so far, and what is open.
#[verifier::ext_equal]
pub struct ExportView {
    pub events: Seq<EventView>,
    /// The info string and the text so far of the open code block.
    pub code: Option<(Seq<char>, Seq<char>)>,
    pub code_blocks: int,
    /// Whether each open image is kept; one that is not leaves its text behind.
    pub images: Seq<bool>,
    /// The footnotes in the order they first come in, which numbers them.
    pub numbers: Seq<Seq<char>>,
    /// The footnotes referred to so far.
    pub referenced: Seq<Seq<char>>,
    /// The footnote definitions that are open.
    pub footnotes: Seq<Seq<char>>,
    pub styles: Seq<HtmlStyle>,
    pub open: OpenView,
    /// An open image with a width of its own: its address, its width and its alternative
    /// text so far.
    pub sized: Option<(Seq<char>, i32, Seq<char>)>,
}

/// The runs of code block number `i`; none where there are none for it.
pub open spec fn runs_at(list: Seq<Vec<CodeRun>>, i: int) -> Seq<CodeRun> {
    if 0 <= i < list.len() {
        list[i]@
    } else {
        Seq::empty()
    }
}

/// The id of a footnote.
pub open spec fn footnote_id_of(name: Seq<char>) -> Seq<char> {
    "fn:"@ + name
}

/// The id of the first reference to a footnote.
pub open spec fn reference_id_of(name: Seq<char>) -> Seq<char> {
    "fnref:"@ + name
}

/// The number of a footnote, among those that came in before and after it has.
pub open spec fn number_among(numbers: Seq<Seq<char>>, name: Seq<char>) -> int
    decreases numbers.len(),
{
    if numbers.len() == 0 {
        1
    } else if numbers[0] == name {
        1
    } else {
        1 + number_among(numbers.drop_first(), name)
    }
}

/// The footnotes in the order they first come in, once `name` has.
pub open spec fn numbered(numbers: Seq<Seq<char>>, name: Seq<char>) -> Seq<Seq<char>> {
    if numbers.contains(name) {
        numbers
    } else {
        numbers.push(name)
    }
}

/// The image a page shows at a width of its own.
pub open spec fn sized_tag(source: Seq<char>, width: i32, alt: Seq<char>) -> Seq<char> {
    "<img src=\""@ + escaped(source) + "\" alt=\""@ + escaped(alt) + "\" width=\""@
        + crate::text::decimal_signed(width as int) + "\" />"@
}

/// Whether an image is on the web.
pub open spec fn is_web(url: Seq<char>) -> bool {
    starts_with(lowered(trim(url)), "http://"@) || starts_with(lowered(trim(url)), "https://"@)
}

/// Whether text shows among parts of raw HTML.
pub open spec fn has_text(parts: Seq<PartView>) -> bool {
    exists|i: int|
        0 <= i < parts.len() && (#[trigger] parts[i] matches HtmlPart::Text(text) && trim(
            text,
        ).len() > 0)
}

/// Whether there is more than styled text among parts of raw HTML.
pub open spec fn has_structure(parts: Seq<PartView>) -> bool {
    exists|i: int|
        0 <= i < parts.len() && !(#[trigger] parts[i] is Text || parts[i] is StyleStart
            || parts[i] is StyleEnd)
}

impl ExportView {
    /// One more event is written.
    pub open spec fn emit(self, event: EventView) -> ExportView {
        ExportView { events: self.events.push(event), ..self }
    }

    /// The given elements end, with the styles, if there are any.
    pub open spec fn end_elements(self, closed: Seq<Opened>) -> ExportView {
        if closed.len() == 0 {
            self
        } else {
            ExportView {
                styles: Seq::empty(),
                ..self.emit(
                    MdEvent::Html(style_ends(self.styles) + end_tags_of(closed) + "\n"@),
                )
            }
        }
    }

    /// The elements of raw HTML that end with the event have ended.
    pub open spec fn followed(self, event: EventView) -> ExportView {
        (ExportView { open: self.open.after(event), ..self }).end_elements(
            self.open.ended_by(event),
        )
    }

    /// An event inside an image with a width of its own.
    pub open spec fn in_sized_image(
        self,
        source: Seq<char>,
        width: i32,
        alt: Seq<char>,
        event: EventView,
    ) -> ExportView {
        match event {
            MdEvent::Text(text) => ExportView { sized: Some((source, width, alt + text)), ..self },
            MdEvent::Code(text) => ExportView { sized: Some((source, width, alt + text)), ..self },
            MdEvent::End(TagEnd::Image) => ExportView {
                images: without_last(self.images),
                sized: None,
                ..self.emit(MdEvent::InlineHtml(sized_tag(source, width, alt)))
            },
            _ => self,
        }
    }

    /// An event inside a code block.
    pub open spec fn in_code(
        self,
        info: Seq<char>,
        code: Seq<char>,
        event: EventView,
        light: Seq<Vec<CodeRun>>,
        dark: Seq<Vec<CodeRun>>,
    ) -> ExportView {
        match event {
            MdEvent::Text(text) => ExportView { code: Some((info, code + text)), ..self },
            MdEvent::End(TagEnd::CodeBlock) => ExportView {
                code: None,
                code_blocks: self.code_blocks + 1,
                ..self.emit(
                    MdEvent::Html(
                        code_html(
                            drop_end(code, '\n'),
                            info,
                            runs_at(light, self.code_blocks),
                            runs_at(dark, self.code_blocks),
                        ),
                    ),
                )
            },
            _ => self,
        }
    }

    /// A piece of raw HTML, in a block of its own or in the text.
    pub open spec fn raw_html(self, chunk: Seq<char>, block: bool) -> ExportView {
        let parts = parts_of(chunk);
        let written = (RawView {
            html: Seq::empty(),
            styles: self.styles,
            open: self.open,
        }).parts(parts, block);
        let ended = if block {
            written.end_styles()
        } else {
            written
        };
        let html = if block && has_text(parts) && !has_structure(parts) {
            "<p>"@ + ended.html + "</p>"@
        } else {
            ended.html
        };
        let next = ExportView { styles: ended.styles, open: ended.open, ..self };
        if html.len() == 0 {
            next
        } else if block {
            next.emit(MdEvent::Html(html + "\n"@))
        } else {
            next.emit(MdEvent::InlineHtml(html))
        }
    }

    /// The end of a block of text, which ends the styles raw HTML left open, as the end of a
    /// paragraph closes them in a browser.
    pub open spec fn end_text(self, event: EventView) -> ExportView {
        if self.styles.len() == 0 {
            self.emit(event)
        } else {
            (ExportView {
                styles: Seq::empty(),
                ..self.emit(MdEvent::InlineHtml(style_ends(self.styles)))
            }).emit(event)
        }
    }

    /// The start of an image: one of the web stays a link to it, one of the document's folder
    /// is embedded as `source`, and anything else shows its alternative text.
    pub open spec fn image(
        self,
        tag: crate::event::TagView,
        dest_url: Seq<char>,
        width: Option<i32>,
        source: Option<Seq<char>>,
    ) -> ExportView {
        let shown = if is_web(dest_url) {
            Some(dest_url)
        } else {
            source
        };
        let next = ExportView { images: self.images.push(shown is Some), ..self };
        match (shown, width) {
            (None, _) => next,
            (Some(shown), Some(width)) => ExportView {
                sized: Some((shown, width, Seq::empty())),
                ..next
            },
            (Some(shown), None) => next.emit(
                match tag {
                    MdTag::Image { link_type, dest_url, title, id, width } => MdEvent::Start(
                        MdTag::Image { link_type, dest_url: shown, title, id, width },
                    ),
                    other => MdEvent::Start(other),
                },
            ),
        }
    }

    /// A reference to a footnote. The first reference to each is the one its note links back
    /// to.
    pub open spec fn reference(self, name: Seq<char>) -> ExportView {
        let id = if self.referenced.contains(name) {
            Seq::empty()
        } else {
            " id=\""@ + escaped(reference_id_of(name)) + "\""@
        };
        (ExportView {
            numbers: numbered(self.numbers, name),
            referenced: numbered(self.referenced, name),
            ..self
        }).emit(
            MdEvent::InlineHtml(
                "<sup class=\"footnote-reference\""@ + id + "><a href=\"#"@ + escaped(
                    footnote_id_of(name),
                ) + "\">"@ + crate::text::decimal(number_among(self.numbers, name) as nat)
                    + "</a></sup>"@,
            ),
        )
    }

    /// The start of a footnote.
    pub open spec fn footnote(self, name: Seq<char>) -> ExportView {
        (ExportView {
            numbers: numbered(self.numbers, name),
            footnotes: self.footnotes.push(name),
            ..self
        }).emit(
            MdEvent::Html(
                "<div class=\"footnote-definition\" id=\""@ + escaped(footnote_id_of(name))
                    + "\"><sup class=\"footnote-definition-label\">"@ + crate::text::decimal(
                    number_among(self.numbers, name) as nat,
                ) + "</sup>\n"@,
            ),
        )
    }

    /// The end of a footnote, which links back to the first reference to it.
    pub open spec fn end_footnote(self) -> ExportView {
        let name = if self.footnotes.len() == 0 {
            Seq::empty()
        } else {
            self.footnotes.last()
        };
        (ExportView { footnotes: without_last(self.footnotes), ..self }).emit(
            MdEvent::Html(
                "<a href=\"#"@ + escaped(reference_id_of(name))
                    + "\" class=\"footnote-backref\">\u{21a9}</a></div>\n"@,
            ),
        )
    }

    /// Math that typesets is drawn as the SVG `source`; math that does not is left out.
    pub open spec fn math(self, display: bool, source: Option<Seq<char>>) -> ExportView {
        match source {
            Some(svg) => self.emit(
                MdEvent::InlineHtml(
                    if display {
                        "<span class=\"math-display\">"@ + svg + "</span>"@
                    } else {
                        svg
                    },
                ),
            ),
            None => self,
        }
    }

    /// An event outside code blocks and images with a width of their own.
    pub open spec fn plain(self, event: EventView, source: Option<Seq<char>>) -> ExportView {
        match event {
            MdEvent::Html(chunk) => self.raw_html(chunk, true),
            MdEvent::InlineHtml(chunk) => self.raw_html(chunk, false),
            MdEvent::End(TagEnd::HtmlBlock) => {
                let paragraph = Opened::Block { paragraph: true };
                (ExportView { open: self.open.without(false, paragraph), ..self }).end_elements(
                    self.open.ended_with(false, paragraph),
                ).emit(event)
            },
            MdEvent::End(TagEnd::Paragraph) => self.end_text(event),
            MdEvent::End(TagEnd::Heading(_)) => self.end_text(event),
            MdEvent::End(TagEnd::TableCell) => self.end_text(event),
            MdEvent::End(TagEnd::Item) => self.end_text(event),
            MdEvent::Start(MdTag::CodeBlock(info)) => ExportView {
                code: Some(
                    (
                        match info {
                            Some(info) => info,
                            None => Seq::empty(),
                        },
                        Seq::empty(),
                    ),
                ),
                ..self
            },
            MdEvent::Start(MdTag::Table(_)) => self.emit(
                MdEvent::Html("<div class=\"table\">\n"@),
            ).emit(event),
            MdEvent::End(TagEnd::Table) => self.emit(event).emit(MdEvent::Html("</div>\n"@)),
            MdEvent::Start(MdTag::Link { link_type, dest_url, title, id }) => self.emit(
                MdEvent::Start(
                    MdTag::Link { link_type, dest_url: sanitized(dest_url), title, id },
                ),
            ),
            MdEvent::Start(MdTag::Image { link_type, dest_url, title, id, width }) => self.image(
                MdTag::Image { link_type, dest_url, title, id, width },
                dest_url,
                width,
                source,
            ),
            MdEvent::End(TagEnd::Image) => {
                let next = ExportView { images: without_last(self.images), ..self };
                if self.images.len() > 0 && self.images.last() {
                    next.emit(event)
                } else {
                    next
                }
            },
            MdEvent::InlineMath(_) => self.math(false, source),
            MdEvent::DisplayMath(_) => self.math(true, source),
            MdEvent::FootnoteReference(name) => self.reference(name),
            MdEvent::Start(MdTag::FootnoteDefinition(name)) => self.footnote(name),
            MdEvent::End(TagEnd::FootnoteDefinition) => self.end_footnote(),
            other => self.emit(other),
        }
    }

    /// The export after one more event of the document. `source` is what the event's image or
    /// math is shown as: the `data:` address of a file of the document's folder, or an SVG.
    pub open spec fn step(
        self,
        event: EventView,
        source: Option<Seq<char>>,
        light: Seq<Vec<CodeRun>>,
        dark: Seq<Vec<CodeRun>>,
    ) -> ExportView {
        let next = self.followed(event);
        match (next.sized, next.code) {
            (Some((shown, width, alt)), _) => next.in_sized_image(shown, width, alt, event),
            (None, Some((info, code))) => next.in_code(info, code, event, light, dark),
            (None, None) => next.plain(event, source),
        }
    }

    /// The end of the document, which ends all elements of raw HTML.
    pub open spec fn finish(self) -> ExportView {
        (ExportView { open: OpenView { open: Seq::empty(), ..self.open }, ..self }).end_elements(
            closed_past(self.open.open, 0),
        )
    }
}

/// A list without its last item, if it has any.
pub open spec fn without_last<A>(list: Seq<A>) -> Seq<A> {
    if list.len() == 0 {
        list
    } else {
        list.drop_last()
    }
}

/// An export with nothing written.
pub open spec fn export_start() -> ExportView {
    ExportView {
        events: Seq::empty(),
        code: None,
        code_blocks: 0,
        images: Seq::empty(),
        numbers: Seq::empty(),
        referenced: Seq::empty(),
        footnotes: Seq::empty(),
        styles: Seq::empty(),
        open: OpenView { depth: 0, open: Seq::empty() },
        sized: None,
    }
}

/// What an event's image or math is shown as.
pub open spec fn source_at(sources: Seq<Option<String>>, i: int) -> Option<Seq<char>> {
    if 0 <= i < sources.len() {
        crate::event::opt_view(sources[i])
    } else {
        None
    }
}

/// The export after the first `n` events of the document.
pub open spec fn exported(
    events: Seq<EventView>,
    sources: Seq<Option<String>>,
    light: Seq<Vec<CodeRun>>,
    dark: Seq<Vec<CodeRun>>,
    n: int,
) -> ExportView
    decreases n,
{
    if n <= 0 {
        export_start()
    } else {
        exported(events, sources, light, dark, n - 1).step(
            events[n - 1],
            source_at(sources, n - 1),
            light,
            dark,
        )
    }
}

/// The events of the page of a document.
pub open spec fn page_events(
    events: Seq<EventView>,
    sources: Seq<Option<String>>,
    light: Seq<Vec<CodeRun>>,
    dark: Seq<Vec<CodeRun>>,
) -> Seq<EventView> {
    exported(events, sources, light, dark, events.len() as int).finish().events
}

/// An export under way.
struct Export {
    events: Vec<DocEvent>,
    code: Option<(String, String)>,
    code_blocks: usize,
    images: Vec<bool>,
    numbers: Vec<String>,
    referenced: Vec<String>,
    footnotes: Vec<String>,
    styles: Vec<HtmlStyle>,
    open: OpenHtml,
    sized: Option<(String, i32, String)>,
}

impl View for Export {
    type V = ExportView;

    closed spec fn view(&self) -> ExportView {
        ExportView {
            events: crate::event::views(self.events@),
            code: match self.code {
                Some((info, code)) => Some((info@, code@)),
                None => None,
            },
            code_blocks: self.code_blocks as int,
            images: self.images@,
            numbers: texts(self.numbers@),
            referenced: texts(self.referenced@),
            footnotes: texts(self.footnotes@),
            styles: self.styles@,
            open: self.open@,
            sized: match self.sized {
                Some((source, width, alt)) => Some((source@, width, alt@)),
                None => None,
            },
        }
    }
}

/// The place of `name` in `list`, and whether it is there.
fn position(list: &Vec<String>, name: &str) -> (found: Option<usize>)
    ensures
        match found {
            Some(i) => i < list@.len() && number_among(texts(list@), name@) == i + 1
                && texts(list@).contains(name@),
            None => number_among(texts(list@), name@) == list@.len() + 1 && !texts(
                list@,
            ).contains(name@),
        },
{
    let ghost all = texts(list@);
    proof {
        assert(all.skip(0) =~= all);
    }
    for i in 0..list.len()
        invariant
            all == texts(list@),
            number_among(all, name@) == i + number_among(all.skip(i as int), name@),
            forall|j: int| 0 <= j < i ==> #[trigger] all[j] != name@,
    {
        proof {
            assert(all.skip(i as int)[0] == list@[i as int]@);
            assert(all.skip(i as int).drop_first() =~= all.skip(i + 1));
        }
        if same(list[i].as_str(), name) {
            proof {
                assert(all[i as int] == name@);
            }
            return Some(i);
        }
    }
    None
}

/// Add `name` to `list`, if it is not there.
fn number(list: &mut Vec<String>, name: &str) -> (number: usize)
    requires
        old(list)@.len() < usize::MAX,
    ensures
        texts(final(list)@) == numbered(texts(old(list)@), name@),
        number == number_among(texts(old(list)@), name@),
        final(list)@.len() <= old(list)@.len() + 1,
{
    let ghost before = list@;
    match position(list, name) {
        Some(i) => i + 1,
        None => {
            let owned = String::from_str(name);
            proof {
                assert(texts(before.push(owned)) =~= texts(before).push(name@));
            }
            list.push(owned);
            list.len()
        },
    }
}

/// The last text of a list, taken off it; empty if there is none.
fn pop_text(list: &mut Vec<String>) -> (last: String)
    ensures
        last@ == (if old(list)@.len() == 0 {
            Seq::empty()
        } else {
            texts(old(list)@).last()
        }),
        texts(final(list)@) == without_last(texts(old(list)@)),
{
    let ghost before = list@;
    match list.pop() {
        Some(last) => {
            proof {
                assert(texts(list@) =~= texts(before).drop_last());
            }
            last
        },
        None => String::new(),
    }
}

/// A copy of the runs of code block number `i`.
fn runs_of<'a>(list: &'a Vec<Vec<CodeRun>>, none: &'a Vec<CodeRun>, i: usize) -> (runs: &'a Vec<
    CodeRun,
>)
    requires
        none@.len() == 0,
    ensures
        runs@ == runs_at(list@, i as int),
{
    if i < list.len() {
        &list[i]
    } else {
        proof {
            assert(none@ =~= Seq::<CodeRun>::empty());
        }
        none
    }
}

/// Whether an image is on the web.
fn is_on_the_web(url: &str) -> (web: bool)
    ensures
        web == is_web(url@),
{
    let lower = lower_chars(&trimmed(&chars_of(url)));
    has_at(&lower, 0, &chars_of("http://")) || has_at(&lower, 0, &chars_of("https://"))
}

impl Export {
    /// Whether the counters have room for `n` events to have come in.
    spec fn fits(self, n: nat) -> bool {
        self.code_blocks <= n && self.open.depth <= n && self.numbers@.len() <= n
            && self.referenced@.len() <= n
    }

    /// One more event is written.
    fn emit(&mut self, event: DocEvent)
        ensures
            final(self)@ == old(self)@.emit(event@),
            final(self).code_blocks == old(self).code_blocks,
            final(self).open == old(self).open,
            final(self).numbers == old(self).numbers,
            final(self).referenced == old(self).referenced,
    {
        let ghost before = self.events@;
        self.events.push(event);
        proof {
            assert(crate::event::views(self.events@) =~= crate::event::views(before).push(event@));
            assert(self@ =~= old(self)@.emit(event@));
        }
    }

    /// The given elements end, with the styles, if there are any.
    fn end_elements(&mut self, closed: Vec<Opened>)
        ensures
            final(self)@ == old(self)@.end_elements(closed@),
            final(self).code_blocks == old(self).code_blocks,
            final(self).open == old(self).open,
            final(self).numbers == old(self).numbers,
            final(self).referenced == old(self).referenced,
    {
        if closed.len() > 0 {
            let mut html = close_styles(&mut self.styles);
            html.append(end_tags(&closed).as_str());
            html.append("\n");
            self.emit(MdEvent::Html(html));
            proof {
                assert(self.styles@ =~= Seq::empty());
                assert(self@ =~= old(self)@.end_elements(closed@));
            }
        }
    }

    /// The elements of raw HTML that end with the event have ended.
    fn follow(&mut self, event: &DocEvent, Ghost(n): Ghost<nat>)
        requires
            old(self).fits(n),
            n < usize::MAX,
        ensures
            final(self)@ == old(self)@.followed(event@),
            final(self).fits(n + 1),
            final(self).code_blocks <= n,
            final(self).numbers@.len() <= n,
            final(self).referenced@.len() <= n,
    {
        let closed = self.open.follow(event);
        let ghost then = *self;
        proof {
            assert(then@ =~= ExportView { open: old(self)@.open.after(event@), ..old(self)@ });
        }
        self.end_elements(closed);
    }

    /// An event inside an image with a width of its own.
    fn in_sized_image(&mut self, source: String, width: i32, alt: String, event: &DocEvent)
        requires
            old(self).sized is None,
        ensures
            final(self)@ == (ExportView {
                sized: Some((source@, width, alt@)),
                ..old(self)@
            }).in_sized_image(source@, width, alt@, event@),
            final(self).code_blocks == old(self).code_blocks,
            final(self).open == old(self).open,
            final(self).numbers == old(self).numbers,
            final(self).referenced == old(self).referenced,
    {
        let ghost start = ExportView { sized: Some((source@, width, alt@)), ..old(self)@ };
        match event {
            MdEvent::Text(text) => {
                let mut alt = alt;
                alt.append(text.as_str());
                self.sized = Some((source, width, alt));
            },
            MdEvent::Code(text) => {
                let mut alt = alt;
                alt.append(text.as_str());
                self.sized = Some((source, width, alt));
            },
            MdEvent::End(TagEnd::Image) => {
                let _ = self.images.pop();
                let mut html = String::from_str("<img src=\"");
                html.append(escape_html(source.as_str()).as_str());
                html.append("\" alt=\"");
                html.append(escape_html(alt.as_str()).as_str());
                html.append("\" width=\"");
                crate::text::push_signed(&mut html, width);
                html.append("\" />");
                self.emit(MdEvent::InlineHtml(html));
            },
            _ => {
                self.sized = Some((source, width, alt));
            },
        }
        proof {
            assert(self@ =~= start.in_sized_image(source@, width, alt@, event@));
        }
    }

    /// An event inside a code block.
    fn in_code(
        &mut self,
        info: String,
        code: String,
        event: &DocEvent,
        light: &Vec<Vec<CodeRun>>,
        dark: &Vec<Vec<CodeRun>>,
    )
        requires
            old(self).code is None,
            old(self).code_blocks < usize::MAX,
        ensures
            final(self)@ == (ExportView { code: Some((info@, code@)), ..old(self)@ }).in_code(
                info@,
                code@,
                event@,
                light@,
                dark@,
            ),
            final(self).code_blocks <= old(self).code_blocks + 1,
            final(self).open == old(self).open,
            final(self).numbers == old(self).numbers,
            final(self).referenced == old(self).referenced,
    {
        let ghost start = ExportView { code: Some((info@, code@)), ..old(self)@ };
        match event {
            MdEvent::Text(text) => {
                let mut code = code;
                code.append(text.as_str());
                self.code = Some((info, code));
            },
            MdEvent::End(TagEnd::CodeBlock) => {
                let none: Vec<CodeRun> = Vec::new();
                let mut chars = chars_of(code.as_str());
                cut_end(&mut chars, '\n');
                let shown = text_of(&chars, 0, chars.len());
                proof {
                    assert(chars@.subrange(0, chars@.len() as int) =~= chars@);
                }
                let html = code_block_html(
                    shown.as_str(),
                    info.as_str(),
                    runs_of(light, &none, self.code_blocks),
                    runs_of(dark, &none, self.code_blocks),
                );
                self.emit(MdEvent::Html(html));
                self.code_blocks = self.code_blocks + 1;
            },
            _ => {
                self.code = Some((info, code));
            },
        }
        proof {
            assert(self@ =~= start.in_code(info@, code@, event@, light@, dark@));
        }
    }

    /// A piece of raw HTML, in a block of its own or in the text.
    fn raw_html(&mut self, chunk: &str, block: bool)
        ensures
            final(self)@ == old(self)@.raw_html(chunk@, block),
            final(self).code_blocks == old(self).code_blocks,
            final(self).open.depth == old(self).open.depth,
            final(self).numbers == old(self).numbers,
            final(self).referenced == old(self).referenced,
    {
        let parts = html_parts(chunk);
        let mut raw = Raw { html: String::new(), styles: Vec::new(), open: OpenHtml::new() };
        std::mem::swap(&mut raw.styles, &mut self.styles);
        std::mem::swap(&mut raw.open, &mut self.open);
        let ghost start = raw@;
        let ghost depth = raw.open.depth;
        let ghost all = part_views(parts@);
        proof {
            assert(start =~= RawView {
                html: Seq::empty(),
                styles: old(self)@.styles,
                open: old(self)@.open,
            });
            assert(all.take(0) =~= Seq::empty());
        }
        let mut text = false;
        let mut structure = false;
        for i in 0..parts.len()
            invariant
                all == part_views(parts@),
                raw@ == start.parts(all.take(i as int), block),
                raw.open.depth == depth,
                text == has_text(all.take(i as int)),
                structure == has_structure(all.take(i as int)),
        {
            proof {
                assert(all.take(i + 1).drop_last() =~= all.take(i as int));
                assert(all[i as int] == parts@[i as int]@);
                has_push(all.take(i as int), parts@[i as int]@);
                assert(all.take(i + 1) =~= all.take(i as int).push(parts@[i as int]@));
            }
            raw.part(&parts[i], block);
            match &parts[i] {
                HtmlPart::Text(shown) => {
                    if trimmed(&chars_of(shown.as_str())).len() > 0 {
                        text = true;
                    }
                },
                HtmlPart::StyleStart(_) => {},
                HtmlPart::StyleEnd(_) => {},
                _ => {
                    structure = true;
                },
            }
        }
        proof {
            assert(all.take(all.len() as int) =~= all);
        }
        if block {
            raw.end_styles();
        }
        let Raw { html, styles, open } = raw;
        self.styles = styles;
        self.open = open;
        let ghost ended = self@;
        let mut written = String::new();
        if block && text && !structure {
            written.append("<p>");
            written.append(html.as_str());
            written.append("</p>");
        } else {
            written.append(html.as_str());
        }
        proof {
            assert(written@ =~= if block && text && !structure {
                "<p>"@ + html@ + "</p>"@
            } else {
                html@
            });
        }
        if !written.as_str().is_empty() {
            if block {
                written.append("\n");
                self.emit(MdEvent::Html(written));
            } else {
                self.emit(MdEvent::InlineHtml(written));
            }
        }
        proof {
            assert(self@ =~= old(self)@.raw_html(chunk@, block));
        }
    }

    /// The end of a block of text, which ends the styles raw HTML left open.
    fn end_text(&mut self, event: &DocEvent)
        ensures
            final(self)@ == old(self)@.end_text(event@),
            final(self).code_blocks == old(self).code_blocks,
            final(self).open == old(self).open,
            final(self).numbers == old(self).numbers,
            final(self).referenced == old(self).referenced,
    {
        if self.styles.len() > 0 {
            let tags = close_styles(&mut self.styles);
            self.emit(MdEvent::InlineHtml(tags));
            proof {
                assert(self.styles@ =~= Seq::empty());
                assert(self@ =~= ExportView {
                    styles: Seq::empty(),
                    ..old(self)@.emit(MdEvent::InlineHtml(style_ends(old(self)@.styles)))
                });
            }
        }
        self.emit(copy_event(event));
    }
}

/// One more part of raw HTML adds its text or its structure.
proof fn has_push(parts: Seq<PartView>, part: PartView)
    ensures
        has_text(parts.push(part)) == (has_text(parts) || (part matches HtmlPart::Text(text)
            && trim(text).len() > 0)),
        has_structure(parts.push(part)) == (has_structure(parts) || !(part is Text
            || part is StyleStart || part is StyleEnd)),
{
    let all = parts.push(part);
    if has_text(parts) {
        let i = choose|i: int|
            0 <= i < parts.len() && (#[trigger] parts[i] matches HtmlPart::Text(text) && trim(
                text,
            ).len() > 0);
        assert(all[i] == parts[i]);
    }
    if has_structure(parts) {
        let i = choose|i: int|
            0 <= i < parts.len() && !(#[trigger] parts[i] is Text || parts[i] is StyleStart
                || parts[i] is StyleEnd);
        assert(all[i] == parts[i]);
    }
    assert(all[parts.len() as int] == part);
    if has_text(all) {
        let i = choose|i: int|
            0 <= i < all.len() && (#[trigger] all[i] matches HtmlPart::Text(text) && trim(
                text,
            ).len() > 0);
        if i < parts.len() {
            assert(parts[i] == all[i]);
        }
    }
    if has_structure(all) {
        let i = choose|i: int|
            0 <= i < all.len() && !(#[trigger] all[i] is Text || all[i] is StyleStart
                || all[i] is StyleEnd);
        if i < parts.len() {
            assert(parts[i] == all[i]);
        }
    }
}

impl Export {
    /// The start of an image.
    fn image(&mut self, event: &DocEvent, dest_url: &str, width: Option<i32>, source: Option<&str>)
        requires
            event@ matches MdEvent::Start(MdTag::Image { dest_url: to, width: w, .. }) && to
                == dest_url@ && w == width,
        ensures
            final(self)@ == old(self)@.image(
                event@->Start_0,
                dest_url@,
                width,
                match source {
                    Some(source) => Some(source@),
                    None => None,
                },
            ),
            final(self).code_blocks == old(self).code_blocks,
            final(self).open == old(self).open,
            final(self).numbers == old(self).numbers,
            final(self).referenced == old(self).referenced,
    {
        let shown = if is_on_the_web(dest_url) {
            Some(dest_url)
        } else {
            source
        };
        self.images.push(shown.is_some());
        let ghost next = self@;
        if let Some(shown) = shown {
            let shown = String::from_str(shown);
            match width {
                Some(width) => {
                    self.sized = Some((shown, width, String::new()));
                },
                None => {
                    if let MdEvent::Start(
                        MdTag::Image { link_type, dest_url: _, title, id, width },
                    ) = event {
                        self.emit(
                            MdEvent::Start(
                                MdTag::Image {
                                    link_type: *link_type,
                                    dest_url: shown,
                                    title: title.clone(),
                                    id: id.clone(),
                                    width: *width,
                                },
                            ),
                        );
                    }
                },
            }
        }
        proof {
            assert(self@ =~= old(self)@.image(
                event@->Start_0,
                dest_url@,
                width,
                match source {
                    Some(source) => Some(source@),
                    None => None,
                },
            ));
        }
    }

    /// A reference to a footnote.
    fn reference(&mut self, name: &str)
        requires
            old(self).numbers@.len() < usize::MAX,
            old(self).referenced@.len() < usize::MAX,
        ensures
            final(self)@ == old(self)@.reference(name@),
            final(self).code_blocks == old(self).code_blocks,
            final(self).open == old(self).open,
            final(self).numbers@.len() <= old(self).numbers@.len() + 1,
            final(self).referenced@.len() <= old(self).referenced@.len() + 1,
    {
        let first = position(&self.referenced, name).is_none();
        let place = number(&mut self.numbers, name);
        let _ = number(&mut self.referenced, name);
        let ghost next = self@;
        proof {
            assert(next =~= ExportView {
                numbers: numbered(old(self)@.numbers, name@),
                referenced: numbered(old(self)@.referenced, name@),
                ..old(self)@
            });
        }
        let mut html = String::from_str("<sup class=\"footnote-reference\"");
        if first {
            let mut id = String::from_str("fnref:");
            id.append(name);
            html.append(" id=\"");
            html.append(escape_html(id.as_str()).as_str());
            html.append("\"");
        }
        html.append("><a href=\"#");
        let mut id = String::from_str("fn:");
        id.append(name);
        html.append(escape_html(id.as_str()).as_str());
        html.append("\">");
        push_decimal(&mut html, place as u128);
        html.append("</a></sup>");
        proof {
            let id = if old(self)@.referenced.contains(name@) {
                Seq::empty()
            } else {
                " id=\""@ + escaped(reference_id_of(name@)) + "\""@
            };
            assert(html@ =~= "<sup class=\"footnote-reference\""@ + id + "><a href=\"#"@
                + escaped(footnote_id_of(name@)) + "\">"@ + crate::text::decimal(place as nat)
                + "</a></sup>"@);
        }
        self.emit(MdEvent::InlineHtml(html));
    }

    /// The start of a footnote.
    fn footnote(&mut self, name: &str)
        requires
            old(self).numbers@.len() < usize::MAX,
        ensures
            final(self)@ == old(self)@.footnote(name@),
            final(self).code_blocks == old(self).code_blocks,
            final(self).open == old(self).open,
            final(self).numbers@.len() <= old(self).numbers@.len() + 1,
            final(self).referenced == old(self).referenced,
    {
        let place = number(&mut self.numbers, name);
        let ghost notes = self.footnotes@;
        let owned = String::from_str(name);
        proof {
            assert(texts(notes.push(owned)) =~= texts(notes).push(name@));
        }
        self.footnotes.push(owned);
        proof {
            assert(self@ =~= ExportView {
                numbers: numbered(old(self)@.numbers, name@),
                footnotes: old(self)@.footnotes.push(name@),
                ..old(self)@
            });
        }
        let mut html = String::from_str("<div class=\"footnote-definition\" id=\"");
        let mut id = String::from_str("fn:");
        id.append(name);
        html.append(escape_html(id.as_str()).as_str());
        html.append("\"><sup class=\"footnote-definition-label\">");
        push_decimal(&mut html, place as u128);
        html.append("</sup>\n");
        self.emit(MdEvent::Html(html));
    }

    /// The end of a footnote.
    fn end_footnote(&mut self)
        ensures
            final(self)@ == old(self)@.end_footnote(),
            final(self).code_blocks == old(self).code_blocks,
            final(self).open == old(self).open,
            final(self).numbers == old(self).numbers,
            final(self).referenced == old(self).referenced,
    {
        let name = pop_text(&mut self.footnotes);
        proof {
            assert(self@ =~= ExportView {
                footnotes: without_last(old(self)@.footnotes),
                ..old(self)@
            });
        }
        let mut html = String::from_str("<a href=\"#");
        let mut id = String::from_str("fnref:");
        id.append(name.as_str());
        html.append(escape_html(id.as_str()).as_str());
        html.append("\" class=\"footnote-backref\">\u{21a9}</a></div>\n");
        self.emit(MdEvent::Html(html));
    }

    /// Math that typesets is drawn; math that does not is left out.
    fn math(&mut self, display: bool, source: Option<&str>)
        ensures
            final(self)@ == old(self)@.math(
                display,
                match source {
                    Some(source) => Some(source@),
                    None => None,
                },
            ),
            final(self).code_blocks == old(self).code_blocks,
            final(self).open == old(self).open,
            final(self).numbers == old(self).numbers,
            final(self).referenced == old(self).referenced,
    {
        if let Some(svg) = source {
            let mut html = String::new();
            if display {
                html.append("<span class=\"math-display\">");
                html.append(svg);
                html.append("</span>");
            } else {
                html.append(svg);
            }
            proof {
                assert(html@ =~= if display {
                    "<span class=\"math-display\">"@ + svg@ + "</span>"@
                } else {
                    svg@
                });
            }
            self.emit(MdEvent::InlineHtml(html));
        }
    }

    /// An event outside code blocks and images with a width of their own.
    fn plain(&mut self, event: &DocEvent, source: Option<&str>)
        requires
            old(self).numbers@.len() < usize::MAX,
            old(self).referenced@.len() < usize::MAX,
        ensures
            final(self)@ == old(self)@.plain(
                event@,
                match source {
                    Some(source) => Some(source@),
                    None => None,
                },
            ),
            final(self).code_blocks == old(self).code_blocks,
            final(self).open.depth == old(self).open.depth,
            final(self).numbers@.len() <= old(self).numbers@.len() + 1,
            final(self).referenced@.len() <= old(self).referenced@.len() + 1,
    {
        match event {
            MdEvent::Html(chunk) => self.raw_html(chunk.as_str(), true),
            MdEvent::InlineHtml(chunk) => self.raw_html(chunk.as_str(), false),
            MdEvent::End(TagEnd::HtmlBlock) => {
                let closed = self.open.close(false, Opened::Block { paragraph: true });
                proof {
                    assert(self@ =~= ExportView {
                        open: old(self)@.open.without(false, Opened::Block { paragraph: true }),
                        ..old(self)@
                    });
                }
                self.end_elements(closed);
                self.emit(MdEvent::End(TagEnd::HtmlBlock));
            },
            MdEvent::End(TagEnd::Paragraph) => self.end_text(event),
            MdEvent::End(TagEnd::Heading(_)) => self.end_text(event),
            MdEvent::End(TagEnd::TableCell) => self.end_text(event),
            MdEvent::End(TagEnd::Item) => self.end_text(event),
            MdEvent::Start(MdTag::CodeBlock(info)) => {
                let info = match info {
                    Some(info) => info.clone(),
                    None => String::new(),
                };
                self.code = Some((info, String::new()));
                proof {
                    assert(self@ =~= old(self)@.plain(event@, None));
                }
            },
            MdEvent::Start(MdTag::Table(_)) => {
                self.emit(MdEvent::Html(String::from_str("<div class=\"table\">\n")));
                self.emit(copy_event(event));
            },
            MdEvent::End(TagEnd::Table) => {
                self.emit(MdEvent::End(TagEnd::Table));
                self.emit(MdEvent::Html(String::from_str("</div>\n")));
            },
            MdEvent::Start(MdTag::Link { link_type, dest_url, title, id }) => {
                self.emit(
                    MdEvent::Start(
                        MdTag::Link {
                            link_type: *link_type,
                            dest_url: sanitize_export_url(dest_url.as_str()),
                            title: title.clone(),
                            id: id.clone(),
                        },
                    ),
                );
            },
            MdEvent::Start(MdTag::Image { dest_url, width, .. }) => {
                self.image(event, dest_url.as_str(), *width, source);
            },
            MdEvent::End(TagEnd::Image) => {
                let kept = match self.images.pop() {
                    Some(kept) => kept,
                    None => false,
                };
                proof {
                    assert(self@ =~= ExportView {
                        images: without_last(old(self)@.images),
                        ..old(self)@
                    });
                }
                if kept {
                    self.emit(MdEvent::End(TagEnd::Image));
                }
            },
            MdEvent::InlineMath(_) => self.math(false, source),
            MdEvent::DisplayMath(_) => self.math(true, source),
            MdEvent::FootnoteReference(name) => self.reference(name.as_str()),
            MdEvent::Start(MdTag::FootnoteDefinition(name)) => self.footnote(name.as_str()),
            MdEvent::End(TagEnd::FootnoteDefinition) => self.end_footnote(),
            other => self.emit(copy_event(other)),
        }
    }

    /// One more event of the document.
    fn step(
        &mut self,
        event: &DocEvent,
        source: Option<&str>,
        light: &Vec<Vec<CodeRun>>,
        dark: &Vec<Vec<CodeRun>>,
        Ghost(n): Ghost<nat>,
    )
        requires
            old(self).fits(n),
            n < usize::MAX,
        ensures
            final(self)@ == old(self)@.step(
                event@,
                match source {
                    Some(source) => Some(source@),
                    None => None,
                },
                light@,
                dark@,
            ),
            final(self).fits(n + 1),
    {
        self.follow(event, Ghost(n));
        let ghost next = self@;
        match self.sized.take() {
            Some((shown, width, alt)) => {
                proof {
                    assert((ExportView { sized: Some((shown@, width, alt@)), ..self@ }) =~= next);
                }
                self.in_sized_image(shown, width, alt, event);
            },
            None => {
                proof {
                    assert(self@ =~= next);
                }
                match self.code.take() {
                    Some((info, code)) => {
                        proof {
                            assert((ExportView { code: Some((info@, code@)), ..self@ }) =~= next);
                        }
                        self.in_code(info, code, event, light, dark);
                    },
                    None => {
                        proof {
                            assert(self@ =~= next);
                        }
                        self.plain(event, source);
                    },
                }
            },
        }
    }
}

/// The events of the page of a document. `sources` holds, for each event that starts an image
/// or is math, what it is shown as: the `data:` address of a file of the document's folder, or
/// an SVG. `light` and `dark` are the colours of the code blocks.
pub fn export_events(
    events: &Vec<DocEvent>,
    sources: &Vec<Option<String>>,
    light: &Vec<Vec<CodeRun>>,
    dark: &Vec<Vec<CodeRun>>,
) -> (out: Vec<DocEvent>)
    ensures
        crate::event::views(out@) == page_events(
            crate::event::views(events@),
            sources@,
            light@,
            dark@,
        ),
{
    let mut export = Export {
        events: Vec::new(),
        code: None,
        code_blocks: 0,
        images: Vec::new(),
        numbers: Vec::new(),
        referenced: Vec::new(),
        footnotes: Vec::new(),
        styles: Vec::new(),
        open: OpenHtml::new(),
        sized: None,
    };
    let ghost all = crate::event::views(events@);
    proof {
        assert(export@ =~= export_start());
    }
    for i in 0..events.len()
        invariant
            all == crate::event::views(events@),
            export@ == exported(all, sources@, light@, dark@, i as int),
            export.fits(i as nat),
    {
        let source = if i < sources.len() {
            match &sources[i] {
                Some(source) => Some(source.as_str()),
                None => None,
            }
        } else {
            None
        };
        proof {
            assert(all[i as int] == events@[i as int]@);
        }
        export.step(&events[i], source, light, dark, Ghost(i as nat));
    }
    let ghost end = export@;
    let closed = export.open.close_all();
    proof {
        assert(export@ =~= ExportView {
            open: OpenView { open: Seq::empty(), ..end.open },
            ..end
        });
    }
    export.end_elements(closed);
    export.events
}

}
