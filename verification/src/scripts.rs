//! Scripts and style sheets in the middle of a paragraph: their tags come as raw HTML and what
//! lies between them as text, of which nothing is shown.

use crate::event::{copy_event, views, DocEvent, DocTag, EventView, MdEvent, MdTag, TagView};
use crate::html::{copy_range, is_end_tag, is_hidden, is_name, read_name, tag_name};
use crate::text::{chars_of, same_chars};
use pulldown_cmark::TagEnd;
use vstd::prelude::*;
use vstd::string::*;

verus! {

/// Whether a start tag stands in the text of a block.
pub open spec fn starts_inline(tag: TagView) -> bool {
    match tag {
        MdTag::Emphasis => true,
        MdTag::Strong => true,
        MdTag::Strikethrough => true,
        MdTag::Superscript => true,
        MdTag::Subscript => true,
        MdTag::Link { link_type, dest_url, title, id } => true,
        MdTag::Image { link_type, dest_url, title, id, width } => true,
        _ => false,
    }
}

/// Whether an end tag stands in the text of a block.
pub open spec fn ends_inline(end: TagEnd) -> bool {
    match end {
        TagEnd::Emphasis => true,
        TagEnd::Strong => true,
        TagEnd::Strikethrough => true,
        TagEnd::Superscript => true,
        TagEnd::Subscript => true,
        TagEnd::Link => true,
        TagEnd::Image => true,
        _ => false,
    }
}

/// The inside of a piece of raw HTML that is one tag.
pub open spec fn inside(html: Seq<char>) -> Seq<char> {
    if html.len() >= 2 {
        html.subrange(1, html.len() - 1)
    } else {
        Seq::empty()
    }
}

/// Where a reader of events stands: in which script or style sheet, if in one, and of each tag
/// in the text that is open, whether it is kept.
pub struct Hiding {
    pub name: Option<Seq<char>>,
    pub kept: Seq<bool>,
}

/// Whether an event is kept: what lies in a script or a style sheet is not, nor are their tags,
/// nor is the end of what starts there.
pub open spec fn keeps(state: Hiding, event: EventView) -> bool {
    match event {
        MdEvent::Start(tag) => !starts_inline(tag) || state.name is None,
        MdEvent::End(end) => !ends_inline(end) || state.kept.len() == 0 || state.kept.last(),
        MdEvent::Html(_) => true,
        MdEvent::Rule => true,
        MdEvent::InlineHtml(html) => state.name is None && !is_hidden(inside(html)),
        _ => state.name is None,
    }
}

/// Where a reader stands after an event: a script ends at its end tag, or with the block that it
/// stands in.
pub open spec fn hiding_after(state: Hiding, event: EventView) -> Hiding {
    match event {
        MdEvent::Start(tag) => if starts_inline(tag) {
            Hiding { name: state.name, kept: state.kept.push(state.name is None) }
        } else {
            Hiding { name: None, kept: state.kept }
        },
        MdEvent::End(end) => if !ends_inline(end) {
            Hiding { name: None, kept: state.kept }
        } else if state.kept.len() > 0 {
            Hiding { name: state.name, kept: state.kept.drop_last() }
        } else {
            state
        },
        MdEvent::Html(_) => Hiding { name: None, kept: state.kept },
        MdEvent::Rule => Hiding { name: None, kept: state.kept },
        MdEvent::InlineHtml(html) => Hiding {
            name: match state.name {
                None => if is_hidden(inside(html)) {
                    Some(tag_name(inside(html)))
                } else {
                    None
                },
                Some(name) => if is_end_tag(inside(html)) && tag_name(inside(html)) == name {
                    None
                } else {
                    Some(name)
                },
            },
            kept: state.kept,
        },
        _ => state,
    }
}

/// Events without what lies in scripts and style sheets in the text of blocks, and where a
/// reader of them stands.
pub open spec fn unscripted(events: Seq<EventView>) -> (Seq<EventView>, Hiding)
    decreases events.len(),
{
    if events.len() == 0 {
        (Seq::empty(), Hiding { name: None, kept: Seq::empty() })
    } else {
        let (before, state) = unscripted(events.drop_last());
        let event = events.last();
        (
            if keeps(state, event) {
                before.push(event)
            } else {
                before
            },
            hiding_after(state, event),
        )
    }
}

/// Events that a reader comes to in the same way go on in the same way.
proof fn goes_on_alike(a: Seq<EventView>, b: Seq<EventView>, rest: Seq<EventView>)
    requires
        unscripted(a) == unscripted(b),
    ensures
        unscripted(a + rest) == unscripted(b + rest),
    decreases rest.len(),
{
    if rest.len() == 0 {
        assert(a + rest =~= a);
        assert(b + rest =~= b);
    } else {
        goes_on_alike(a, b, rest.drop_last());
        assert((a + rest).drop_last() =~= a + rest.drop_last());
        assert((b + rest).drop_last() =~= b + rest.drop_last());
        assert((a + rest).last() == rest.last());
        assert((b + rest).last() == rest.last());
    }
}

/// Whether an event is a stretch of text or a break of a line.
pub open spec fn is_words(event: EventView) -> bool {
    match event {
        MdEvent::Text(_) => true,
        MdEvent::Code(_) => true,
        MdEvent::InlineMath(_) => true,
        MdEvent::DisplayMath(_) => true,
        MdEvent::FootnoteReference(_) => true,
        MdEvent::SoftBreak => true,
        MdEvent::HardBreak => true,
        _ => false,
    }
}

/// Words in a script change nothing.
proof fn words_are_hidden(a: Seq<EventView>, words: Seq<EventView>)
    requires
        unscripted(a).1.name is Some,
        forall|i: int| 0 <= i < words.len() ==> is_words(#[trigger] words[i]),
    ensures
        unscripted(a + words) == unscripted(a),
    decreases words.len(),
{
    if words.len() == 0 {
        assert(a + words =~= a);
    } else {
        assert forall|i: int| 0 <= i < words.len() - 1 implies is_words(
            #[trigger] words.drop_last()[i],
        ) by {
            assert(is_words(words[i]));
        }
        words_are_hidden(a, words.drop_last());
        assert((a + words).drop_last() =~= a + words.drop_last());
        assert(is_words(words[words.len() - 1]));
        assert((a + words).last() == words.last());
    }
}

/// Nothing is left of a script or a style sheet in the text of a block: events with its start
/// tag, any words and its end tag are read as the events without them.
pub proof fn scripts_are_left_out(
    before: Seq<EventView>,
    start: Seq<char>,
    words: Seq<EventView>,
    end: Seq<char>,
    after: Seq<EventView>,
)
    requires
        unscripted(before).1.name is None,
        is_hidden(inside(start)),
        forall|i: int| 0 <= i < words.len() ==> is_words(#[trigger] words[i]),
        is_end_tag(inside(end)),
        tag_name(inside(end)) == tag_name(inside(start)),
    ensures
        unscripted(
            before.push(MdEvent::InlineHtml(start)) + words + seq![MdEvent::InlineHtml(end)] + after,
        ) == unscripted(before + after),
{
    let first: EventView = MdEvent::InlineHtml(start);
    let last: EventView = MdEvent::InlineHtml(end);
    let opened = before.push(first);
    assert(opened.drop_last() =~= before);
    assert(opened.last() == first);
    words_are_hidden(opened, words);
    let closed = opened + words + seq![last];
    assert(closed.drop_last() =~= opened + words);
    assert(closed.last() == last);
    goes_on_alike(closed, before, after);
}

/// Whether a start tag stands in the text of a block.
fn is_inline_start(tag: &DocTag) -> (inline: bool)
    ensures
        inline == starts_inline(tag@),
{
    match tag {
        MdTag::Emphasis => true,
        MdTag::Strong => true,
        MdTag::Strikethrough => true,
        MdTag::Superscript => true,
        MdTag::Subscript => true,
        MdTag::Link { .. } => true,
        MdTag::Image { .. } => true,
        _ => false,
    }
}

/// Whether an end tag stands in the text of a block.
fn is_inline_end(end: &TagEnd) -> (inline: bool)
    ensures
        inline == ends_inline(*end),
{
    match end {
        TagEnd::Emphasis => true,
        TagEnd::Strong => true,
        TagEnd::Strikethrough => true,
        TagEnd::Superscript => true,
        TagEnd::Subscript => true,
        TagEnd::Link => true,
        TagEnd::Image => true,
        _ => false,
    }
}

/// The name of the tag that a piece of raw HTML is, whether it is an end tag, and whether it
/// starts a script or a style sheet.
fn read_tag(html: &str) -> (read: (Vec<char>, bool, bool))
    ensures
        read.0@ == tag_name(inside(html@)),
        read.1 == is_end_tag(inside(html@)),
        read.2 == is_hidden(inside(html@)),
{
    let chars = chars_of(html);
    let tag = if chars.len() >= 2 {
        copy_range(&chars, 1, chars.len() - 1)
    } else {
        Vec::new()
    };
    proof {
        assert(tag@ =~= inside(html@));
    }
    let (name, _) = read_name(&tag);
    let is_end = tag.len() > 0 && tag[0] == '/';
    let hidden = !is_end && (is_name(&name, "script") || is_name(&name, "style"));
    (name, is_end, hidden)
}

/// The characters of a name that may be missing.
pub open spec fn name_view(name: Option<Vec<char>>) -> Option<Seq<char>> {
    match name {
        Some(name) => Some(name@),
        None => None,
    }
}

/// Events without what lies in scripts and style sheets in the text of blocks.
pub fn leave_out_scripts(events: &Vec<DocEvent>) -> (list: Vec<DocEvent>)
    ensures
        views(list@) == unscripted(views(events@)).0,
{
    let ghost all = views(events@);
    let mut list: Vec<DocEvent> = Vec::new();
    let mut name: Option<Vec<char>> = None;
    let mut kept: Vec<bool> = Vec::new();
    proof {
        assert(all.take(0) =~= Seq::<EventView>::empty());
        assert(views(list@) =~= Seq::<EventView>::empty());
    }
    for i in 0..events.len()
        invariant
            all == views(events@),
            views(list@) == unscripted(all.take(i as int)).0,
            unscripted(all.take(i as int)).1 == (Hiding { name: name_view(name), kept: kept@ }),
    {
        let ghost before = list@;
        let ghost state = Hiding { name: name_view(name), kept: kept@ };
        proof {
            assert(all.take(i + 1).drop_last() =~= all.take(i as int));
            assert(all.take(i + 1).last() == events@[i as int]@);
        }
        let event = &events[i];
        let mut keep = true;
        match event {
            MdEvent::Start(tag) => {
                if is_inline_start(tag) {
                    keep = name.is_none();
                    kept.push(keep);
                } else {
                    name = None;
                }
            },
            MdEvent::End(end) => {
                if !is_inline_end(end) {
                    name = None;
                } else if let Some(kept_start) = kept.pop() {
                    keep = kept_start;
                }
            },
            MdEvent::Html(_) => {
                name = None;
            },
            MdEvent::Rule => {
                name = None;
            },
            MdEvent::InlineHtml(html) => {
                let (called, is_end, hidden) = read_tag(html.as_str());
                keep = name.is_none() && !hidden;
                let ends = match &name {
                    Some(open) => is_end && same_chars(&called, open),
                    None => false,
                };
                if ends {
                    name = None;
                } else if name.is_none() && hidden {
                    name = Some(called);
                }
            },
            _ => {
                keep = name.is_none();
            },
        }
        proof {
            assert(keep == keeps(state, event@));
            assert(hiding_after(state, event@).kept =~= kept@);
            assert(hiding_after(state, event@).name == name_view(name));
        }
        if keep {
            let copy = copy_event(event);
            proof {
                assert(views(before.push(copy)) =~= views(before).push(copy@));
            }
            list.push(copy);
        }
    }
    proof {
        assert(all.take(all.len() as int) =~= all);
    }
    list
}

} // verus!
