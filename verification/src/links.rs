//! Where the links of the preview lead, and the boxes of its task lists.

use crate::event::{EventView, MdEvent, MdTag};
use crate::export::{has_scheme, url_has_scheme};
use crate::folder::{is_markdown, is_markdown_name};
use crate::page::{document, document_events};
use crate::parse::{located, parsed, GITHUB};
use crate::preview::{is_followed, is_safe_link};
use crate::text::{
    begins, chars_of, find, find_at, has_at, same, slice, slice_of, stands_at, starts_with, text_of,
};
use std::ops::Range;
use vstd::prelude::*;
use vstd::string::*;
use vstd::utf8::encode_utf8;

verus! {

/// Where a link leads, over a type of text `S`.
#[derive(Debug, PartialEq)]
pub enum LinkTarget<S> {
    /// An address for the browser or the mail program.
    Web(S),
    /// The heading of a name.
    Heading(S),
    /// A footnote.
    Note(S),
    /// The first reference to a footnote.
    Reference(S),
    /// A Markdown file, by its path from the document's folder.
    File(S),
    Nothing,
}

/// Where a link leads, as contracts speak of it.
pub type LinkTargetView = LinkTarget<Seq<char>>;

impl View for LinkTarget<String> {
    type V = LinkTargetView;

    open spec fn view(&self) -> LinkTargetView {
        match *self {
            LinkTarget::Web(url) => LinkTarget::Web(url@),
            LinkTarget::Heading(name) => LinkTarget::Heading(name@),
            LinkTarget::Note(name) => LinkTarget::Note(name@),
            LinkTarget::Reference(name) => LinkTarget::Reference(name@),
            LinkTarget::File(path) => LinkTarget::File(path@),
            LinkTarget::Nothing => LinkTarget::Nothing,
        }
    }
}

/// An address without its fragment.
pub open spec fn without_fragment(url: Seq<char>) -> Seq<char> {
    match find_at(url, 0, "#"@) {
        Some(at) => url.take(at),
        None => url,
    }
}

/// Where a link leads. Web and mail addresses open outside, places in the document and Markdown
/// files by their paths from its folder inside, and nothing else does.
pub open spec fn target_of(url: Seq<char>, has_folder: bool) -> LinkTargetView {
    if is_followed(url) {
        LinkTarget::Web(url)
    } else if starts_with(url, "#fn:"@) {
        LinkTarget::Note(url.skip(4))
    } else if starts_with(url, "#fnref:"@) {
        LinkTarget::Reference(url.skip(7))
    } else if starts_with(url, "#"@) {
        LinkTarget::Heading(url.skip(1))
    } else if has_folder && !has_scheme(url) && !starts_with(url, "/"@) && is_markdown_name(
        without_fragment(url),
    ) {
        LinkTarget::File(without_fragment(url))
    } else {
        LinkTarget::Nothing
    }
}

/// `text` from its character `from` on.
fn rest_of(text: &str, from: usize) -> (rest: String)
    requires
        from <= text@.len(),
    ensures
        rest@ == text@.skip(from as int),
{
    let chars = chars_of(text);
    let rest = text_of(&chars, from, chars.len());
    proof {
        assert(rest@ =~= text@.skip(from as int));
    }
    rest
}

/// Where a link of a document leads, which has a folder or not.
pub fn link_target(url: &str, has_folder: bool) -> (target: LinkTarget<String>)
    ensures
        target@ == target_of(url@, has_folder),
{
    proof {
        reveal_strlit("#");
        reveal_strlit("#fn:");
        reveal_strlit("#fnref:");
    }
    if is_safe_link(url) {
        return LinkTarget::Web(String::from_str(url));
    }
    if begins(url, "#fn:") {
        return LinkTarget::Note(rest_of(url, 4));
    }
    if begins(url, "#fnref:") {
        return LinkTarget::Reference(rest_of(url, 7));
    }
    if begins(url, "#") {
        return LinkTarget::Heading(rest_of(url, 1));
    }
    if !has_folder || url_has_scheme(url) || begins(url, "/") {
        return LinkTarget::Nothing;
    }
    let chars = chars_of(url);
    let end = match find(&chars, 0, &chars_of("#")) {
        Some(at) => at,
        None => chars.len(),
    };
    proof {
        if let Some(at) = find_at(url@, 0, "#"@) {
            assert(stands_at(url@, at, "#"@));
        }
    }
    let path = text_of(&chars, 0, end);
    proof {
        assert(path@ =~= without_fragment(url@));
    }
    if is_markdown(path.as_str()) {
        LinkTarget::File(path)
    } else {
        LinkTarget::Nothing
    }
}

/// A link leaves the application only to the web or mail address it gives, and an address of
/// another scheme leads nowhere.
pub proof fn links_stay_safe(url: Seq<char>, has_folder: bool)
    ensures
        target_of(url, has_folder) matches LinkTarget::Web(out) ==> out == url && is_followed(url),
        has_scheme(url) && !is_followed(url) ==> target_of(url, has_folder) is Nothing,
{
    reveal_strlit("#");
    reveal_strlit("#fn:");
    reveal_strlit("#fnref:");
    if has_scheme(url) {
        let end = choose|end: int| #[trigger] crate::export::is_scheme(url, end);
        assert(crate::export::is_letter(url[0]));
        if starts_with(url, "#"@) {
            assert(url.take(1)[0] == "#"@[0]);
        }
        if starts_with(url, "#fn:"@) {
            assert(url.take(4)[0] == "#fn:"@[0]);
        }
        if starts_with(url, "#fnref:"@) {
            assert(url.take(7)[0] == "#fnref:"@[0]);
        }
    }
}

/// How many of the first `n` events start a heading.
pub open spec fn headings_in(events: Seq<EventView>, n: int) -> nat
    decreases n,
{
    if n <= 0 {
        0
    } else {
        headings_in(events, n - 1) + if events[n - 1] matches MdEvent::Start(
            MdTag::Heading { .. },
        ) {
            1nat
        } else {
            0
        }
    }
}

/// Whether an event starts the heading of a name.
pub open spec fn names(event: EventView, name: Seq<char>) -> bool {
    event matches MdEvent::Start(MdTag::Heading { id, .. }) && id == Some(name)
}

/// How many headings precede the first one of a name, if there is one.
pub open spec fn heading_named(events: Seq<EventView>, name: Seq<char>, n: int) -> Option<nat>
    decreases events.len() - n,
{
    if n < 0 || n >= events.len() {
        None
    } else if names(events[n], name) {
        Some(headings_in(events, n))
    } else {
        heading_named(events, name, n + 1)
    }
}

/// How many headings of a document precede the one that a link to `name` leads to, if there is
/// one.
pub fn find_heading(text: &str, name: &str) -> (found: Option<usize>)
    ensures
        match found {
            Some(n) => heading_named(document(text@), name@, 0) == Some(n as nat),
            None => heading_named(document(text@), name@, 0) is None,
        },
{
    let events = document_events(text);
    let ghost all = crate::event::views(events@);
    let mut before: usize = 0;
    for i in 0..events.len()
        invariant
            all == crate::event::views(events@),
            all == document(text@),
            before == headings_in(all, i as int),
            before <= i,
            heading_named(all, name@, 0) == heading_named(all, name@, i as int),
    {
        proof {
            assert(all[i as int] == events@[i as int]@);
        }
        if let MdEvent::Start(MdTag::Heading { id, .. }) = &events[i] {
            if let Some(id) = id {
                if same(id.as_str(), name) {
                    return Some(before);
                }
            }
            before = before + 1;
        }
    }
    None
}

/// The boxes among events: whether each is ticked, and where it stands in the source.
pub open spec fn boxes(events: Seq<(EventView, Range<usize>)>) -> Seq<(bool, Range<usize>)>
    decreases events.len(),
{
    if events.len() == 0 {
        Seq::empty()
    } else {
        let before = boxes(events.drop_last());
        match events.last().0 {
            MdEvent::TaskListMarker(ticked) => before.push((ticked, events.last().1)),
            _ => before,
        }
    }
}

/// What ticking a box, or taking the tick away, does to the source: which character changes,
/// and what it becomes. `None` where no box stands there.
pub open spec fn tick_of(text: Seq<char>, ticked: bool, range: Range<usize>) -> Option<(int, char)> {
    match slice_of(text, 0, range.start as int) {
        Some(before) => {
            let at = before.len() as int;
            if stands_at(text, at, "["@) && stands_at(text, at + 2, "]"@) {
                Some(
                    (
                        at + 1,
                        if ticked {
                            ' '
                        } else {
                            'x'
                        },
                    ),
                )
            } else {
                None
            }
        },
        None => None,
    }
}

/// What clicking box `n` of a document does to its source.
pub open spec fn nth_tick(text: Seq<char>, found: Seq<(bool, Range<usize>)>, n: int) -> Option<
    (int, char),
> {
    if 0 <= n < found.len() {
        tick_of(text, found[n].0, found[n].1)
    } else {
        None
    }
}

/// The change to the source that a click on a box makes: which character changes, and what it
/// becomes. The box stands at the bytes of `range`, and is `ticked` or not.
pub fn tick_box(text: &str, ticked: bool, range: &Range<usize>) -> (change: Option<(usize, char)>)
    ensures
        match change {
            Some((at, mark)) => tick_of(text@, ticked, *range) == Some((at as int, mark)),
            None => tick_of(text@, ticked, *range) is None,
        },
        change matches Some((at, _)) ==> at < text@.len(),
{
    let before = match slice(text, 0, range.start) {
        Some(before) => before,
        None => {
            return None;
        },
    };
    let at = before.as_str().unicode_len();
    let chars = chars_of(text);
    proof {
        reveal_strlit("[");
        reveal_strlit("]");
    }
    if chars.len() < 3 || at > chars.len() - 3 {
        proof {
            assert(!stands_at(text@, at + 2, "]"@));
        }
        return None;
    }
    if has_at(&chars, at, &chars_of("[")) && has_at(&chars, at + 2, &chars_of("]")) {
        Some(
            (
                at + 1,
                if ticked {
                    ' '
                } else {
                    'x'
                },
            ),
        )
    } else {
        None
    }
}

/// The change to the source that a click on box `n` of the document makes, as typing it would.
pub fn tick(text: &str, n: usize) -> (change: Option<(usize, char)>)
    ensures
        match change {
            Some((at, mark)) => nth_tick(text@, boxes(parsed(text@, GITHUB)), n as int) == Some(
                (at as int, mark),
            ),
            None => nth_tick(text@, boxes(parsed(text@, GITHUB)), n as int) is None,
        },
{
    let events = crate::parse::events(text, GITHUB);
    let ghost all = located(events@);
    let mut found: Vec<(bool, Range<usize>)> = Vec::new();
    proof {
        assert(all.take(0) =~= Seq::<(EventView, Range<usize>)>::empty());
        assert(found@ =~= Seq::<(bool, Range<usize>)>::empty());
    }
    for i in 0..events.len()
        invariant
            all == located(events@),
            found@ == boxes(all.take(i as int)),
    {
        proof {
            assert(all.take(i + 1).drop_last() =~= all.take(i as int));
            assert(all.take(i + 1).last() == (events@[i as int].0@, events@[i as int].1));
        }
        if let MdEvent::TaskListMarker(ticked) = &events[i].0 {
            let range = events[i].1.start..events[i].1.end;
            found.push((*ticked, range));
        }
    }
    proof {
        assert(all.take(all.len() as int) =~= all);
    }
    if n < found.len() {
        tick_box(text, found[n].0, &found[n].1)
    } else {
        None
    }
}

/// The bytes of two texts are those of one after the other.
proof fn bytes_add(a: Seq<char>, b: Seq<char>)
    ensures
        encode_utf8(a + b) == encode_utf8(a) + encode_utf8(b),
    decreases b.len(),
{
    if b.len() == 0 {
        assert(a + b =~= a);
        assert(encode_utf8(a) + encode_utf8(b) =~= encode_utf8(a));
    } else {
        let last = b.last();
        bytes_add(a, b.drop_last());
        assert(a + b =~= (a + b.drop_last()).push(last));
        assert(b =~= b.drop_last().push(last));
        crate::export::encode_push(a + b.drop_last(), last);
        crate::export::encode_push(b.drop_last(), last);
        assert(encode_utf8(a + b) =~= encode_utf8(a) + encode_utf8(b));
    }
}

/// What precedes a place in a text is part of it.
proof fn head_is_part(text: Seq<char>, start: int)
    requires
        slice_of(text, 0, start) is Some,
    ensures
        text == slice_of(text, 0, start)->0 + text.skip(slice_of(text, 0, start)->0.len() as int),
        encode_utf8(slice_of(text, 0, start)->0).len() == start,
{
    let bytes = encode_utf8(text);
    let before = slice_of(text, 0, start)->0;
    vstd::utf8::encode_utf8_valid_utf8(text);
    vstd::utf8::encode_utf8_decode_utf8(text);
    vstd::utf8::valid_utf8_split(bytes, start);
    vstd::utf8::decode_utf8_split(bytes, start);
    vstd::utf8::decode_utf8_encode_utf8(bytes.subrange(0, start));
    let rest = vstd::utf8::decode_utf8(bytes.subrange(start, bytes.len() as int));
    assert(text =~= before + rest);
    assert(text.skip(before.len() as int) =~= rest);
}

/// What precedes a place in a text is what is found before it.
proof fn head_is_found(before: Seq<char>, rest: Seq<char>)
    ensures
        slice_of(before + rest, 0, encode_utf8(before).len() as int) == Some(before),
{
    let text = before + rest;
    let bytes = encode_utf8(text);
    let start = encode_utf8(before).len() as int;
    bytes_add(before, rest);
    vstd::utf8::encode_utf8_valid_utf8(text);
    vstd::utf8::encode_utf8_valid_utf8(before);
    vstd::utf8::encode_utf8_valid_utf8(rest);
    vstd::utf8::encode_utf8_decode_utf8(before);
    assert(bytes.subrange(0, start) =~= encode_utf8(before));
    if start < bytes.len() {
        assert(bytes[start] == encode_utf8(rest)[0]);
        vstd::utf8::is_char_boundary_iff_not_is_continuation_byte(bytes, start);
        vstd::utf8::is_char_boundary_iff_not_is_continuation_byte(encode_utf8(rest), 0);
        vstd::utf8::is_char_boundary_start_end_of_seq(encode_utf8(rest));
    } else {
        vstd::utf8::is_char_boundary_start_end_of_seq(bytes);
    }
    vstd::utf8::is_char_boundary_start_end_of_seq(encode_utf8(before));
}

/// The source once a box that stands at `range` was clicked.
pub open spec fn clicked(text: Seq<char>, ticked: bool, range: Range<usize>) -> Seq<char> {
    match tick_of(text, ticked, range) {
        Some((at, mark)) => text.update(at, mark),
        None => text,
    }
}

/// Clicking a box changes its mark and nothing else, and clicking it again leaves the source as
/// it was, but that a capital mark has become a small one.
pub proof fn ticks_are_undone(text: Seq<char>, ticked: bool, range: Range<usize>)
    ensures
        clicked(text, ticked, range).len() == text.len(),
        match tick_of(text, ticked, range) {
            Some((at, mark)) => {
                let once = clicked(text, ticked, range);
                &&& once[at] == mark
                &&& forall|i: int| 0 <= i < text.len() && i != at ==> once[i] == text[i]
                &&& clicked(once, !ticked, range) == text.update(
                    at,
                    if ticked {
                        'x'
                    } else {
                        ' '
                    },
                )
            },
            None => clicked(text, ticked, range) == text,
        },
{
    if let Some((at, mark)) = tick_of(text, ticked, range) {
        reveal_strlit("[");
        reveal_strlit("]");
        let start = range.start as int;
        let before = slice_of(text, 0, start)->0;
        let once = text.update(at, mark);
        head_is_part(text, start);
        assert(stands_at(text, at - 1, "["@));
        assert(stands_at(text, at + 1, "]"@));
        let rest = once.skip(before.len() as int);
        assert(once =~= before + rest);
        head_is_found(before, rest);
        assert(slice_of(once, 0, start) == Some(before));
        assert(once.subrange(at - 1, at) =~= text.subrange(at - 1, at));
        assert(once.subrange(at + 1, at + 2) =~= text.subrange(at + 1, at + 2));
        assert(clicked(once, !ticked, range) =~= text.update(
            at,
            if ticked {
                'x'
            } else {
                ' '
            },
        ));
    }
}

/// The links that the preview makes of footnotes lead to them: a reference to its footnote, and a
/// footnote back to its first reference. Any other place in the document is a heading.
pub proof fn links_lead_to_their_places(name: Seq<char>, has_folder: bool)
    ensures
        target_of("#"@ + crate::rewrite::footnote_id_of(name), has_folder) == LinkTarget::Note(
            name,
        ),
        target_of("#"@ + crate::rewrite::reference_id_of(name), has_folder)
            == LinkTarget::Reference(name),
        !starts_with(name, "fn:"@) && !starts_with(name, "fnref:"@) ==> target_of(
            "#"@ + name,
            has_folder,
        ) == LinkTarget::Heading(name),
{
    reveal_strlit("#");
    reveal_strlit("fn:");
    reveal_strlit("fnref:");
    reveal_strlit("#fn:");
    reveal_strlit("#fnref:");
    reveal_strlit("http://");
    reveal_strlit("https://");
    reveal_strlit("mailto:");
    let note = "#"@ + ("fn:"@ + name);
    let reference = "#"@ + ("fnref:"@ + name);
    let heading = "#"@ + name;
    assert(note.subrange(0, 4) =~= "#fn:"@);
    assert(note.skip(4) =~= name);
    assert(reference.subrange(0, 7) =~= "#fnref:"@);
    assert(reference.skip(7) =~= name);
    assert(heading.subrange(0, 1) =~= "#"@);
    assert(heading.skip(1) =~= name);
    assert forall|url: Seq<char>| url.len() > 0 && #[trigger] url[0] == '#' implies !is_followed(
        url,
    ) by {
        if starts_with(url, "http://"@) {
            assert(url.subrange(0, 7)[0] == 'h');
        }
        if starts_with(url, "https://"@) {
            assert(url.subrange(0, 8)[0] == 'h');
        }
        if starts_with(url, "mailto:"@) {
            assert(url.subrange(0, 7)[0] == 'm');
        }
    }
    assert(note[0] == '#' && reference[0] == '#' && heading[0] == '#');
    if starts_with(reference, "#fn:"@) {
        assert(reference.subrange(0, 4)[3] == ':');
        assert(reference[3] == 'r');
    }
    if starts_with(heading, "#fn:"@) {
        assert(name.subrange(0, 3) =~= heading.subrange(0, 4).skip(1));
        assert("#fn:"@.skip(1) =~= "fn:"@);
    }
    if starts_with(heading, "#fnref:"@) {
        assert(name.subrange(0, 6) =~= heading.subrange(0, 7).skip(1));
        assert("#fnref:"@.skip(1) =~= "fnref:"@);
    }
}

/// A link to a name leads to the first heading of that name, after all the headings before it, and
/// nowhere if there is none.
pub proof fn links_lead_to_the_first_heading(events: Seq<EventView>, name: Seq<char>, from: int)
    requires
        0 <= from <= events.len(),
    ensures
        match heading_named(events, name, from) {
            Some(before) => exists|n: int|
                from <= n < events.len() && #[trigger] names(events[n], name) && before
                    == events.take(n).filter(
                    |event: EventView|
                        event matches MdEvent::Start(tag) && tag is Heading,
                ).len() && forall|k: int| from <= k < n ==> !names(#[trigger] events[k], name),
            None => forall|k: int| from <= k < events.len() ==> !names(#[trigger] events[k], name),
        },
    decreases events.len() - from,
{
    if from < events.len() {
        if names(events[from], name) {
            headings_are_counted(events, from);
        } else {
            links_lead_to_the_first_heading(events, name, from + 1);
        }
    }
}

/// The headings among the first events are counted.
proof fn headings_are_counted(events: Seq<EventView>, n: int)
    requires
        0 <= n <= events.len(),
    ensures
        headings_in(events, n) == events.take(n).filter(
            |event: EventView| event matches MdEvent::Start(tag) && tag is Heading,
        ).len(),
    decreases n,
{
    reveal(Seq::filter);
    if n > 0 {
        headings_are_counted(events, n - 1);
        assert(events.take(n).drop_last() =~= events.take(n - 1));
        assert(events.take(n).last() == events[n - 1]);
    }
}

/// The boxes of a document are its ticks, in order, each where it stands.
pub proof fn boxes_are_the_ticks(events: Seq<(EventView, Range<usize>)>)
    ensures
        boxes(events) == events.filter(
            |item: (EventView, Range<usize>)| item.0 is TaskListMarker,
        ).map_values(
            |item: (EventView, Range<usize>)| (item.0->TaskListMarker_0, item.1),
        ),
    decreases events.len(),
{
    reveal(Seq::filter);
    let tick = |item: (EventView, Range<usize>)| item.0 is TaskListMarker;
    let place = |item: (EventView, Range<usize>)| (item.0->TaskListMarker_0, item.1);
    if events.len() > 0 {
        boxes_are_the_ticks(events.drop_last());
    }
    assert(boxes(events) =~= events.filter(tick).map_values(place));
}

/// Clicking a box that stands between brackets ticks it, or takes the tick away.
pub proof fn clicks_tick(text: Seq<char>, before: Seq<char>, ticked: bool, range: Range<usize>)
    requires
        range.start == encode_utf8(before).len(),
        before.len() + 3 <= text.len(),
        text.take(before.len() as int) == before,
        text[before.len() as int] == '[',
        text[before.len() as int + 2] == ']',
    ensures
        tick_of(text, ticked, range) == Some(
            (
                before.len() as int + 1,
                if ticked {
                    ' '
                } else {
                    'x'
                },
            ),
        ),
{
    reveal_strlit("[");
    reveal_strlit("]");
    let at = before.len() as int;
    assert(text =~= before + text.skip(at));
    head_is_found(before, text.skip(at));
    assert(text.subrange(at, at + 1) =~= "["@);
    assert(text.subrange(at + 2, at + 3) =~= "]"@);
}

}
