//! What holds of every text whose web addresses are taken as links.

use crate::autolink::{
    address_at, address_end, address_fits, autolinked, count_of, link_piece, linked, may_start,
    opening, stretch_end, text_in, text_piece,
};
use crate::event::{EventView, MdEvent, MdTag};
use crate::text::{is_white, stands_at};
use pulldown_cmark::{LinkType, TagEnd};
use vstd::prelude::*;

verus! {

/// Whether the start of a web address stands at `at`.
pub open spec fn address_stands(text: Seq<char>, at: int) -> bool {
    stands_at(text, at, "https://"@) || stands_at(text, at, "http://"@) || stands_at(
        text,
        at,
        "www."@,
    )
}

/// How long the start of the web address at `at` is.
pub open spec fn start_length(text: Seq<char>, at: int) -> int {
    if stands_at(text, at, "www."@) {
        4
    } else if stands_at(text, at, "http://"@) {
        7
    } else {
        8
    }
}

/// Whether `at` is the start of the text, or comes after white space or what opens emphasis or
/// brackets.
pub open spec fn stands_free(text: Seq<char>, at: int) -> bool {
    at == 0 || {
        let before = text[at - 1];
        is_white(before) || before == '(' || before == '*' || before == '_' || before == '~'
    }
}

/// Whether a character ends every address before it.
pub open spec fn is_break(c: char) -> bool {
    is_white(c) || c == '<'
}

/// Whether a character is punctuation that no address ends with.
pub open spec fn is_punctuation(c: char) -> bool {
    c == '.' || c == ',' || c == ':' || c == ';' || c == '?' || c == '!' || c == '\'' || c == '"'
        || c == '*' || c == '_' || c == '~'
}

/// Whether there is something between every start of an address before `at` and `at` that ends
/// the address.
pub open spec fn stands_outside_addresses(text: Seq<char>, at: int) -> bool {
    forall|p: int|
        0 <= p < at && #[trigger] address_stands(text, p) ==> exists|q: int|
            p <= q < at && is_break(#[trigger] text[q])
}

/// How many characters `c` there are in a text.
pub open spec fn number_of(text: Seq<char>, c: char) -> nat {
    text.filter(|other: char| other == c).len()
}

/// Whether the event `i` starts a link with nothing in it but the text `shown`, which leads to the
/// address that is written out.
pub open spec fn links_at(events: Seq<EventView>, i: int, shown: Seq<char>) -> bool {
    &&& 0 <= i < events.len() - 2
    &&& events[i] == EventView::Start(
        MdTag::Link {
            link_type: LinkType::Autolink,
            dest_url: if stands_at(shown, 0, "www."@) {
                "http://"@ + shown
            } else {
                shown
            },
            title: Seq::empty(),
            id: Seq::empty(),
        },
    )
    &&& events[i + 1] == EventView::Text(shown)
    &&& events[i + 2] == EventView::End(TagEnd::Link)
}

/// An address starts where the start of one stands.
proof fn openings_stand(text: Seq<char>, at: int)
    requires
        0 <= at <= text.len(),
    ensures
        opening(text, at) > 0 <==> address_stands(text, at),
        address_stands(text, at) ==> opening(text, at) == start_length(text, at) && at
            + start_length(text, at) <= text.len() && forall|k: int|
            at <= k < at + start_length(text, at) ==> !is_break(#[trigger] text[k]),
{
    reveal_strlit("https://");
    reveal_strlit("http://");
    reveal_strlit("www.");
    if stands_at(text, at, "https://"@) {
        assert(text[at] == text.subrange(at, at + 8)[0]);
        assert(text[at + 4] == text.subrange(at, at + 8)[4]);
        assert forall|k: int| at <= k < at + 8 implies !is_break(#[trigger] text[k]) by {
            assert(text[k] == text.subrange(at, at + 8)[k - at]);
        }
    }
    if stands_at(text, at, "http://"@) {
        assert(text[at] == text.subrange(at, at + 7)[0]);
        assert(text[at + 4] == text.subrange(at, at + 7)[4]);
        assert forall|k: int| at <= k < at + 7 implies !is_break(#[trigger] text[k]) by {
            assert(text[k] == text.subrange(at, at + 7)[k - at]);
        }
    }
    if stands_at(text, at, "www."@) {
        assert(text[at] == text.subrange(at, at + 4)[0]);
        assert forall|k: int| at <= k < at + 4 implies !is_break(#[trigger] text[k]) by {
            assert(text[k] == text.subrange(at, at + 4)[k - at]);
        }
    }
}

/// A stretch goes on up to the first character that ends it.
proof fn stretch_is_unbroken(text: Seq<char>, at: int)
    requires
        0 <= at <= text.len(),
    ensures
        at <= stretch_end(text, at) <= text.len(),
        forall|k: int| at <= k < stretch_end(text, at) ==> !is_break(#[trigger] text[k]),
        stretch_end(text, at) < text.len() ==> is_break(text[stretch_end(text, at)]),
    decreases text.len() - at,
{
    if at < text.len() && !is_white(text[at]) && text[at] != '<' {
        stretch_is_unbroken(text, at + 1);
    }
}

/// Characters are counted one by one.
proof fn counts_are_numbers(text: Seq<char>, at: int, end: int, c: char)
    requires
        0 <= at <= end <= text.len(),
    ensures
        count_of(text, at, end, c) == number_of(text.subrange(at, end), c),
    decreases end - at,
{
    reveal(Seq::filter);
    let part = text.subrange(at, end);
    if at < end {
        counts_are_numbers(text, at, end - 1, c);
        assert(part.drop_last() =~= text.subrange(at, end - 1));
    }
}

/// What an address ends before: punctuation, or a bracket that it does not open, up to what ends
/// every address.
proof fn ends_are_trimmed(text: Seq<char>, at: int, end: int)
    requires
        0 <= at <= end <= text.len(),
    ensures
        ({
            let last = address_end(text, at, end);
            &&& at <= last <= end
            &&& forall|k: int|
                last <= k < end ==> is_punctuation(#[trigger] text[k]) || text[k] == ')'
            &&& last < end && text[last] == ')' ==> number_of(text.subrange(at, last + 1), ')')
                > number_of(text.subrange(at, last + 1), '(')
            &&& at < last ==> !is_punctuation(text[last - 1])
            &&& at < last && text[last - 1] == ')' ==> number_of(text.subrange(at, last), ')')
                <= number_of(text.subrange(at, last), '(')
            &&& forall|k: int|
                at <= k < end && !is_punctuation(#[trigger] text[k]) && text[k] != ')' ==> k < last
        }),
    decreases end - at,
{
    counts_are_numbers(text, at, end, ')');
    counts_are_numbers(text, at, end, '(');
    if at < end && (is_punctuation(text[end - 1]) || (text[end - 1] == ')' && count_of(
        text,
        at,
        end,
        ')',
    ) > count_of(text, at, end, '('))) {
        ends_are_trimmed(text, at, end - 1);
    }
}

/// The text of events one after the other.
proof fn texts_add(a: Seq<EventView>, b: Seq<EventView>)
    ensures
        text_in(a + b) == text_in(a) + text_in(b),
    decreases b.len(),
{
    if b.len() == 0 {
        assert(a + b =~= a);
        assert(text_in(a) + text_in(b) =~= text_in(a));
    } else {
        texts_add(a, b.drop_last());
        assert((a + b).drop_last() =~= a + b.drop_last());
        let last = match b.last() {
            MdEvent::Text(text) => text,
            _ => Seq::empty(),
        };
        assert(text_in(a) + (text_in(b.drop_last()) + last) =~= text_in(a) + text_in(b.drop_last())
            + last);
    }
}

/// The text of a stretch and of a link is what was written.
proof fn pieces_are_written(text: Seq<char>)
    ensures
        text_in(text_piece(text)) == text,
        text_in(link_piece(text)) == text,
        text_in(link_piece(text).take(0)) == Seq::<char>::empty(),
        links_at(link_piece(text), 0, text),
        link_piece(text).len() == 3,
{
    reveal_with_fuel(text_in, 4);
    let stretch = text_piece(text);
    if text.len() > 0 {
        assert(stretch.drop_last() =~= Seq::<EventView>::empty());
        assert(text_in(stretch) =~= text);
    } else {
        assert(text_in(stretch) =~= text);
    }
    let link = link_piece(text);
    assert(link.drop_last().drop_last().drop_last() =~= Seq::<EventView>::empty());
    assert(text_in(link) =~= text);
    assert(link.take(0) =~= Seq::<EventView>::empty());
}

/// The address at `at` reaches past its start, where its start stands free and something follows
/// it that an address may end with.
proof fn addresses_are_found(text: Seq<char>, at: int)
    requires
        0 <= at < text.len(),
        address_stands(text, at),
        stands_free(text, at),
        at + start_length(text, at) < text.len(),
        ({
            let next = text[at + start_length(text, at)];
            !is_break(next) && !is_punctuation(next) && next != ')'
        }),
    ensures
        address_at(text, at) == address_end(text, at, stretch_end(text, at)),
        address_at(text, at) > at + start_length(text, at),
{
    openings_stand(text, at);
    stretch_is_unbroken(text, at);
    let past = at + start_length(text, at);
    assert(!is_break(text[past]));
    assert(stretch_end(text, at) > past) by {
        if stretch_end(text, at) <= past {
            assert(is_break(text[stretch_end(text, at)]));
        }
    }
    ends_are_trimmed(text, at, stretch_end(text, at));
}

/// Where the address ends that a text read from `at` on makes a link of at `place`, and which
/// event starts the link.
proof fn links_are_made(text: Seq<char>, at: int, from: int, place: int) -> (i: int)
    requires
        0 <= from <= at <= place < text.len(),
        address_at(text, place) > place,
        stands_outside_addresses(text, place),
    ensures
        links_at(linked(text, at, from), i, text.subrange(place, address_at(text, place))),
        text_in(linked(text, at, from).take(i)) == text.subrange(from, place),
    decreases text.len() - at,
{
    address_fits(text, at);
    let end = address_at(text, at);
    let whole = linked(text, at, from);
    if end > at {
        let before = text_piece(text.subrange(from, at));
        let shown = text.subrange(at, end);
        let link = link_piece(shown);
        let rest = linked(text, end, end);
        pieces_are_written(text.subrange(from, at));
        pieces_are_written(shown);
        assert(whole =~= before + link + rest);
        if at == place {
            let i = before.len() as int;
            assert(whole.take(i) =~= before);
            assert(whole[i] == link[0] && whole[i + 1] == link[1] && whole[i + 2] == link[2]);
            i
        } else {
            openings_stand(text, at);
            stretch_is_unbroken(text, at);
            ends_are_trimmed(text, at, stretch_end(text, at));
            assert(address_stands(text, at));
            let q = choose|q: int| at <= q < place && is_break(#[trigger] text[q]);
            assert(stretch_end(text, at) <= q);
            let j = links_are_made(text, end, end, place);
            let i = before.len() + 3 + j;
            assert(whole.take(i) =~= before + link + rest.take(j));
            texts_add(before + link, rest.take(j));
            texts_add(before, link);
            assert(text.subrange(from, at) + shown + text.subrange(end, place)
                =~= text.subrange(from, place));
            assert(whole[i] == rest[j] && whole[i + 1] == rest[j + 1] && whole[i + 2] == rest[j
                + 2]);
            i
        }
    } else {
        assert(at < place);
        links_are_made(text, at + 1, from, place)
    }
}

/// Wherever `https://`, `http://` or `www.` stands at the start of a text or after white space,
/// `*`, `_`, `~` or `(`, outside another address, with a letter, a digit or anything else after
/// it that an address may end with, a link starts there: its text is what is written there up to
/// white space or `<`, without the punctuation and the brackets at its end that belong to the
/// sentence around it, and it leads to that address.
pub proof fn addresses_become_links(text: Seq<char>, at: int) -> (found: (int, int))
    requires
        0 <= at < text.len(),
        address_stands(text, at),
        stands_free(text, at),
        stands_outside_addresses(text, at),
        at + start_length(text, at) < text.len(),
        ({
            let next = text[at + start_length(text, at)];
            !is_break(next) && !is_punctuation(next) && next != ')'
        }),
    ensures
        ({
            let (i, end) = found;
            &&& links_at(linked(text, 0, 0), i, text.subrange(at, end))
            &&& text_in(linked(text, 0, 0).take(i)) == text.take(at)
            &&& at + start_length(text, at) < end <= text.len()
            &&& forall|k: int| at <= k < end ==> !is_break(#[trigger] text[k])
            &&& !is_punctuation(text[end - 1])
            &&& text[end - 1] == ')' ==> number_of(text.subrange(at, end), ')') <= number_of(
                text.subrange(at, end),
                '(',
            )
            &&& end < text.len() ==> {
                ||| is_break(text[end])
                ||| is_punctuation(text[end])
                ||| text[end] == ')' && number_of(text.subrange(at, end + 1), ')') > number_of(
                    text.subrange(at, end + 1),
                    '(',
                )
            }
            &&& forall|k: int|
                end <= k < text.len() ==> is_punctuation(#[trigger] text[k]) || text[k] == ')'
                    || exists|q: int| end <= q <= k && is_break(#[trigger] text[q])
        }),
        linked(text, 0, 0) != text_piece(text),
{
    addresses_are_found(text, at);
    address_fits(text, at);
    let end = address_at(text, at);
    let i = links_are_made(text, 0, 0, at);
    assert(text.subrange(0, at) =~= text.take(at));
    stretch_is_unbroken(text, at);
    let last = stretch_end(text, at);
    ends_are_trimmed(text, at, last);
    assert forall|k: int| end <= k < text.len() implies is_punctuation(#[trigger] text[k])
        || text[k] == ')' || exists|q: int| end <= q <= k && is_break(#[trigger] text[q]) by {
        if k >= last {
            assert(is_break(text[last]));
        }
    }
    (i, end)
}

/// Every link among the events of a text with its addresses as links, read from `at` on.
proof fn links_start_at_addresses(text: Seq<char>, at: int, from: int, i: int) -> (place: int)
    requires
        0 <= from <= at <= text.len(),
        0 <= i < linked(text, at, from).len(),
        linked(text, at, from)[i] is Start,
    ensures
        at <= place < text.len(),
        address_at(text, place) > place,
        links_at(linked(text, at, from), i, text.subrange(place, address_at(text, place))),
        text_in(linked(text, at, from).take(i)) == text.subrange(from, place),
    decreases text.len() - at,
{
    let whole = linked(text, at, from);
    if at >= text.len() {
        at
    } else {
        address_fits(text, at);
        let end = address_at(text, at);
        if end > at {
            let before = text_piece(text.subrange(from, at));
            let shown = text.subrange(at, end);
            let link = link_piece(shown);
            let rest = linked(text, end, end);
            pieces_are_written(text.subrange(from, at));
            pieces_are_written(shown);
            assert(whole =~= before + link + rest);
            let start = before.len() as int;
            if i < start {
                assert(whole[i] == before[i]);
                at
            } else if i < start + 3 {
                assert(whole[i] == link[i - start]);
                assert(i == start);
                assert(whole.take(i) =~= before);
                assert(whole[i + 1] == link[1] && whole[i + 2] == link[2]);
                at
            } else {
                let j = i - start - 3;
                assert(whole[i] == rest[j]);
                let place = links_start_at_addresses(text, end, end, j);
                assert(whole.take(i) =~= before + link + rest.take(j));
                texts_add(before + link, rest.take(j));
                texts_add(before, link);
                assert(text.subrange(from, at) + shown + text.subrange(end, place)
                    =~= text.subrange(from, place));
                assert(whole[i + 1] == rest[j + 1] && whole[i + 2] == rest[j + 2]);
                place
            }
        } else {
            links_start_at_addresses(text, at + 1, from, i)
        }
    }
}

/// Links are made of nothing but addresses: each starts where the start of an address stands
/// free, and shows more of the text than that start.
pub proof fn only_addresses_become_links(text: Seq<char>, i: int) -> (found: (int, int))
    requires
        0 <= i < linked(text, 0, 0).len(),
        linked(text, 0, 0)[i] is Start,
    ensures
        ({
            let (at, end) = found;
            &&& 0 <= at < end <= text.len()
            &&& address_stands(text, at)
            &&& stands_free(text, at)
            &&& at + start_length(text, at) < end
            &&& links_at(linked(text, 0, 0), i, text.subrange(at, end))
            &&& text_in(linked(text, 0, 0).take(i)) == text.take(at)
        }),
{
    let at = links_start_at_addresses(text, 0, 0, i);
    address_fits(text, at);
    openings_stand(text, at);
    assert(may_start(text, at));
    assert(text.subrange(0, at) =~= text.take(at));
    (at, address_at(text, at))
}

/// How many links, images and code blocks start among the first `n` events.
pub open spec fn starts_before(events: Seq<EventView>, n: int) -> nat {
    events.take(n).filter(
        |event: EventView|
            event matches MdEvent::Start(tag) && (tag is Link || tag is Image || tag is CodeBlock),
    ).len()
}

/// How many links, images and code blocks end among the first `n` events.
pub open spec fn ends_before(events: Seq<EventView>, n: int) -> nat {
    events.take(n).filter(
        |event: EventView|
            event == EventView::End(TagEnd::Link)
                || event == EventView::End(TagEnd::Image)
                || event == EventView::End(
                TagEnd::CodeBlock,
            ),
    ).len()
}

/// What is open is what started and did not end.
proof fn open_is_counted(events: Seq<EventView>, n: int)
    requires
        0 <= n <= events.len(),
        forall|k: int|
            0 <= k <= n ==> #[trigger] ends_before(events, k) <= starts_before(events, k),
    ensures
        autolinked(events, n).1 == starts_before(events, n) - ends_before(events, n),
    decreases n,
{
    reveal(Seq::filter);
    if n > 0 {
        open_is_counted(events, n - 1);
        assert(events.take(n).drop_last() =~= events.take(n - 1));
        assert(events.take(n).last() == events[n - 1]);
        assert(ends_before(events, n) <= starts_before(events, n));
    }
}

/// The addresses in a text become links exactly where no link, image or code block is open
/// around it; every other event stays as it is.
pub proof fn only_plain_text_is_linked(events: Seq<EventView>, n: int)
    requires
        0 <= n < events.len(),
        forall|k: int|
            0 <= k <= n ==> #[trigger] ends_before(events, k) <= starts_before(events, k),
    ensures
        autolinked(events, n + 1).0 == match events[n] {
            MdEvent::Text(text) if starts_before(events, n) == ends_before(events, n) =>
            autolinked(events, n).0 + linked(text, 0, 0),
            event => autolinked(events, n).0 + seq![event],
        },
{
    open_is_counted(events, n);
    assert(autolinked(events, n).0.push(events[n]) =~= autolinked(events, n).0 + seq![events[n]]);
}

}
