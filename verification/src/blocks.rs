//! The top-level blocks of a document, and which of them an edit left as they were.

use crate::event::{opt_view, DocEvent, EventView, MdEvent, MdTag};
use crate::parse::{definition_views, located};
use crate::sorting::{comes_before, lex_less, sort, views_of, Ordered};
use crate::text::{chars_of, same, texts};
use std::ops::Range;
use vstd::prelude::*;
use vstd::string::*;

verus! {

/// The top-level blocks among the first events of a document: the range of the events and of
/// the source of each, how many tags are open, and where the open block starts.
pub struct BlocksView {
    pub blocks: Seq<(Range<usize>, Range<usize>)>,
    pub depth: int,
    pub first: int,
}

/// How many tags are open after an event.
pub open spec fn depth_after(depth: int, event: EventView) -> int {
    match event {
        MdEvent::Start(_) => depth + 1,
        MdEvent::End(_) => if depth > 0 {
            depth - 1
        } else {
            0
        },
        _ => depth,
    }
}

/// The smaller of two numbers.
pub open spec fn smaller(a: usize, b: usize) -> usize {
    if a <= b {
        a
    } else {
        b
    }
}

/// The top-level blocks among the first `n` events. A block ends with the event after which
/// no tag is open.
pub open spec fn blocks_of(events: Seq<(EventView, Range<usize>)>, n: int) -> BlocksView
    decreases n,
{
    if n <= 0 {
        BlocksView { blocks: Seq::empty(), depth: 0, first: 0 }
    } else {
        let before = blocks_of(events, n - 1);
        let first = if before.depth == 0 {
            n - 1
        } else {
            before.first
        };
        let (event, range) = events[n - 1];
        let depth = depth_after(before.depth, event);
        BlocksView {
            blocks: if depth == 0 {
                before.blocks.push(
                    (
                        (Range { start: first as usize, end: n as usize }),
                        (Range {
                            start: smaller(events[first].1.start, range.start),
                            end: range.end,
                        }),
                    ),
                )
            } else {
                before.blocks
            },
            depth,
            first,
        }
    }
}

/// The top-level blocks of a document, as the range of their events and of their source.
pub fn top_level_blocks(events: &Vec<(DocEvent, Range<usize>)>) -> (blocks: Vec<
    (Range<usize>, Range<usize>),
>)
    ensures
        blocks@ == blocks_of(located(events@), events@.len() as int).blocks,
{
    let mut blocks: Vec<(Range<usize>, Range<usize>)> = Vec::new();
    let mut depth: usize = 0;
    let mut first: usize = 0;
    let ghost all = located(events@);
    for i in 0..events.len()
        invariant
            all == located(events@),
            depth <= i,
            first <= i,
            blocks@ == blocks_of(all, i as int).blocks,
            depth == blocks_of(all, i as int).depth,
            first == blocks_of(all, i as int).first,
    {
        proof {
            assert(all[i as int] == (events@[i as int].0@, events@[i as int].1));
        }
        if depth == 0 {
            first = i;
        }
        match &events[i].0 {
            MdEvent::Start(_) => {
                depth = depth + 1;
            },
            MdEvent::End(_) => {
                if depth > 0 {
                    depth = depth - 1;
                }
            },
            _ => {},
        }
        if depth == 0 {
            proof {
                assert(all[first as int] == (events@[first as int].0@, events@[first as int].1));
            }
            let first_start = events[first].1.start;
            let start = events[i].1.start;
            let end = events[i].1.end;
            let source_start = if first_start <= start {
                first_start
            } else {
                start
            };
            blocks.push((first..i + 1, source_start..end));
        }
    }
    blocks
}

/// Where the last of `blocks` ends.
pub open spec fn blocks_end(blocks: Seq<(Range<usize>, Range<usize>)>) -> int {
    if blocks.len() == 0 {
        0
    } else {
        blocks.last().0.end as int
    }
}

/// The top-level blocks of a document follow one another without a gap from its first event
/// on, none is empty, and they hold every event of a document whose tags all end.
pub proof fn blocks_partition_the_events(events: Seq<(EventView, Range<usize>)>, n: int)
    requires
        0 <= n <= events.len(),
        n <= usize::MAX,
    ensures
        ({
            let found = blocks_of(events, n);
            let blocks = found.blocks;
            &&& blocks.len() > 0 ==> blocks[0].0.start == 0
            &&& forall|i: int|
                0 <= i < blocks.len() ==> (#[trigger] blocks[i]).0.start < blocks[i].0.end
            &&& forall|i: int|
                0 < i < blocks.len() ==> blocks[i - 1].0.end == (#[trigger] blocks[i]).0.start
            &&& found.depth == 0 ==> blocks_end(blocks) == n
            &&& found.depth > 0 ==> blocks_end(blocks) == found.first
            &&& blocks_end(blocks) <= n
            &&& 0 <= found.depth
            &&& 0 <= found.first <= n
            &&& found.depth > 0 ==> found.first < n
        }),
    decreases n,
{
    if n > 0 {
        blocks_partition_the_events(events, n - 1);
    }
}

/// How many texts at the start of both lists are the same.
pub open spec fn same_start(old: Seq<Seq<char>>, new: Seq<Seq<char>>) -> int
    decreases old.len(),
{
    if old.len() == 0 || new.len() == 0 || old[0] != new[0] {
        0
    } else {
        1 + same_start(old.drop_first(), new.drop_first())
    }
}

/// How many texts at the end of both lists are the same.
pub open spec fn same_end(old: Seq<Seq<char>>, new: Seq<Seq<char>>) -> int
    decreases old.len(),
{
    if old.len() == 0 || new.len() == 0 || old.last() != new.last() {
        0
    } else {
        1 + same_end(old.drop_last(), new.drop_last())
    }
}

/// Texts that are borrowed, as contracts speak of them.
pub open spec fn slices(list: Seq<&str>) -> Seq<Seq<char>> {
    list.map_values(|text: &str| text@)
}

/// How many blocks at the start and at the end of `new` are the same as in `old`, without the
/// two overlapping.
pub fn unchanged_ends(old_blocks: &[&str], new: &[&str]) -> (found: (usize, usize))
    ensures
        found.0 == same_start(slices(old_blocks@), slices(new@)),
        found.1 == same_end(
            slices(old_blocks@).skip(found.0 as int),
            slices(new@).skip(found.0 as int),
        ),
        found.0 + found.1 <= old_blocks@.len(),
        found.0 + found.1 <= new@.len(),
{
    let ghost a = slices(old_blocks@);
    let ghost b = slices(new@);
    let mut prefix: usize = 0;
    proof {
        assert(a.skip(0) =~= a);
        assert(b.skip(0) =~= b);
    }
    while prefix < old_blocks.len() && prefix < new.len() && same(old_blocks[prefix], new[prefix])
        invariant
            a == slices(old_blocks@),
            b == slices(new@),
            prefix <= a.len(),
            prefix <= b.len(),
            same_start(a, b) == prefix + same_start(a.skip(prefix as int), b.skip(prefix as int)),
        decreases a.len() - prefix,
    {
        proof {
            assert(a.skip(prefix as int)[0] == old_blocks@[prefix as int]@);
            assert(b.skip(prefix as int)[0] == new@[prefix as int]@);
            assert(a.skip(prefix as int).drop_first() =~= a.skip(prefix + 1));
            assert(b.skip(prefix as int).drop_first() =~= b.skip(prefix + 1));
        }
        prefix += 1;
    }
    proof {
        if prefix < a.len() && prefix < b.len() {
            assert(a.skip(prefix as int)[0] == old_blocks@[prefix as int]@);
            assert(b.skip(prefix as int)[0] == new@[prefix as int]@);
        }
    }
    let ghost rest_a = a.skip(prefix as int);
    let ghost rest_b = b.skip(prefix as int);
    let mut suffix: usize = 0;
    proof {
        assert(rest_a.take(rest_a.len() as int) =~= rest_a);
        assert(rest_b.take(rest_b.len() as int) =~= rest_b);
    }
    while suffix < old_blocks.len() - prefix && suffix < new.len() - prefix && same(
        old_blocks[old_blocks.len() - 1 - suffix],
        new[new.len() - 1 - suffix],
    )
        invariant
            a == slices(old_blocks@),
            b == slices(new@),
            prefix <= a.len(),
            prefix <= b.len(),
            rest_a == a.skip(prefix as int),
            rest_b == b.skip(prefix as int),
            suffix <= rest_a.len(),
            suffix <= rest_b.len(),
            same_end(rest_a, rest_b) == suffix + same_end(
                rest_a.take(rest_a.len() - suffix),
                rest_b.take(rest_b.len() - suffix),
            ),
        decreases rest_a.len() - suffix,
    {
        proof {
            let x = rest_a.take(rest_a.len() - suffix);
            let y = rest_b.take(rest_b.len() - suffix);
            assert(x.last() == old_blocks@[old_blocks@.len() - 1 - suffix]@);
            assert(y.last() == new@[new@.len() - 1 - suffix]@);
            assert(x.drop_last() =~= rest_a.take(rest_a.len() - suffix - 1));
            assert(y.drop_last() =~= rest_b.take(rest_b.len() - suffix - 1));
        }
        suffix += 1;
    }
    proof {
        let x = rest_a.take(rest_a.len() - suffix);
        let y = rest_b.take(rest_b.len() - suffix);
        if x.len() > 0 && y.len() > 0 {
            assert(x.last() == old_blocks@[old_blocks@.len() - 1 - suffix]@);
            assert(y.last() == new@[new@.len() - 1 - suffix]@);
        }
    }
    (prefix, suffix)
}

/// The blocks counted at the two ends are the same in both lists and do not overlap.
pub proof fn unchanged_ends_are_the_same(old_blocks: Seq<Seq<char>>, new: Seq<Seq<char>>)
    ensures
        ({
            let prefix = same_start(old_blocks, new);
            let suffix = same_end(old_blocks.skip(prefix), new.skip(prefix));
            &&& 0 <= prefix
            &&& 0 <= suffix
            &&& prefix + suffix <= old_blocks.len()
            &&& prefix + suffix <= new.len()
            &&& old_blocks.take(prefix) == new.take(prefix)
            &&& old_blocks.skip(old_blocks.len() - suffix) == new.skip(new.len() - suffix)
        }),
{
    same_start_is_shared(old_blocks, new);
    let prefix = same_start(old_blocks, new);
    let a = old_blocks.skip(prefix);
    let b = new.skip(prefix);
    same_end_is_shared(a, b);
    let suffix = same_end(a, b);
    assert(a.skip(a.len() - suffix) =~= old_blocks.skip(old_blocks.len() - suffix));
    assert(b.skip(b.len() - suffix) =~= new.skip(new.len() - suffix));
}

/// What is counted at the start is shared.
proof fn same_start_is_shared(a: Seq<Seq<char>>, b: Seq<Seq<char>>)
    ensures
        0 <= same_start(a, b) <= a.len(),
        same_start(a, b) <= b.len(),
        a.take(same_start(a, b)) == b.take(same_start(a, b)),
    decreases a.len(),
{
    if a.len() > 0 && b.len() > 0 && a[0] == b[0] {
        same_start_is_shared(a.drop_first(), b.drop_first());
        let n = same_start(a.drop_first(), b.drop_first());
        assert(a.take(n + 1) =~= seq![a[0]] + a.drop_first().take(n));
        assert(b.take(n + 1) =~= seq![b[0]] + b.drop_first().take(n));
    } else {
        assert(a.take(0) =~= b.take(0));
    }
}

/// What is counted at the end is shared.
proof fn same_end_is_shared(a: Seq<Seq<char>>, b: Seq<Seq<char>>)
    ensures
        0 <= same_end(a, b) <= a.len(),
        same_end(a, b) <= b.len(),
        a.skip(a.len() - same_end(a, b)) == b.skip(b.len() - same_end(a, b)),
    decreases a.len(),
{
    if a.len() > 0 && b.len() > 0 && a.last() == b.last() {
        same_end_is_shared(a.drop_last(), b.drop_last());
        let n = same_end(a.drop_last(), b.drop_last());
        assert(a.skip(a.len() - n - 1) =~= a.drop_last().skip(a.len() - 1 - n).push(a.last()));
        assert(b.skip(b.len() - n - 1) =~= b.drop_last().skip(b.len() - 1 - n).push(b.last()));
    } else {
        assert(a.skip(a.len() as int) =~= b.skip(b.len() as int));
    }
}

/// A text in the order of characters.
struct Line {
    text: String,
}

impl View for Line {
    type V = Seq<char>;

    closed spec fn view(&self) -> Seq<char> {
        self.text@
    }
}

/// Whether a text may stand before another.
pub open spec fn lex_leq(a: Seq<char>, b: Seq<char>) -> bool {
    !lex_less(b, a)
}

impl Ordered for Line {
    closed spec fn leq(a: Seq<char>, b: Seq<char>) -> bool {
        lex_leq(a, b)
    }

    proof fn leq_is_order() {
        let leq = |a: Seq<char>, b: Seq<char>| Self::leq(a, b);
        assert forall|a: Seq<char>, b: Seq<char>| #[trigger] leq(a, b) || leq(b, a) by {
            crate::sorting::lex_total(a, b);
        }
        assert forall|a: Seq<char>, b: Seq<char>, c: Seq<char>| #[trigger]
            leq(a, b) && #[trigger] leq(b, c) implies leq(a, c) by {
            crate::sorting::lex_total(a, b);
            crate::sorting::lex_total(b, c);
            crate::sorting::lex_total(a, c);
            if lex_less(a, b) && lex_less(b, c) {
                crate::sorting::lex_transitive(a, b, c);
            }
        }
    }

    fn precedes(&self, other: &Self) -> (found: bool) {
        !comes_before(&chars_of(other.text.as_str()), &chars_of(self.text.as_str()))
    }
}

/// A link definition in a comparable form.
pub open spec fn link_line(definition: (Seq<char>, Seq<char>, Option<Seq<char>>)) -> Seq<char> {
    "["@ + definition.0 + "]: "@ + definition.1 + " "@ + match definition.2 {
        Some(title) => title,
        None => Seq::empty(),
    }
}

/// The footnotes the first `n` events define, in a comparable form.
pub open spec fn footnote_lines(events: Seq<(EventView, Range<usize>)>, n: int) -> Seq<Seq<char>>
    decreases n,
{
    if n <= 0 {
        Seq::empty()
    } else {
        let before = footnote_lines(events, n - 1);
        match events[n - 1].0 {
            MdEvent::Start(MdTag::FootnoteDefinition(label)) => before.push(
                "[^"@ + label + "]"@,
            ),
            _ => before,
        }
    }
}

/// The link reference and footnote definitions of a document, in a comparable form.
pub open spec fn definition_lines(
    links: Seq<(Seq<char>, Seq<char>, Option<Seq<char>>)>,
    events: Seq<(EventView, Range<usize>)>,
) -> Seq<Seq<char>> {
    crate::sorting::sorted(
        links.map_values(
            |definition: (Seq<char>, Seq<char>, Option<Seq<char>>)| link_line(definition),
        ) + footnote_lines(events, events.len() as int),
        |a: Seq<char>, b: Seq<char>| lex_leq(a, b),
    )
}

/// The link reference and footnote definitions of a document, in a comparable form. A block
/// can use either wherever they are defined, so a change to them changes blocks elsewhere.
pub fn definitions(
    links: &Vec<(String, String, Option<String>)>,
    events: &Vec<(DocEvent, Range<usize>)>,
) -> (lines: Vec<String>)
    ensures
        texts(lines@) == definition_lines(definition_views(links@), located(events@)),
{
    let mut lines: Vec<Line> = Vec::new();
    let ghost list = definition_views(links@);
    let ghost write = |definition: (Seq<char>, Seq<char>, Option<Seq<char>>)| link_line(definition);
    for i in 0..links.len()
        invariant
            list == definition_views(links@),
            write == (|definition: (Seq<char>, Seq<char>, Option<Seq<char>>)| link_line(
                definition,
            )),
            views_of(lines@) == list.take(i as int).map_values(write),
    {
        let (label, dest, title) = &links[i];
        let mut text = String::from_str("[");
        text.append(label.as_str());
        text.append("]: ");
        text.append(dest.as_str());
        text.append(" ");
        match title {
            Some(title) => text.append(title.as_str()),
            None => {},
        }
        let line = Line { text };
        proof {
            let item = list[i as int];
            assert(item == (label@, dest@, opt_view(*title)));
            assert(line@ =~= link_line(item));
            assert(views_of(lines@.push(line)) =~= views_of(lines@).push(line@));
            assert(list.take(i + 1).map_values(write) =~= list.take(i as int).map_values(
                write,
            ).push(link_line(item)));
        }
        lines.push(line);
    }
    let ghost first = list.map_values(write);
    let ghost all = located(events@);
    proof {
        assert(list.take(list.len() as int) =~= list);
        assert(first + footnote_lines(all, 0) =~= first);
    }
    for i in 0..events.len()
        invariant
            all == located(events@),
            views_of(lines@) == first + footnote_lines(all, i as int),
    {
        proof {
            assert(all[i as int] == (events@[i as int].0@, events@[i as int].1));
        }
        if let MdEvent::Start(MdTag::FootnoteDefinition(label)) = &events[i].0 {
            let mut text = String::from_str("[^");
            text.append(label.as_str());
            text.append("]");
            let line = Line { text };
            proof {
                assert(views_of(lines@.push(line)) =~= views_of(lines@).push(line@));
                assert(first + footnote_lines(all, i as int).push(line@) =~= (first
                    + footnote_lines(all, i as int)).push(line@));
            }
            lines.push(line);
        }
    }
    let sorted_lines = sort(lines);
    let ghost by_text = |a: Seq<char>, b: Seq<char>| lex_leq(a, b);
    let ghost by_line = |a: Seq<char>, b: Seq<char>| Line::leq(a, b);
    proof {
        assert(by_text =~= by_line);
    }
    let mut out: Vec<String> = Vec::new();
    for i in 0..sorted_lines.len()
        invariant
            texts(out@) == views_of(sorted_lines@).take(i as int),
    {
        let text = sorted_lines[i].text.clone();
        proof {
            assert(texts(out@.push(text)) =~= texts(out@).push(text@));
            assert(views_of(sorted_lines@).take(i + 1) =~= views_of(sorted_lines@).take(
                i as int,
            ).push(text@));
        }
        out.push(text);
    }
    proof {
        assert(views_of(sorted_lines@).take(sorted_lines@.len() as int) =~= views_of(
            sorted_lines@,
        ));
    }
    out
}

/// Lists of the same items give lists of the same results.
proof fn same_items_map_alike<A, B>(a: Seq<A>, b: Seq<A>, write: spec_fn(A) -> B)
    requires
        a.to_multiset() == b.to_multiset(),
    ensures
        a.map_values(write).to_multiset() == b.map_values(write).to_multiset(),
    decreases a.len(),
{
    broadcast use vstd::seq_lib::group_to_multiset_ensures;
    assert(a.len() == a.to_multiset().len());
    assert(b.len() == b.to_multiset().len());
    if a.len() == 0 {
        assert(a.map_values(write) =~= b.map_values(write));
    } else {
        let rest = a.drop_last();
        let item = a.last();
        assert(a =~= rest.push(item));
        assert(a.to_multiset().count(item) > 0);
        assert(b.contains(item));
        let at = choose|at: int| 0 <= at < b.len() && b[at] == item;
        let other = b.remove(at);
        assert(rest.to_multiset() =~= a.to_multiset().remove(item));
        assert(other.to_multiset() =~= b.to_multiset().remove(item));
        same_items_map_alike(rest, other, write);
        assert(a.map_values(write) =~= rest.map_values(write).push(write(item)));
        assert(b.map_values(write).remove(at) =~= other.map_values(write));
        assert(b.map_values(write) =~= other.map_values(write).insert(at, write(item)));
    }
}

/// The comparable form of a document's definitions does not depend on the order its link
/// definitions are given in.
pub proof fn definitions_compare_in_any_order(
    links: Seq<(Seq<char>, Seq<char>, Option<Seq<char>>)>,
    others: Seq<(Seq<char>, Seq<char>, Option<Seq<char>>)>,
    events: Seq<(EventView, Range<usize>)>,
)
    requires
        links.to_multiset() == others.to_multiset(),
    ensures
        definition_lines(links, events) == definition_lines(others, events),
{
    let write = |definition: (Seq<char>, Seq<char>, Option<Seq<char>>)| link_line(definition);
    let leq = |a: Seq<char>, b: Seq<char>| lex_leq(a, b);
    let notes = footnote_lines(events, events.len() as int);
    let a = links.map_values(write) + notes;
    let b = others.map_values(write) + notes;
    same_items_map_alike(links, others, write);
    vstd::seq_lib::lemma_multiset_commutative(links.map_values(write), notes);
    vstd::seq_lib::lemma_multiset_commutative(others.map_values(write), notes);
    Line::leq_is_order();
    assert(leq =~= |a: Seq<char>, b: Seq<char>| Line::leq(a, b));
    crate::sorting::sorting_orders(a, leq);
    crate::sorting::sorting_orders(b, leq);
    assert forall|x: Seq<char>, y: Seq<char>| #[trigger] leq(x, y) && #[trigger] leq(
        y,
        x,
    ) implies x == y by {
        crate::sorting::lex_total(x, y);
    }
    assert forall|x: Seq<char>| #[trigger] leq(x, x) by {
        crate::sorting::lex_total(x, x);
    }
    assert(vstd::relations::total_ordering(leq));
    vstd::seq_lib::lemma_sorted_unique(
        crate::sorting::sorted(a, leq),
        crate::sorting::sorted(b, leq),
        leq,
    );
}

}
