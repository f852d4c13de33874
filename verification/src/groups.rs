//! Top-level blocks that raw HTML ties together, as a `<div>` does the Markdown after it up to its
//! end tag.

use crate::blocks::smaller;
use crate::event::{DocEvent, EventView, MdEvent, MdTag};
use crate::html::{html_parts, part_views, parts_of, HtmlPart, PartView};
use crate::parse::located;
use std::ops::Range;
use vstd::prelude::*;
use vstd::string::*;

verus! {

/// One less, but none below zero.
pub open spec fn one_less(open: int) -> int {
    if open > 0 {
        open - 1
    } else {
        0
    }
}

/// How many elements that can hold Markdown blocks are open after a part of raw HTML.
pub open spec fn open_after_part(open: int, part: PartView) -> int {
    match part {
        HtmlPart::DetailsStart { .. } => open + 1,
        HtmlPart::DetailsEnd => one_less(open),
        HtmlPart::BlockStart(block) => if block.paragraph {
            open
        } else {
            open + 1
        },
        HtmlPart::BlockEnd { paragraph } => if paragraph {
            open
        } else {
            one_less(open)
        },
        _ => open,
    }
}

/// How many elements that can hold Markdown blocks are open after the first `n` parts.
pub open spec fn open_after_parts(open: int, parts: Seq<PartView>, n: int) -> int
    decreases n,
{
    if n <= 0 {
        open
    } else {
        open_after_part(open_after_parts(open, parts, n - 1), parts[n - 1])
    }
}

/// The raw HTML among events from `start` up to `end`.
pub open spec fn html_in(events: Seq<(EventView, Range<usize>)>, start: int, end: int) -> Seq<char>
    decreases end - start,
{
    if end <= start {
        Seq::empty()
    } else {
        let before = html_in(events, start, end - 1);
        match events[end - 1].0 {
            MdEvent::Html(html) => before + html,
            _ => before,
        }
    }
}

/// Whether an event starts a block of raw HTML.
pub open spec fn starts_html(event: EventView) -> bool {
    match event {
        MdEvent::Start(MdTag::HtmlBlock) => true,
        _ => false,
    }
}

/// How many elements that can hold Markdown blocks are open after a top-level block. Only blocks of
/// raw HTML open and close any.
pub open spec fn open_after(
    events: Seq<(EventView, Range<usize>)>,
    block: Range<usize>,
    open: int,
) -> int {
    if block.start < block.end && starts_html(events[block.start as int].0) {
        let parts = parts_of(html_in(events, block.start as int, block.end as int));
        open_after_parts(open, parts, parts.len() as int)
    } else {
        open
    }
}

/// The first `n` blocks, each put together with the ones that stand in an element that it opens,
/// and how many elements are open after them.
pub open spec fn grouped(
    events: Seq<(EventView, Range<usize>)>,
    blocks: Seq<(Range<usize>, Range<usize>)>,
    n: int,
) -> (Seq<(Range<usize>, Range<usize>)>, int)
    decreases n,
{
    if n <= 0 {
        (Seq::empty(), 0)
    } else {
        let (before, open) = grouped(events, blocks, n - 1);
        let block = blocks[n - 1];
        let next = if open > 0 && before.len() > 0 {
            let last = before.last();
            before.drop_last().push(
                (
                    Range { start: last.0.start, end: block.0.end },
                    Range { start: smaller(last.1.start, block.1.start), end: block.1.end },
                ),
            )
        } else {
            before.push(block)
        };
        (next, open_after(events, block.0, open))
    }
}

/// How many elements that can hold Markdown blocks are open after parts of raw HTML.
fn count_open(open: u128, parts: &Vec<HtmlPart<String>>) -> (after: u128)
    requires
        open + parts@.len() <= u128::MAX,
    ensures
        after == open_after_parts(open as int, part_views(parts@), parts@.len() as int),
        after <= open + parts@.len(),
{
    let ghost all = part_views(parts@);
    let mut after = open;
    for i in 0..parts.len()
        invariant
            all == part_views(parts@),
            open + parts@.len() <= u128::MAX,
            after == open_after_parts(open as int, all, i as int),
            after <= open + i,
    {
        proof {
            assert(all[i as int] == parts@[i as int]@);
        }
        match &parts[i] {
            HtmlPart::DetailsStart { .. } => {
                after = after + 1;
            },
            HtmlPart::DetailsEnd => {
                if after > 0 {
                    after = after - 1;
                }
            },
            HtmlPart::BlockStart(block) => {
                if !block.paragraph {
                    after = after + 1;
                }
            },
            HtmlPart::BlockEnd { paragraph } => {
                if !*paragraph && after > 0 {
                    after = after - 1;
                }
            },
            _ => {},
        }
    }
    after
}

/// The raw HTML among the events of a block.
fn html_of(events: &Vec<(DocEvent, Range<usize>)>, block: &Range<usize>) -> (html: String)
    requires
        block.start <= block.end <= events@.len(),
    ensures
        html@ == html_in(located(events@), block.start as int, block.end as int),
{
    let ghost all = located(events@);
    let mut html = String::new();
    for i in block.start..block.end
        invariant
            block.start <= block.end <= events@.len(),
            all == located(events@),
            html@ == html_in(all, block.start as int, i as int),
    {
        proof {
            assert(all[i as int] == (events@[i as int].0@, events@[i as int].1));
        }
        if let MdEvent::Html(more) = &events[i].0 {
            html.append(more.as_str());
        }
    }
    html
}

/// How many elements that can hold Markdown blocks are open after a top-level block.
fn open_with(events: &Vec<(DocEvent, Range<usize>)>, block: &Range<usize>, open: u128) -> (after:
    u128)
    requires
        block.start < block.end <= events@.len(),
        open + 0xffff_ffff_ffff_ffff <= u128::MAX,
    ensures
        after == open_after(located(events@), *block, open as int),
        after <= open + 0xffff_ffff_ffff_ffff,
{
    let ghost all = located(events@);
    proof {
        assert(all[block.start as int] == (
            events@[block.start as int].0@,
            events@[block.start as int].1,
        ));
    }
    if let MdEvent::Start(MdTag::HtmlBlock) = &events[block.start].0 {
        let parts = html_parts(html_of(events, block).as_str());
        proof {
            assert(part_views(parts@).len() == parts@.len());
            assert(parts.len() <= 0xffff_ffff_ffff_ffff);
        }
        count_open(open, &parts)
    } else {
        open
    }
}

/// Whether blocks are none empty and follow one another among `size` events.
pub open spec fn follow(blocks: Seq<(Range<usize>, Range<usize>)>, size: int) -> bool {
    &&& forall|i: int|
        0 <= i < blocks.len() ==> (#[trigger] blocks[i]).0.start < blocks[i].0.end
            && blocks[i].0.end <= size
    &&& forall|i: int|
        0 < i < blocks.len() ==> blocks[i - 1].0.end == (#[trigger] blocks[i]).0.start
}

/// Blocks that are put together still follow one another, and start and end where the blocks do.
pub proof fn groups_follow(
    events: Seq<(EventView, Range<usize>)>,
    blocks: Seq<(Range<usize>, Range<usize>)>,
    n: int,
)
    requires
        follow(blocks, events.len() as int),
        0 <= n <= blocks.len(),
    ensures
        ({
            let groups = grouped(events, blocks, n).0;
            &&& follow(groups, events.len() as int)
            &&& groups.len() <= n
            &&& n > 0 ==> groups.len() > 0 && groups[0].0.start == blocks[0].0.start
                && groups.last().0.end == blocks[n - 1].0.end
        }),
    decreases n,
{
    if n > 0 {
        groups_follow(events, blocks, n - 1);
        let (before, open) = grouped(events, blocks, n - 1);
        let groups = grouped(events, blocks, n).0;
        let block = blocks[n - 1];
        assert(block.0.start < block.0.end <= events.len());
        if n > 1 {
            assert(blocks[n - 2].0.end == block.0.start);
            let last = before.last();
            assert(last == before[before.len() - 1]);
            if open > 0 {
                assert(groups.len() == before.len());
                assert forall|i: int| 0 <= i < groups.len() - 1 implies #[trigger] groups[i]
                    == before[i] by {}
                assert(groups.last().0.start == last.0.start);
                assert forall|i: int| 0 < i < groups.len() implies groups[i - 1].0.end == (
                #[trigger] groups[i]).0.start by {
                    assert(before[i - 1].0.end == before[i].0.start);
                }
            } else {
                assert forall|i: int| 0 <= i < before.len() implies #[trigger] groups[i]
                    == before[i] by {}
                assert forall|i: int| 0 < i < groups.len() implies groups[i - 1].0.end == (
                #[trigger] groups[i]).0.start by {
                    if i < before.len() {
                        assert(before[i - 1].0.end == before[i].0.start);
                    }
                }
            }
        }
    }
}

/// The top-level blocks of a document, each put together with the ones that stand in an element
/// of raw HTML that it opens.
pub fn group_blocks(
    events: &Vec<(DocEvent, Range<usize>)>,
    blocks: &Vec<(Range<usize>, Range<usize>)>,
) -> (groups: Vec<(Range<usize>, Range<usize>)>)
    requires
        follow(blocks@, events@.len() as int),
    ensures
        groups@ == grouped(located(events@), blocks@, blocks@.len() as int).0,
{
    let ghost all = located(events@);
    let mut groups: Vec<(Range<usize>, Range<usize>)> = Vec::new();
    let mut open: u128 = 0;
    for i in 0..blocks.len()
        invariant
            all == located(events@),
            follow(blocks@, events@.len() as int),
            groups@ == grouped(all, blocks@, i as int).0,
            open == grouped(all, blocks@, i as int).1,
            open <= i * 0xffff_ffff_ffff_ffff,
    {
        let block = &blocks[i];
        let (start, end) = (block.0.start, block.0.end);
        let ghost before = groups@;
        assert(blocks@[i as int].0.start < blocks@[i as int].0.end <= events@.len());
        let joins = open > 0 && groups.len() > 0;
        if joins {
            if let Some(last) = groups.pop() {
                let from = if last.1.start <= block.1.start {
                    last.1.start
                } else {
                    block.1.start
                };
                groups.push((last.0.start..end, from..block.1.end));
            }
        } else {
            groups.push((start..end, block.1.start..block.1.end));
        }
        proof {
            assert(groups@ =~= grouped(all, blocks@, i + 1).0);
        }
        open = open_with(events, &block.0, open);
        proof {
            assert((i + 1) * 0xffff_ffff_ffff_ffff == i * 0xffff_ffff_ffff_ffff
                + 0xffff_ffff_ffff_ffff);
        }
    }
    groups
}

/// Blocks none of which is raw HTML are left as they are.
pub proof fn blocks_without_html_stay_apart(
    events: Seq<(EventView, Range<usize>)>,
    blocks: Seq<(Range<usize>, Range<usize>)>,
    n: int,
)
    requires
        0 <= n <= blocks.len(),
        forall|i: int|
            0 <= i < n ==> !starts_html(events[(#[trigger] blocks[i]).0.start as int].0),
    ensures
        grouped(events, blocks, n) == (blocks.take(n), 0int),
    decreases n,
{
    if n > 0 {
        blocks_without_html_stay_apart(events, blocks, n - 1);
        assert(!starts_html(events[blocks[n - 1].0.start as int].0));
        assert(blocks.take(n) =~= blocks.take(n - 1).push(blocks[n - 1]));
    } else {
        assert(blocks.take(n) =~= Seq::<(Range<usize>, Range<usize>)>::empty());
    }
}

/// A block that stands in an element which raw HTML before it opened is part of the same group,
/// and one that does not starts another.
pub proof fn blocks_in_elements_stay_together(
    events: Seq<(EventView, Range<usize>)>,
    blocks: Seq<(Range<usize>, Range<usize>)>,
    n: int,
)
    requires
        0 < n < blocks.len(),
        grouped(events, blocks, n).0.len() > 0,
    ensures
        ({
            let (before, open) = grouped(events, blocks, n);
            let after = grouped(events, blocks, n + 1).0;
            &&& open > 0 ==> after.len() == before.len() && after.last().0.start
                == before.last().0.start && after.last().0.end == blocks[n].0.end
            &&& open <= 0 ==> after == before.push(blocks[n])
        }),
{
}

}
