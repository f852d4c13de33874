//! Rendering a document in part leaves the preview as rendering the whole of it would.

use crate::blocks::{same_end, same_start};
use crate::event::EventView;
use crate::preview::{
    link_views, place_views, preview_start, rendered, BlockView, PlaceView, PreviewView, Resolved,
};
use crate::preview_laws::{
    are_texts_of, blocks_render_alike_anywhere, ends_lone_break, is_lone_break, joined, joined_adds,
    lone_breaks_get_more, lone_breaks_render_otherwise, more_adds,
    replacing_blocks_renders_the_document, starts_are_lengths,
};
use crate::render::{
    all_links, all_offsets, at_most, block_state, changed_ranges, run_of, sources_of, start_of,
    text_of_block, Rendered, RenderedBlock,
};
use std::ops::Range;
use vstd::prelude::*;
use vstd::string::*;

verus! {

/// Whether a block renders alike wherever it stands: neither it nor a part of it ends as one line
/// break and nothing else.
#[verifier::opaque]
pub open spec fn stands_anywhere(
    events: Seq<EventView>,
    range: Range<usize>,
    resolved: Seq<Resolved>,
) -> bool {
    &&& range.start <= range.end
    &&& forall|k: int|
        range.start <= k < range.end ==> !ends_lone_break(
            #[trigger] rendered(preview_start(false), events, resolved, range.start as int, k),
            events[k],
        )
    &&& !is_lone_break(block_state(events, range, resolved, false).text)
}

/// Whether all blocks of a document render alike wherever they stand.
pub open spec fn all_stand_anywhere(
    events: Seq<EventView>,
    ranges: Seq<Range<usize>>,
    resolved: Seq<Resolved>,
) -> bool {
    forall|i: int| 0 <= i < ranges.len() ==> stands_anywhere(events, #[trigger] ranges[i], resolved)
}

/// What a block renders to by itself.
#[verifier::opaque]
pub open spec fn alone(
    events: Seq<EventView>,
    range: Range<usize>,
    resolved: Seq<Resolved>,
) -> PreviewView {
    block_state(events, range, resolved, false)
}

/// The texts that blocks render to by themselves.
pub open spec fn alone_texts(
    events: Seq<EventView>,
    ranges: Seq<Range<usize>>,
    resolved: Seq<Resolved>,
) -> Seq<Seq<char>> {
    ranges.map_values(|range: Range<usize>| text_of_block(alone(events, range, resolved)))
}

/// A block renders to the same after other blocks as by itself.
proof fn blocks_are_alone(
    events: Seq<EventView>,
    range: Range<usize>,
    resolved: Seq<Resolved>,
    follows: bool,
)
    requires
        stands_anywhere(events, range, resolved),
    ensures
        ({
            let state = block_state(events, range, resolved, follows);
            let by_itself = alone(events, range, resolved);
            &&& text_of_block(state) == text_of_block(by_itself)
            &&& state.block() == by_itself.block()
            &&& by_itself.block().end == text_of_block(by_itself).len()
        }),
{
    reveal(alone);
    reveal(stands_anywhere);
    let first = alone(events, range, resolved);
    let after = block_state(events, range, resolved, true);
    reveal_strlit("\n\n");
    blocks_render_alike_anywhere(events, resolved, range.start as int, range.end as int);
    assert(text_of_block(after) =~= text_of_block(first));
}

/// A block stands anywhere if and only if its text is the same after another block as at the
/// start of the preview.
pub proof fn blocks_stand_anywhere_or_differ(
    events: Seq<EventView>,
    range: Range<usize>,
    resolved: Seq<Resolved>,
)
    requires
        range.start <= range.end,
    ensures
        stands_anywhere(events, range, resolved) <==> text_of_block(
            block_state(events, range, resolved, true),
        ) == text_of_block(block_state(events, range, resolved, false)),
{
    reveal_strlit("\n\n");
    let first = block_state(events, range, resolved, false);
    let after = block_state(events, range, resolved, true);
    if stands_anywhere(events, range, resolved) {
        blocks_are_alone(events, range, resolved, true);
        reveal(alone);
    } else {
        reveal(stands_anywhere);
        let start = range.start as int;
        let end = range.end as int;
        if exists|k: int|
            start <= k < end && ends_lone_break(
                #[trigger] rendered(preview_start(false), events, resolved, start, k),
                events[k],
            ) {
            lone_breaks_render_otherwise(events, resolved, start, end);
            more_adds(first, after, Seq::empty());
        } else {
            blocks_render_alike_anywhere(events, resolved, start, end);
            lone_breaks_get_more(first);
        }
        assert(text_of_block(first).len() == text_of_block(after).len() + 1);
    }
}

/// A rendering of blocks is what they render to by themselves, one after the other.
pub proof fn runs_render_block_by_block(
    events: Seq<EventView>,
    ranges: Seq<Range<usize>>,
    resolved: Seq<Resolved>,
    follows: bool,
    n: int,
)
    requires
        all_stand_anywhere(events, ranges, resolved),
        0 <= n <= ranges.len(),
    ensures
        ({
            let run = run_of(events, ranges, resolved, follows, n);
            let texts = alone_texts(events, ranges, resolved);
            &&& run.text == joined(texts.take(n))
            &&& run.blocks.len() == n
            &&& forall|i: int|
                #![trigger run.blocks[i]]
                0 <= i < n ==> run.blocks[i] == (BlockView {
                    start: joined(texts.take(i)).len() as int,
                    end: (joined(texts.take(i)).len() + texts[i].len()) as int,
                    ..alone(events, ranges[i], resolved).block()
                })
        }),
    decreases n,
{
    let texts = alone_texts(events, ranges, resolved);
    if n > 0 {
        runs_render_block_by_block(events, ranges, resolved, follows, n - 1);
        let before = run_of(events, ranges, resolved, follows, n - 1);
        let at = before.text.len() as int;
        let range = ranges[n - 1];
        assert(stands_anywhere(events, range, resolved));
        blocks_are_alone(events, range, resolved, follows || at > 0);
        assert(texts.take(n).drop_last() =~= texts.take(n - 1));
        assert(texts.take(n).last() == texts[n - 1]);
    } else {
        assert(texts.take(0) =~= Seq::<Seq<char>>::empty());
    }
}

/// Whether a block that is kept of the preview is the one that rendered to `view`.
#[verifier::opaque]
pub open spec fn shows<X>(block: RenderedBlock<X>, view: BlockView) -> bool {
    &&& block.length == view.end - view.start
    &&& link_views(block.links@) == view.links.map_values(
        |link: (int, int, Seq<char>)|
            (
                at_most(link.0, block.length as int),
                at_most(link.1, block.length as int),
                link.2,
            ),
    )
    &&& place_views(block.places@) == view.places.map_values(
        |place: (PlaceView, int)| (place.0, at_most(place.1, block.length as int)),
    )
}

/// Whether two lists of blocks take as many characters each, with the same links and places.
pub open spec fn alike<X>(a: Seq<RenderedBlock<X>>, b: Seq<RenderedBlock<X>>) -> bool {
    a.len() == b.len() && forall|i: int|
        #![trigger a[i]]
        #![trigger b[i]]
        0 <= i < a.len() ==> a[i].length == b[i].length && link_views(a[i].links@) == link_views(
            b[i].links@,
        ) && place_views(a[i].places@) == place_views(b[i].places@)
}

/// Blocks that are alike have their links and the places that links lead to where the others
/// have them.
pub proof fn alike_blocks_lead_alike<X>(
    a: Seq<RenderedBlock<X>>,
    b: Seq<RenderedBlock<X>>,
    wanted: PlaceView,
    n: int,
)
    requires
        alike(a, b),
        0 <= n <= a.len(),
    ensures
        start_of(a, n) == start_of(b, n),
        all_links(a, n) == all_links(b, n),
        all_offsets(a, wanted, n) == all_offsets(b, wanted, n),
    decreases n,
{
    if n > 0 {
        alike_blocks_lead_alike(a, b, wanted, n - 1);
        assert(a[n - 1].length == b[n - 1].length);
    }
}

/// Whether each block is the one that rendered to its view.
pub open spec fn all_show<X>(blocks: Seq<RenderedBlock<X>>, views: Seq<BlockView>) -> bool {
    blocks.len() == views.len() && forall|i: int|
        0 <= i < blocks.len() ==> shows(#[trigger] blocks[i], views[i])
}

/// Whether a block with a text is what the block of a document renders to by itself.
pub open spec fn is_up_to_date<X>(
    block: RenderedBlock<X>,
    text: Seq<char>,
    events: Seq<EventView>,
    range: Range<usize>,
    resolved: Seq<Resolved>,
) -> bool {
    &&& shows(block, alone(events, range, resolved).block())
    &&& text == text_of_block(alone(events, range, resolved))
}

/// Whether the first `prefix` and the last `suffix` of the blocks that the preview shows, with
/// the given texts, are what those blocks of a document render to.
pub open spec fn ends_are_up_to_date<X>(
    shown: Seq<RenderedBlock<X>>,
    texts: Seq<Seq<char>>,
    events: Seq<EventView>,
    ranges: Seq<Range<usize>>,
    resolved: Seq<Resolved>,
    prefix: int,
    suffix: int,
) -> bool {
    &&& forall|i: int|
        0 <= i < prefix ==> is_up_to_date(#[trigger] shown[i], texts[i], events, ranges[i], resolved)
    &&& forall|i: int|
        shown.len() - suffix <= i < shown.len() ==> is_up_to_date(
            #[trigger] shown[i],
            texts[i],
            events,
            ranges[i - shown.len() + ranges.len()],
            resolved,
        )
}

/// The texts that are kept and the new ones are those of the document.
#[verifier::spinoff_prover]
proof fn texts_are_those_of_the_document<X>(
    events: Seq<EventView>,
    ranges: Seq<Range<usize>>,
    resolved: Seq<Resolved>,
    shown: Seq<RenderedBlock<X>>,
    texts: Seq<Seq<char>>,
    prefix: int,
    suffix: int,
)
    requires
        0 <= prefix,
        0 <= suffix,
        prefix + suffix <= shown.len(),
        prefix + suffix <= ranges.len(),
        texts.len() == shown.len(),
        ends_are_up_to_date(shown, texts, events, ranges, resolved, prefix, suffix),
    ensures
        ({
            let middle = ranges.subrange(prefix, ranges.len() - suffix);
            &&& texts.take(prefix) + alone_texts(events, middle, resolved) + texts.skip(
                texts.len() - suffix,
            ) == alone_texts(events, ranges, resolved)
            &&& texts.take(prefix) == alone_texts(events, ranges, resolved).take(prefix)
        }),
{
    let count = ranges.len() - suffix;
    let middle = ranges.subrange(prefix, count);
    let all = alone_texts(events, ranges, resolved);
    let inner = alone_texts(events, middle, resolved);
    let built = texts.take(prefix) + inner + texts.skip(texts.len() - suffix);
    assert(built.len() == all.len());
    assert forall|i: int| 0 <= i < built.len() implies #[trigger] built[i] == all[i] by {
        if i < prefix {
            assert(is_up_to_date(shown[i], texts[i], events, ranges[i], resolved));
        } else if i < count {
            assert(built[i] == inner[i - prefix]);
            assert(middle[i - prefix] == ranges[i]);
        } else {
            let j = i - ranges.len() + shown.len();
            assert(built[i] == texts[j]);
            assert(is_up_to_date(
                shown[j],
                texts[j],
                events,
                ranges[j - shown.len() + ranges.len()],
                resolved,
            ));
        }
    }
    assert(built =~= all);
    assert(built.take(prefix) =~= texts.take(prefix));
}

/// Blocks that show views of one length with the same links and places are alike.
proof fn shown_alike<X>(a: RenderedBlock<X>, b: RenderedBlock<X>, one: BlockView, other: BlockView)
    requires
        shows(a, one),
        shows(b, other),
        same_view(one, other),
    ensures
        a.length == b.length,
        link_views(a.links@) == link_views(b.links@),
        place_views(a.places@) == place_views(b.places@),
{
    reveal(shows);
}

/// Whether two views of a block have one length and the same links and places.
pub open spec fn same_view(one: BlockView, other: BlockView) -> bool {
    &&& one.end - one.start == other.end - other.start
    &&& one.links == other.links
    &&& one.places == other.places
}

/// Whether each of some views is that of the block of a document from number `from` on.
pub open spec fn are_views(
    views: Seq<BlockView>,
    events: Seq<EventView>,
    ranges: Seq<Range<usize>>,
    resolved: Seq<Resolved>,
    from: int,
) -> bool {
    forall|i: int|
        #![trigger views[i]]
        0 <= i < views.len() ==> same_view(
            views[i],
            alone(events, ranges[from + i], resolved).block(),
        )
}

/// The views of a rendering are those of its blocks.
proof fn runs_are_views(
    events: Seq<EventView>,
    ranges: Seq<Range<usize>>,
    resolved: Seq<Resolved>,
    follows: bool,
    from: int,
    to: int,
)
    requires
        all_stand_anywhere(events, ranges, resolved),
        0 <= from <= to <= ranges.len(),
    ensures
        ({
            let views = run_of(events, ranges.subrange(from, to), resolved, follows, to - from).blocks;
            &&& views.len() == to - from
            &&& are_views(views, events, ranges, resolved, from)
        }),
{
    let part = ranges.subrange(from, to);
    assert forall|i: int| 0 <= i < part.len() implies stands_anywhere(
        events,
        #[trigger] part[i],
        resolved,
    ) by {
        assert(stands_anywhere(events, ranges[from + i], resolved));
    }
    runs_render_block_by_block(events, part, resolved, follows, part.len() as int);
    let views = run_of(events, part, resolved, follows, to - from).blocks;
    assert forall|i: int| #![trigger views[i]] 0 <= i < views.len() implies same_view(
        views[i],
        alone(events, ranges[from + i], resolved).block(),
    ) by {
        assert(part[i] == ranges[from + i]);
        assert(stands_anywhere(events, part[i], resolved));
        blocks_are_alone(events, part[i], resolved, false);
        assert(alone_texts(events, part, resolved)[i] == text_of_block(
            alone(events, part[i], resolved),
        ));
        assert(alone(events, part[i], resolved).block().start == 0);
    }
}

/// The blocks that are kept and the new ones are alike those of a rendering of the whole.
#[verifier::spinoff_prover]
proof fn blocks_are_those_of_the_document<X>(
    events: Seq<EventView>,
    ranges: Seq<Range<usize>>,
    resolved: Seq<Resolved>,
    shown: Seq<RenderedBlock<X>>,
    texts: Seq<Seq<char>>,
    prefix: int,
    suffix: int,
    new_blocks: Seq<RenderedBlock<X>>,
    part: Seq<BlockView>,
    whole_blocks: Seq<RenderedBlock<X>>,
    whole: Seq<BlockView>,
)
    requires
        0 <= prefix,
        0 <= suffix,
        prefix + suffix <= shown.len(),
        prefix + suffix <= ranges.len(),
        texts.len() == shown.len(),
        ends_are_up_to_date(shown, texts, events, ranges, resolved, prefix, suffix),
        all_show(new_blocks, part),
        part.len() == ranges.len() - suffix - prefix,
        are_views(part, events, ranges, resolved, prefix),
        all_show(whole_blocks, whole),
        whole.len() == ranges.len(),
        are_views(whole, events, ranges, resolved, 0),
    ensures
        alike(shown.take(prefix) + new_blocks + shown.skip(shown.len() - suffix), whole_blocks),
{
    let count = ranges.len() - suffix;
    let after = shown.take(prefix) + new_blocks + shown.skip(shown.len() - suffix);
    assert forall|i: int| 0 <= i < after.len() implies (#[trigger] after[i]).length
        == whole_blocks[i].length && link_views(after[i].links@) == link_views(
        whole_blocks[i].links@,
    ) && place_views(after[i].places@) == place_views(whole_blocks[i].places@) by {
        let view = alone(events, ranges[i], resolved).block();
        assert(shows(whole_blocks[i], whole[i]));
        assert(same_view(whole[i], view)) by {
            assert(same_view(whole[i], alone(events, ranges[0 + i], resolved).block()));
        }
        if i < prefix {
            assert(after[i] == shown[i]);
            assert(is_up_to_date(shown[i], texts[i], events, ranges[i], resolved));
            shown_alike(after[i], whole_blocks[i], view, whole[i]);
        } else if i < count {
            let j = i - prefix;
            assert(after[i] == new_blocks[j]);
            assert(shows(new_blocks[j], part[j]));
            assert(same_view(part[j], alone(events, ranges[prefix + j], resolved).block()));
            shown_alike(after[i], whole_blocks[i], part[j], whole[i]);
        } else {
            let j = i - ranges.len() + shown.len();
            assert(after[i] == shown[j]);
            assert(is_up_to_date(
                shown[j],
                texts[j],
                events,
                ranges[j - shown.len() + ranges.len()],
                resolved,
            ));
            shown_alike(after[i], whole_blocks[i], view, whole[i]);
        }
    }
}

/// What the blocks of a document render to in part is what they render to in the whole.
#[verifier::spinoff_prover]
#[verifier::rlimit(40)]
proof fn parts_stand_in_the_whole(
    events: Seq<EventView>,
    ranges: Seq<Range<usize>>,
    resolved: Seq<Resolved>,
    prefix: int,
    suffix: int,
    from: int,
)
    requires
        all_stand_anywhere(events, ranges, resolved),
        0 <= prefix,
        0 <= suffix,
        prefix + suffix <= ranges.len(),
        from == joined(alone_texts(events, ranges, resolved).take(prefix)).len(),
    ensures
        ({
            let whole = run_of(events, ranges, resolved, false, ranges.len() as int);
            let part = part_run(events, ranges, resolved, prefix, suffix, from);
            let middle = ranges.subrange(prefix, ranges.len() - suffix);
            &&& part.text == joined(alone_texts(events, middle, resolved))
            &&& whole.text == joined(alone_texts(events, ranges, resolved))
            &&& part.blocks.len() == middle.len()
            &&& whole.blocks.len() == ranges.len()
            &&& forall|i: int|
                #![trigger part.blocks[i]]
                0 <= i < part.blocks.len() ==> part.blocks[i] == (BlockView {
                    start: whole.blocks[prefix + i].start - from,
                    end: whole.blocks[prefix + i].end - from,
                    ..whole.blocks[prefix + i]
                })
        }),
{
    let count = ranges.len() - suffix;
    let middle = ranges.subrange(prefix, count);
    let whole = run_of(events, ranges, resolved, false, ranges.len() as int);
    let part = part_run(events, ranges, resolved, prefix, suffix, from);
    let all = alone_texts(events, ranges, resolved);
    let inner = alone_texts(events, middle, resolved);
    assert forall|i: int| 0 <= i < middle.len() implies stands_anywhere(
        events,
        #[trigger] middle[i],
        resolved,
    ) by {
        assert(stands_anywhere(events, ranges[prefix + i], resolved));
    }
    runs_render_block_by_block(events, ranges, resolved, false, ranges.len() as int);
    runs_render_block_by_block(events, middle, resolved, from > 0, middle.len() as int);
    assert(all.take(all.len() as int) =~= all);
    assert(inner.take(inner.len() as int) =~= inner);
    assert(inner =~= all.subrange(prefix, count));
    assert forall|i: int| 0 <= i < part.blocks.len() implies #[trigger] part.blocks[i] == (
    BlockView {
        start: whole.blocks[prefix + i].start - from,
        end: whole.blocks[prefix + i].end - from,
        ..whole.blocks[prefix + i]
    }) by {
        later_texts(all, prefix, count, i);
        assert(middle[i] == ranges[prefix + i]);
        let view = alone(events, ranges[prefix + i], resolved).block();
        let here = part.blocks[i];
        let there = whole.blocks[prefix + i];
        assert(here == (BlockView {
            start: joined(inner.take(i)).len() as int,
            end: (joined(inner.take(i)).len() + inner[i].len()) as int,
            ..view
        }));
        assert(there == (BlockView {
            start: joined(all.take(prefix + i)).len() as int,
            end: (joined(all.take(prefix + i)).len() + all[prefix + i].len()) as int,
            ..view
        }));
    }
}

/// The texts before one of a part are those before the part and those before it in the part.
proof fn later_texts(all: Seq<Seq<char>>, prefix: int, count: int, i: int)
    requires
        0 <= prefix,
        0 <= i,
        prefix + i < count <= all.len(),
    ensures
        joined(all.take(prefix + i)).len() == joined(all.take(prefix)).len() + joined(
            all.subrange(prefix, count).take(i),
        ).len(),
        all.subrange(prefix, count)[i] == all[prefix + i],
{
    let inner = all.subrange(prefix, count);
    assert(all.take(prefix + i) =~= all.take(prefix) + inner.take(i));
    joined_adds(all.take(prefix), inner.take(i));
}

/// The document is rendered in part: the first `prefix` and the last `suffix` blocks that the
/// preview shows are kept, since they are what those blocks of the document render to, and the
/// ones between are replaced by a rendering of the blocks of the document between. The preview
/// then has the text, and its blocks the lengths, links and places, that rendering the whole
/// document leaves it with, and the new blocks have their links, widgets and places where the
/// whole rendering has them.
#[verifier::spinoff_prover]
pub proof fn rendering_in_part_renders_the_whole<X>(
    events: Seq<EventView>,
    ranges: Seq<Range<usize>>,
    resolved: Seq<Resolved>,
    shown: Seq<RenderedBlock<X>>,
    texts: Seq<Seq<char>>,
    prefix: int,
    suffix: int,
    new_blocks: Seq<RenderedBlock<X>>,
    whole_blocks: Seq<RenderedBlock<X>>,
)
    requires
        all_stand_anywhere(events, ranges, resolved),
        0 <= prefix,
        0 <= suffix,
        prefix + suffix <= shown.len(),
        prefix + suffix <= ranges.len(),
        are_texts_of(texts, shown),
        ends_are_up_to_date(shown, texts, events, ranges, resolved, prefix, suffix),
        all_show(
            new_blocks,
            part_run(events, ranges, resolved, prefix, suffix, start_of(shown, prefix)).blocks,
        ),
        all_show(
            whole_blocks,
            run_of(events, ranges, resolved, false, ranges.len() as int).blocks,
        ),
    ensures
        ({
            let whole = run_of(events, ranges, resolved, false, ranges.len() as int);
            let from = start_of(shown, prefix);
            let to = start_of(shown, shown.len() - suffix);
            let part = part_run(events, ranges, resolved, prefix, suffix, from);
            let before = joined(texts);
            let after = shown.take(prefix) + new_blocks + shown.skip(shown.len() - suffix);
            &&& 0 <= from <= to <= before.len()
            &&& before.take(from) + part.text + before.skip(to) == whole.text
            &&& alike(after, whole_blocks)
            &&& all_links(after, after.len() as int) == all_links(
                whole_blocks,
                whole_blocks.len() as int,
            )
            &&& forall|i: int|
                #![trigger part.blocks[i]]
                0 <= i < part.blocks.len() ==> part.blocks[i] == (BlockView {
                    start: whole.blocks[prefix + i].start - from,
                    end: whole.blocks[prefix + i].end - from,
                    ..whole.blocks[prefix + i]
                })
        }),
{
    let from = start_of(shown, prefix);
    let middle = ranges.subrange(prefix, ranges.len() - suffix);
    let inner = alone_texts(events, middle, resolved);
    texts_are_those_of_the_document(events, ranges, resolved, shown, texts, prefix, suffix);
    starts_are_lengths(texts, shown, prefix);
    parts_stand_in_the_whole(events, ranges, resolved, prefix, suffix, from);
    replacing_blocks_renders_the_document(shown, texts, prefix, suffix, inner);
    runs_are_views(events, ranges, resolved, from > 0, prefix, ranges.len() - suffix);
    runs_are_views(events, ranges, resolved, false, 0, ranges.len() as int);
    assert(ranges.subrange(0, ranges.len() as int) =~= ranges);
    blocks_are_those_of_the_document(
        events,
        ranges,
        resolved,
        shown,
        texts,
        prefix,
        suffix,
        new_blocks,
        part_run(events, ranges, resolved, prefix, suffix, from).blocks,
        whole_blocks,
        run_of(events, ranges, resolved, false, ranges.len() as int).blocks,
    );
    let after = shown.take(prefix) + new_blocks + shown.skip(shown.len() - suffix);
    alike_blocks_lead_alike(
        after,
        whole_blocks,
        crate::preview::Place::Heading,
        after.len() as int,
    );
}

/// The rendering of the blocks of a document but the first `prefix` and the last `suffix`, which
/// goes where `from` characters precede it.
pub open spec fn part_run(
    events: Seq<EventView>,
    ranges: Seq<Range<usize>>,
    resolved: Seq<Resolved>,
    prefix: int,
    suffix: int,
    from: int,
) -> crate::render::RunView {
    let middle = ranges.subrange(prefix, ranges.len() - suffix);
    run_of(events, middle, resolved, from > 0, middle.len() as int)
}

/// A list of texts starts as it does itself.
proof fn starts_as_itself(list: Seq<Seq<char>>)
    ensures
        same_start(list, list) == list.len(),
    decreases list.len(),
{
    if list.len() > 0 {
        starts_as_itself(list.drop_first());
    }
}

/// A document that did not change is not rendered again: all blocks are kept, none is replaced,
/// and nothing is added to the preview.
pub proof fn unchanged_documents_render_nothing<X>(
    preview: Rendered<X>,
    events: Seq<EventView>,
    blocks: Seq<(Range<usize>, Range<usize>)>,
    resolved: Seq<Resolved>,
    follows: bool,
)
    requires
        blocks.len() == preview.blocks@.len(),
    ensures
        ({
            let kept = preview.kept(
                true,
                crate::text::texts(preview.definitions@),
                sources_of(preview.blocks@),
            );
            let ranges = changed_ranges(blocks, kept.0, kept.1);
            let run = run_of(events, ranges, resolved, follows, ranges.len() as int);
            &&& kept == (preview.blocks@.len() as int, 0int)
            &&& ranges.len() == 0
            &&& run.text.len() == 0
            &&& run.blocks.len() == 0
        }),
{
    let sources = sources_of(preview.blocks@);
    starts_as_itself(sources);
    let rest = sources.skip(sources.len() as int);
    assert(same_end(rest, rest) == 0);
}

} // verus!
