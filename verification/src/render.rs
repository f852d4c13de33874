//! Rendering a document into the preview, block by block: only the blocks that changed since
//! the last time are rendered again.

use crate::blocks::{blocks_of, definition_lines, definitions, slices, top_level_blocks, unchanged_ends};
use crate::emoji::pairs;
use crate::event::{copy_event, views, DocEvent, EventView};
use crate::github::{as_github_does, read_github};
use crate::groups::{group_blocks, grouped, groups_follow};
use crate::page::bare;
use crate::parse::{link_definitions, located, parsed, GITHUB};
use crate::preview_laws::renderings_fit;
use crate::preview::{
    copy_place, link_views, number_views, place_views, preview_start, rendered, Alert, BlockOut, BlockView,
    Place, PlaceView, Preview, PreviewView, Resolved, TextTag,
};
use crate::text::{same, slice, slice_of, texts};
use std::ops::Range;
use vstd::prelude::*;
use vstd::string::*;

verus! {

/// A top-level block as it was last rendered: its source, how many characters it takes in the
/// preview, and its links, with offsets from its start. `extra` is what the owner of the preview
/// keeps of it.
pub struct RenderedBlock<X> {
    pub source: String,
    pub length: usize,
    pub links: Vec<(usize, usize, String)>,
    /// The places in it that links lead to, with offsets from its start.
    pub places: Vec<(Place<String>, usize)>,
    pub extra: X,
}

/// `at`, or `length` if that is less.
pub open spec fn at_most(at: int, length: int) -> int {
    if at <= length {
        at
    } else {
        length
    }
}

/// `at`, or `length` if that is less.
fn capped(at: usize, length: usize) -> (within: usize)
    ensures
        within == at_most(at as int, length as int),
{
    if at <= length {
        at
    } else {
        length
    }
}

impl<X> RenderedBlock<X> {
    /// What is kept of a block that was just rendered. Its links and places stand in it.
    pub fn new(source: String, block: &BlockOut, extra: X) -> (kept: Self)
        requires
            block.start <= block.end,
        ensures
            kept.source == source,
            kept.extra == extra,
            kept.length == block.end - block.start,
            link_views(kept.links@) == block@.links.map_values(
                |link: (int, int, Seq<char>)|
                    (
                        at_most(link.0, kept.length as int),
                        at_most(link.1, kept.length as int),
                        link.2,
                    ),
            ),
            place_views(kept.places@) == block@.places.map_values(
                |place: (PlaceView, int)| (place.0, at_most(place.1, kept.length as int)),
            ),
    {
        let length = block.end - block.start;
        let mut links: Vec<(usize, usize, String)> = Vec::new();
        let ghost limit = |link: (int, int, Seq<char>)|
            (at_most(link.0, length as int), at_most(link.1, length as int), link.2);
        for i in 0..block.links.len()
            invariant
                limit == (|link: (int, int, Seq<char>)|
                    (at_most(link.0, length as int), at_most(link.1, length as int), link.2)),
                link_views(links@) == block@.links.take(i as int).map_values(limit),
        {
            let (start, end, url) = &block.links[i];
            let link = (capped(*start, length), capped(*end, length), url.clone());
            proof {
                assert(link_views(links@.push(link)) =~= link_views(links@).push(
                    limit(block@.links[i as int]),
                ));
                assert(block@.links.take(i + 1).map_values(limit) =~= block@.links.take(
                    i as int,
                ).map_values(limit).push(limit(block@.links[i as int])));
            }
            links.push(link);
        }
        let mut places: Vec<(Place<String>, usize)> = Vec::new();
        let ghost bound = |place: (PlaceView, int)| (place.0, at_most(place.1, length as int));
        for i in 0..block.places.len()
            invariant
                bound == (|place: (PlaceView, int)| (place.0, at_most(place.1, length as int))),
                place_views(places@) == block@.places.take(i as int).map_values(bound),
        {
            let (place, at) = &block.places[i];
            let item = (copy_place(place), capped(*at, length));
            proof {
                assert(place_views(places@.push(item)) =~= place_views(places@).push(
                    bound(block@.places[i as int]),
                ));
                assert(block@.places.take(i + 1).map_values(bound) =~= block@.places.take(
                    i as int,
                ).map_values(bound).push(bound(block@.places[i as int])));
            }
            places.push(item);
        }
        proof {
            assert(block@.links.take(block@.links.len() as int) =~= block@.links);
            assert(block@.places.take(block@.places.len() as int) =~= block@.places);
        }
        RenderedBlock { source, length, links, places, extra }
    }
}

/// What the preview holds, so a render can keep the blocks that did not change.
pub struct Rendered<X> {
    pub blocks: Vec<RenderedBlock<X>>,
    pub definitions: Vec<String>,
}

/// The sources of blocks.
pub open spec fn sources_of<X>(blocks: Seq<RenderedBlock<X>>) -> Seq<Seq<char>> {
    blocks.map_values(|block: RenderedBlock<X>| block.source@)
}

/// How many characters the first `n` blocks take: where the next one starts.
pub open spec fn start_of<X>(blocks: Seq<RenderedBlock<X>>, n: int) -> int
    decreases n,
{
    if n <= 0 {
        0
    } else {
        start_of(blocks, n - 1) + blocks[n - 1].length
    }
}

/// No block starts before an earlier one.
pub proof fn starts_grow<X>(blocks: Seq<RenderedBlock<X>>, i: int, j: int)
    requires
        0 <= i <= j <= blocks.len(),
    ensures
        0 <= start_of(blocks, i) <= start_of(blocks, j),
    decreases j,
{
    if j > i {
        starts_grow(blocks, i, j - 1);
    } else if i > 0 {
        starts_grow(blocks, i - 1, i - 1);
    }
}

/// Which blocks are kept, and which characters of the preview are replaced.
#[derive(Debug, Clone, Copy, PartialEq, Eq, Structural)]
pub struct Plan {
    /// How many blocks at the start are kept.
    pub prefix: usize,
    /// How many blocks at the end are kept.
    pub suffix: usize,
    /// Where the replaced characters start.
    pub from: usize,
    /// Where the replaced characters end.
    pub to: usize,
}

/// The plan that replaces the blocks but for the first `prefix` and the last `suffix`.
pub open spec fn plan_of<X>(blocks: Seq<RenderedBlock<X>>, prefix: int, suffix: int) -> Plan {
    Plan {
        prefix: prefix as usize,
        suffix: suffix as usize,
        from: start_of(blocks, prefix) as usize,
        to: start_of(blocks, blocks.len() - suffix) as usize,
    }
}

impl<X> Rendered<X> {
    /// Whether the preview fits in memory.
    pub open spec fn fits(self) -> bool {
        start_of(self.blocks@, self.blocks@.len() as int) <= usize::MAX
    }

    /// How many blocks at the start and the end are kept when the document has the given
    /// definitions and blocks.
    pub open spec fn kept(
        self,
        same_folder: bool,
        definitions: Seq<Seq<char>>,
        sources: Seq<Seq<char>>,
    ) -> (int, int) {
        if !same_folder || texts(self.definitions@) != definitions {
            (0, 0)
        } else {
            let blocks = sources_of(self.blocks@);
            let prefix = crate::blocks::same_start(blocks, sources);
            (prefix, crate::blocks::same_end(blocks.skip(prefix), sources.skip(prefix)))
        }
    }

    /// A preview that holds nothing.
    pub fn new() -> (preview: Self)
        ensures
            preview.blocks@.len() == 0,
            preview.definitions@.len() == 0,
            preview.fits(),
    {
        Rendered { blocks: Vec::new(), definitions: Vec::new() }
    }

    /// Where block `n` starts.
    pub fn start(&self, n: usize) -> (start: usize)
        requires
            self.fits(),
            n <= self.blocks@.len(),
        ensures
            start == start_of(self.blocks@, n as int),
    {
        let mut start: usize = 0;
        for i in 0..n
            invariant
                self.fits(),
                n <= self.blocks@.len(),
                start == start_of(self.blocks@, i as int),
        {
            proof {
                starts_grow(self.blocks@, i + 1, self.blocks@.len() as int);
            }
            start = start + self.blocks[i].length;
        }
        start
    }

    /// What to keep and what to replace when the document has the given definitions and
    /// blocks. Images resolve against the document's folder, and links against definitions any
    /// block may hold: when either changes, every block is rendered again.
    pub fn plan(
        &self,
        same_folder: bool,
        definitions: &Vec<String>,
        sources: &Vec<String>,
    ) -> (plan: Plan)
        requires
            self.fits(),
        ensures
            ({
                let kept = self.kept(same_folder, texts(definitions@), texts(sources@));
                plan == plan_of(self.blocks@, kept.0, kept.1)
            }),
            plan.prefix + plan.suffix <= self.blocks@.len(),
            plan.prefix + plan.suffix <= sources@.len(),
            plan.from == start_of(self.blocks@, plan.prefix as int),
            plan.to == start_of(self.blocks@, self.blocks@.len() - plan.suffix),
            plan.from <= plan.to,
    {
        let all = self.blocks.len();
        if !same_folder || !same_texts(&self.definitions, definitions) {
            let to = self.start(all);
            return Plan { prefix: 0, suffix: 0, from: 0, to };
        }
        let mut old_sources: Vec<&str> = Vec::new();
        for i in 0..self.blocks.len()
            invariant
                slices(old_sources@) == sources_of(self.blocks@).take(i as int),
        {
            let source = self.blocks[i].source.as_str();
            proof {
                assert(slices(old_sources@.push(source)) =~= slices(old_sources@).push(source@));
                assert(sources_of(self.blocks@).take(i + 1) =~= sources_of(self.blocks@).take(
                    i as int,
                ).push(source@));
            }
            old_sources.push(source);
        }
        let mut new_sources: Vec<&str> = Vec::new();
        for i in 0..sources.len()
            invariant
                slices(new_sources@) == texts(sources@).take(i as int),
        {
            let source = sources[i].as_str();
            proof {
                assert(slices(new_sources@.push(source)) =~= slices(new_sources@).push(source@));
                assert(texts(sources@).take(i + 1) =~= texts(sources@).take(i as int).push(
                    source@,
                ));
            }
            new_sources.push(source);
        }
        proof {
            assert(sources_of(self.blocks@).take(self.blocks@.len() as int) =~= sources_of(
                self.blocks@,
            ));
            assert(texts(sources@).take(sources@.len() as int) =~= texts(sources@));
        }
        let (prefix, suffix) = unchanged_ends(old_sources.as_slice(), new_sources.as_slice());
        proof {
            starts_grow(self.blocks@, prefix as int, all - suffix);
        }
        let from = self.start(prefix);
        let to = self.start(all - suffix);
        Plan { prefix, suffix, from, to }
    }

    /// Put the rendered blocks in the place of those that were replaced.
    pub fn replace(&mut self, plan: Plan, new_blocks: Vec<RenderedBlock<X>>, definitions: Vec<String>)
        requires
            plan.prefix + plan.suffix <= old(self).blocks@.len(),
        ensures
            final(self).blocks@ == old(self).blocks@.take(plan.prefix as int) + new_blocks@
                + old(self).blocks@.skip(old(self).blocks@.len() - plan.suffix),
            final(self).definitions == definitions,
    {
        let ghost before = self.blocks@;
        let all = self.blocks.len();
        let mut tail = self.blocks.split_off(all - plan.suffix);
        let ghost kept_end = tail@;
        let _ = self.blocks.split_off(plan.prefix);
        let mut middle = new_blocks;
        self.blocks.append(&mut middle);
        self.blocks.append(&mut tail);
        self.definitions = definitions;
        proof {
            assert(kept_end =~= before.skip(all - plan.suffix));
            assert(self.blocks@ =~= before.take(plan.prefix as int) + new_blocks@ + before.skip(
                before.len() - plan.suffix,
            ));
        }
    }

    /// Whether every place stands in its block.
    pub open spec fn places_fit(self) -> bool {
        forall|i: int, j: int|
            0 <= i < self.blocks@.len() && 0 <= j < self.blocks@[i].places@.len()
                ==> (#[trigger] self.blocks@[i].places@[j]).1 <= self.blocks@[i].length
    }

    /// Where the places alike `wanted` stand in the preview.
    fn offsets(&self, wanted: &Place<String>) -> (found: Vec<usize>)
        requires
            self.fits(),
            self.places_fit(),
        ensures
            number_views(found@) == all_offsets(
                self.blocks@,
                wanted@,
                self.blocks@.len() as int,
            ),
    {
        let mut found: Vec<usize> = Vec::new();
        let mut start: usize = 0;
        proof {
            assert(number_views(found@) =~= Seq::empty());
        }
        for i in 0..self.blocks.len()
            invariant
                self.fits(),
                self.places_fit(),
                start == start_of(self.blocks@, i as int),
                number_views(found@) == all_offsets(self.blocks@, wanted@, i as int),
        {
            let block = &self.blocks[i];
            let ghost before = number_views(found@);
            let ghost all = place_views(block.places@);
            proof {
                starts_grow(self.blocks@, i + 1, self.blocks@.len() as int);
                assert(before + offsets_of(all.take(0), wanted@, start as int) =~= before);
            }
            for j in 0..block.places.len()
                invariant
                    block == self.blocks@[i as int],
                    i < self.blocks@.len(),
                    self.places_fit(),
                    all == place_views(block.places@),
                    start + block.length <= usize::MAX,
                    number_views(found@) == before + offsets_of(
                        all.take(j as int),
                        wanted@,
                        start as int,
                    ),
            {
                proof {
                    assert(all.take(j + 1).drop_last() =~= all.take(j as int));
                    assert(all.take(j + 1).last() == (
                        block.places@[j as int].0@,
                        block.places@[j as int].1 as int,
                    ));
                    assert(self.blocks@[i as int].places@[j as int].1 <= block.length);
                }
                if same_place(&block.places[j].0, wanted) {
                    let at = start + block.places[j].1;
                    proof {
                        assert(number_views(found@.push(at)) =~= number_views(found@).push(
                            at as int,
                        ));
                    }
                    found.push(at);
                }
                proof {
                    assert(number_views(found@) =~= before + offsets_of(
                        all.take(j + 1),
                        wanted@,
                        start as int,
                    ));
                }
            }
            proof {
                assert(all.take(all.len() as int) =~= all);
            }
            start = start + block.length;
        }
        found
    }

    /// Where the place stands in the preview that `nth` alike it precede.
    pub fn place(&self, wanted: &Place<String>, nth: usize) -> (found: Option<usize>)
        requires
            self.fits(),
            self.places_fit(),
        ensures
            ({
                let offsets = all_offsets(self.blocks@, wanted@, self.blocks@.len() as int);
                match found {
                    Some(at) => nth < offsets.len() && offsets[nth as int] == at,
                    None => nth >= offsets.len(),
                }
            }),
    {
        let offsets = self.offsets(wanted);
        if nth < offsets.len() {
            proof {
                assert(number_views(offsets@)[nth as int] == offsets@[nth as int]);
            }
            Some(offsets[nth])
        } else {
            None
        }
    }

    /// Which box of the document, counted from its start, stands at `offset` of the preview.
    pub fn box_at(&self, offset: usize) -> (found: Option<usize>)
        requires
            self.fits(),
            self.places_fit(),
        ensures
            ({
                let boxes = all_offsets(self.blocks@, Place::Box, self.blocks@.len() as int);
                match found {
                    Some(n) => n < boxes.len() && boxes[n as int] == offset && forall|m: int|
                        0 <= m < n ==> boxes[m] != offset,
                    None => forall|m: int| 0 <= m < boxes.len() ==> boxes[m] != offset,
                }
            }),
    {
        let offsets = self.offsets(&Place::Box);
        let ghost boxes = number_views(offsets@);
        for n in 0..offsets.len()
            invariant
                boxes == number_views(offsets@),
                boxes == all_offsets(self.blocks@, Place::Box, self.blocks@.len() as int),
                forall|m: int| 0 <= m < n ==> boxes[m] != offset,
        {
            if offsets[n] == offset {
                return Some(n);
            }
        }
        None
    }

    /// The quotes of the preview that are in no other, where they stand in it.
    pub fn quotes(&self) -> (quotes: Vec<QuoteBox>)
        requires
            self.fits(),
            self.places_fit(),
        ensures
            box_views(quotes@) == all_quotes(self.blocks@, self.blocks@.len() as int),
    {
        let mut quotes: Vec<QuoteBox> = Vec::new();
        let mut start: usize = 0;
        proof {
            assert(box_views(quotes@) =~= Seq::empty());
        }
        for i in 0..self.blocks.len()
            invariant
                self.fits(),
                self.places_fit(),
                start == start_of(self.blocks@, i as int),
                box_views(quotes@) == all_quotes(self.blocks@, i as int),
        {
            let block = &self.blocks[i];
            let ghost before = box_views(quotes@);
            let ghost all = place_views(block.places@);
            let mut open: Option<(usize, Option<Alert>)> = None;
            proof {
                starts_grow(self.blocks@, i + 1, self.blocks@.len() as int);
                assert(before + quotes_in(all.take(0), start as int).0 =~= before);
            }
            for j in 0..block.places.len()
                invariant
                    block == self.blocks@[i as int],
                    i < self.blocks@.len(),
                    self.places_fit(),
                    all == place_views(block.places@),
                    start + block.length <= usize::MAX,
                    open_view(open) == quotes_in(all.take(j as int), start as int).1,
                    box_views(quotes@) == before + quotes_in(all.take(j as int), start as int).0,
            {
                let place = &block.places[j];
                proof {
                    assert(all.take(j + 1).drop_last() =~= all.take(j as int));
                    assert(all.take(j + 1).last() == (place.0@, place.1 as int));
                    assert(self.blocks@[i as int].places@[j as int].1 <= block.length);
                }
                let at = start + place.1;
                match &place.0 {
                    Place::Quote(alert) => {
                        open = Some((at, *alert));
                    },
                    Place::QuoteEnd => {
                        if let Some((from, alert)) = open {
                            let quote = QuoteBox { start: from, end: at, alert };
                            proof {
                                assert(box_views(quotes@.push(quote)) =~= box_views(quotes@).push(
                                    (from as int, at as int, alert),
                                ));
                            }
                            quotes.push(quote);
                        }
                        open = None;
                    },
                    _ => {},
                }
                proof {
                    assert(box_views(quotes@) =~= before + quotes_in(
                        all.take(j + 1),
                        start as int,
                    ).0);
                }
            }
            proof {
                assert(all.take(all.len() as int) =~= all);
            }
            start = start + block.length;
        }
        quotes
    }

    /// The links of the preview, where they stand in it.
    pub fn links(&self) -> (links: Vec<(usize, usize, String)>)
        requires
            self.fits(),
            forall|i: int, j: int|
                0 <= i < self.blocks@.len() && 0 <= j < self.blocks@[i].links@.len()
                    ==> #[trigger] self.blocks@[i].links@[j].0 + start_of(self.blocks@, i)
                    <= usize::MAX && self.blocks@[i].links@[j].1 + start_of(self.blocks@, i)
                    <= usize::MAX,
        ensures
            link_views(links@) == all_links(self.blocks@, self.blocks@.len() as int),
    {
        let mut links: Vec<(usize, usize, String)> = Vec::new();
        let mut start: usize = 0;
        proof {
            assert(link_views(links@) =~= all_links(self.blocks@, 0));
        }
        for i in 0..self.blocks.len()
            invariant
                self.fits(),
                start == start_of(self.blocks@, i as int),
                forall|i: int, j: int|
                    0 <= i < self.blocks@.len() && 0 <= j < self.blocks@[i].links@.len()
                        ==> #[trigger] self.blocks@[i].links@[j].0 + start_of(self.blocks@, i)
                        <= usize::MAX && self.blocks@[i].links@[j].1 + start_of(self.blocks@, i)
                        <= usize::MAX,
                link_views(links@) == all_links(self.blocks@, i as int),
        {
            let block = &self.blocks[i];
            let ghost before = all_links(self.blocks@, i as int);
            proof {
                assert(before + shifted(link_views(block.links@).take(0), start as int)
                    =~= before);
            }
            for j in 0..block.links.len()
                invariant
                    block == self.blocks@[i as int],
                    start == start_of(self.blocks@, i as int),
                    i < self.blocks@.len(),
                    forall|i: int, j: int|
                        0 <= i < self.blocks@.len() && 0 <= j < self.blocks@[i].links@.len()
                            ==> #[trigger] self.blocks@[i].links@[j].0 + start_of(self.blocks@, i)
                            <= usize::MAX && self.blocks@[i].links@[j].1 + start_of(
                            self.blocks@,
                            i,
                        ) <= usize::MAX,
                    link_views(links@) == before + shifted(
                        link_views(block.links@).take(j as int),
                        start as int,
                    ),
            {
                let link = &block.links[j];
                proof {
                    assert(self.blocks@[i as int].links@[j as int].0 + start_of(
                        self.blocks@,
                        i as int,
                    ) <= usize::MAX);
                }
                let item = (link.0 + start, link.1 + start, link.2.clone());
                proof {
                    assert(link_views(links@.push(item)) =~= link_views(links@).push(
                        (item.0 as int, item.1 as int, item.2@),
                    ));
                    assert(before + shifted(link_views(block.links@).take(j + 1), start as int)
                        =~= (before + shifted(
                        link_views(block.links@).take(j as int),
                        start as int,
                    )).push((item.0 as int, item.1 as int, item.2@)));
                }
                links.push(item);
            }
            proof {
                assert(link_views(block.links@).take(block.links@.len() as int) =~= link_views(
                    block.links@,
                ));
                starts_grow(self.blocks@, i + 1, self.blocks@.len() as int);
            }
            start = start + block.length;
        }
        links
    }
}

/// Whether two places are alike.
fn same_place(a: &Place<String>, b: &Place<String>) -> (alike: bool)
    ensures
        alike == (a@ == b@),
{
    match (a, b) {
        (Place::Heading, Place::Heading) => true,
        (Place::Note(a), Place::Note(b)) => same(a.as_str(), b.as_str()),
        (Place::Reference(a), Place::Reference(b)) => same(a.as_str(), b.as_str()),
        (Place::Box, Place::Box) => true,
        (Place::Quote(a), Place::Quote(b)) => *a == *b,
        (Place::QuoteEnd, Place::QuoteEnd) => true,
        (Place::Details(a), Place::Details(b)) => *a == *b,
        (Place::Content, Place::Content) => true,
        (Place::DetailsEnd, Place::DetailsEnd) => true,
        _ => false,
    }
}

/// Where the places alike `wanted` stand, from `start` on.
pub open spec fn offsets_of(places: Seq<(PlaceView, int)>, wanted: PlaceView, start: int) -> Seq<int>
    decreases places.len(),
{
    if places.len() == 0 {
        Seq::empty()
    } else {
        let before = offsets_of(places.drop_last(), wanted, start);
        if places.last().0 == wanted {
            before.push(start + places.last().1)
        } else {
            before
        }
    }
}

/// Where the places alike `wanted` stand in the first `n` blocks.
pub open spec fn all_offsets<X>(
    blocks: Seq<RenderedBlock<X>>,
    wanted: PlaceView,
    n: int,
) -> Seq<int>
    decreases n,
{
    if n <= 0 {
        Seq::empty()
    } else {
        all_offsets(blocks, wanted, n - 1) + offsets_of(
            place_views(blocks[n - 1].places@),
            wanted,
            start_of(blocks, n - 1),
        )
    }
}

/// A quote of the preview: where it starts and ends, and which alert it is.
#[derive(Clone, Copy, Debug, PartialEq, Eq, Structural)]
pub struct QuoteBox {
    pub start: usize,
    pub end: usize,
    pub alert: Option<Alert>,
}

/// Quotes as contracts speak of them.
pub open spec fn box_views(quotes: Seq<QuoteBox>) -> Seq<(int, int, Option<Alert>)> {
    quotes.map_values(|quote: QuoteBox| (quote.start as int, quote.end as int, quote.alert))
}

/// A quote that is open, as contracts speak of it.
pub open spec fn open_view(open: Option<(usize, Option<Alert>)>) -> Option<(int, Option<Alert>)> {
    match open {
        Some((start, alert)) => Some((start as int, alert)),
        None => None,
    }
}

/// The quotes that end among `places`, which are counted from `start`, and the one that is open
/// after them.
pub open spec fn quotes_in(places: Seq<(PlaceView, int)>, start: int) -> (
    Seq<(int, int, Option<Alert>)>,
    Option<(int, Option<Alert>)>,
)
    decreases places.len(),
{
    if places.len() == 0 {
        (Seq::empty(), None)
    } else {
        let (before, open) = quotes_in(places.drop_last(), start);
        let at = start + places.last().1;
        match (places.last().0, open) {
            (Place::Quote(alert), _) => (before, Some((at, alert))),
            (Place::QuoteEnd, Some((from, alert))) => (before.push((from, at, alert)), None),
            (Place::QuoteEnd, None) => (before, None),
            _ => (before, open),
        }
    }
}

/// The quotes of the first `n` blocks.
pub open spec fn all_quotes<X>(blocks: Seq<RenderedBlock<X>>, n: int) -> Seq<
    (int, int, Option<Alert>),
>
    decreases n,
{
    if n <= 0 {
        Seq::empty()
    } else {
        all_quotes(blocks, n - 1) + quotes_in(
            place_views(blocks[n - 1].places@),
            start_of(blocks, n - 1),
        ).0
    }
}

/// Links moved by `by`.
pub open spec fn shifted(links: Seq<(int, int, Seq<char>)>, by: int) -> Seq<
    (int, int, Seq<char>),
> {
    links.map_values(|link: (int, int, Seq<char>)| (link.0 + by, link.1 + by, link.2))
}

/// The links of the first `n` blocks, where they stand in the preview.
pub open spec fn all_links<X>(blocks: Seq<RenderedBlock<X>>, n: int) -> Seq<(int, int, Seq<char>)>
    decreases n,
{
    if n <= 0 {
        Seq::empty()
    } else {
        all_links(blocks, n - 1) + shifted(
            link_views(blocks[n - 1].links@),
            start_of(blocks, n - 1),
        )
    }
}

/// Whether the two lists of texts are the same.
fn same_texts(a: &Vec<String>, b: &Vec<String>) -> (equal: bool)
    ensures
        equal == (texts(a@) == texts(b@)),
{
    if a.len() != b.len() {
        proof {
            assert(texts(a@).len() != texts(b@).len());
        }
        return false;
    }
    for i in 0..a.len()
        invariant
            a@.len() == b@.len(),
            forall|j: int| 0 <= j < i ==> #[trigger] texts(a@)[j] == texts(b@)[j],
    {
        if !same(a[i].as_str(), b[i].as_str()) {
            proof {
                assert(texts(a@)[i as int] != texts(b@)[i as int]);
            }
            return false;
        }
    }
    proof {
        assert(texts(a@) =~= texts(b@));
    }
    true
}

/// Stretches of text moved by `by`.
pub open spec fn moved_spans(spans: Seq<(int, int, Seq<TextTag>)>, by: int) -> Seq<
    (int, int, Seq<TextTag>),
> {
    spans.map_values(|span: (int, int, Seq<TextTag>)| (span.0 + by, span.1 + by, span.2))
}

/// A rendering of some blocks of a document, as contracts speak of it: its text, the tagged
/// stretches of it, the alternative texts of its pictures, and what each block rendered to.
pub struct RunView {
    pub text: Seq<char>,
    pub spans: Seq<(int, int, Seq<TextTag>)>,
    pub alts: Seq<(int, Seq<char>)>,
    pub blocks: Seq<crate::preview::BlockView>,
}

/// The rendering of the block whose events are `range`, at the start of the preview or after
/// other blocks.
pub open spec fn block_state(
    events: Seq<EventView>,
    range: Range<usize>,
    resolved: Seq<Resolved>,
    follows: bool,
) -> PreviewView {
    rendered(preview_start(follows), events, resolved, range.start as int, range.end as int)
}

/// The text of a block that has ended.
pub open spec fn text_of_block(state: PreviewView) -> Seq<char> {
    state.end_block().text.skip(state.origin)
}

/// The rendering of the first `n` of `ranges`, the events of blocks, one after the other.
pub open spec fn run_of(
    events: Seq<EventView>,
    ranges: Seq<Range<usize>>,
    resolved: Seq<Resolved>,
    follows: bool,
    n: int,
) -> RunView
    decreases n,
{
    if n <= 0 {
        RunView {
            text: Seq::empty(),
            spans: Seq::empty(),
            alts: Seq::empty(),
            blocks: Seq::empty(),
        }
    } else {
        let before = run_of(events, ranges, resolved, follows, n - 1);
        let at = before.text.len() as int;
        let state = block_state(events, ranges[n - 1], resolved, follows || at > 0);
        RunView {
            text: before.text + text_of_block(state),
            spans: before.spans + moved_spans(state.spans, at),
            alts: before.alts + state.alts,
            blocks: before.blocks.push(
                BlockView {
                    start: at,
                    end: at + text_of_block(state).len(),
                    ..state.block()
                },
            ),
        }
    }
}

/// Whether `ranges` follow one another among `size` events.
pub open spec fn is_run(ranges: Seq<Range<usize>>, size: int) -> bool {
    &&& forall|i: int|
        0 <= i < ranges.len() ==> (#[trigger] ranges[i]).start <= ranges[i].end <= size
    &&& forall|i: int|
        0 < i < ranges.len() ==> ranges[i - 1].end <= (#[trigger] ranges[i]).start
}

/// A rendering of some blocks of a document.
pub struct Rendering {
    pub text: String,
    /// Stretches of the text and their tags.
    pub spans: Vec<(usize, usize, Vec<TextTag>)>,
    pub blocks: Vec<crate::preview::BlockOut>,
    /// The alternative texts of the pictures, by the events that start them.
    pub alts: Vec<(usize, String)>,
}

/// What blocks rendered to, as contracts speak of it.
pub open spec fn out_views(blocks: Seq<crate::preview::BlockOut>) -> Seq<
    crate::preview::BlockView,
> {
    blocks.map_values(|block: crate::preview::BlockOut| block@)
}

/// Render the blocks whose events are `ranges`. `resolved` tells what became of the image each
/// event starts, and `follows` whether a block precedes them in the preview.
#[verifier::rlimit(60)]
#[verifier::spinoff_prover]
pub fn render_markdown(
    events: &Vec<DocEvent>,
    ranges: &Vec<Range<usize>>,
    resolved: &Vec<Resolved>,
    follows: bool,
) -> (rendering: Rendering)
    requires
        is_run(ranges@, events@.len() as int),
    ensures
        ({
            let run = run_of(
                views(events@),
                ranges@,
                resolved@,
                follows,
                ranges@.len() as int,
            );
            &&& rendering.text@ == run.text
            &&& crate::preview::span_views(rendering.spans@) == run.spans
            &&& out_views(rendering.blocks@) == run.blocks
            &&& crate::preview::alt_views(rendering.alts@) == run.alts
        }),
{
    let ghost all = views(events@);
    let mut text: Vec<char> = Vec::new();
    let mut spans: Vec<(usize, usize, Vec<TextTag>)> = Vec::new();
    let mut alts: Vec<(usize, String)> = Vec::new();
    let mut blocks: Vec<crate::preview::BlockOut> = Vec::new();
    proof {
        assert(out_views(blocks@) =~= Seq::empty());
        assert(crate::preview::span_views(spans@) =~= Seq::empty());
        assert(crate::preview::alt_views(alts@) =~= Seq::empty());
    }
    for i in 0..ranges.len()
        invariant
            is_run(ranges@, events@.len() as int),
            all == views(events@),
            ({
                let run = run_of(all, ranges@, resolved@, follows, i as int);
                &&& text@ == run.text
                &&& crate::preview::span_views(spans@) == run.spans
                &&& crate::preview::alt_views(alts@) == run.alts
                &&& out_views(blocks@) == run.blocks
            }),
    {
        let at = text.len();
        proof {
            assert(ranges@[i as int].start <= ranges@[i as int].end <= events@.len());
        }
        let (state_text, state_spans, state_alts, block) = render_block(
            events,
            &ranges[i],
            resolved,
            follows || at > 0,
        );
        push_text(&mut text, &state_text);
        let end = text.len();
        push_spans(&mut spans, state_spans, at, Ghost(end as int));
        push_alts(&mut alts, state_alts);
        let ghost before = blocks@;
        let block = crate::preview::BlockOut { start: at, end, ..block };
        proof {
            assert(out_views(before.push(block)) =~= out_views(before).push(block@));
        }
        blocks.push(block);
    }
    Rendering { text: crate::text::text_of(&text, 0, text.len()), spans, blocks, alts }
}

/// Render one block, at the start of the preview or after other blocks.
fn render_block(
    events: &Vec<DocEvent>,
    range: &Range<usize>,
    resolved: &Vec<Resolved>,
    follows: bool,
) -> (out: (
    Vec<char>,
    Vec<(usize, usize, Vec<TextTag>)>,
    Vec<(usize, String)>,
    crate::preview::BlockOut,
))
    requires
        range.start <= range.end <= events@.len(),
    ensures
        ({
            let state = block_state(views(events@), *range, resolved@, follows);
            &&& out.0@ == text_of_block(state)
            &&& crate::preview::span_views(out.1@) == state.spans
            &&& crate::preview::alt_views(out.2@) == state.alts
            &&& out.3@ == state.block()
            &&& forall|i: int|
                0 <= i < out.1@.len() ==> (#[trigger] out.1@[i]).0 <= out.0@.len() && out.1@[i].1
                    <= out.0@.len()
        }),
{
    let ghost all = views(events@);
    let mut preview = Preview::new(follows);
    proof {
        preview.fits_later(0, range.start as nat);
    }
    for n in range.start..range.end
        invariant
            range.start <= range.end <= events@.len(),
            all == views(events@),
            preview.fits(n as nat),
            preview@ == rendered(
                preview_start(follows),
                all,
                resolved@,
                range.start as int,
                n as int,
            ),
    {
        let answer = if n < resolved.len() {
            resolved[n]
        } else {
            Resolved::Elsewhere
        };
        proof {
            assert(all[n as int] == events@[n as int]@);
        }
        preview.step(&events[n], n, answer);
    }
    let ghost state = preview@;
    let (text, spans, alts, block) = preview.finish(Ghost(range.end as nat));
    proof {
        renderings_fit(follows, all, resolved@, range.start as int, range.end as int);
        assert(state == block_state(all, *range, resolved@, follows));
        assert forall|i: int| 0 <= i < spans@.len() implies (#[trigger] spans@[i]).0
            <= text@.len() && spans@[i].1 <= text@.len() by {
            assert(state.spans[i] == crate::preview::span_views(spans@)[i]);
        }
    }
    (crate::text::chars_of(text.as_str()), spans, alts, block)
}

/// Add text.
fn push_text(text: &mut Vec<char>, more: &Vec<char>)
    ensures
        final(text)@ == old(text)@ + more@,
{
    let ghost before = text@;
    proof {
        assert(before + more@.take(0) =~= before);
    }
    for i in 0..more.len()
        invariant
            text@ == before + more@.take(i as int),
    {
        proof {
            assert(before + more@.take(i + 1) =~= (before + more@.take(i as int)).push(
                more@[i as int],
            ));
        }
        text.push(more[i]);
    }
    proof {
        assert(more@.take(more@.len() as int) =~= more@);
    }
}

/// Add stretches of text, moved by `by`.
fn push_spans(
    spans: &mut Vec<(usize, usize, Vec<TextTag>)>,
    more: Vec<(usize, usize, Vec<TextTag>)>,
    by: usize,
    Ghost(end): Ghost<int>,
)
    requires
        end <= usize::MAX,
        forall|i: int|
            0 <= i < more@.len() ==> (#[trigger] more@[i]).0 + by <= end && more@[i].1 + by <= end,
    ensures
        crate::preview::span_views(final(spans)@) == crate::preview::span_views(old(spans)@)
            + moved_spans(crate::preview::span_views(more@), by as int),
{
    let ghost before = crate::preview::span_views(spans@);
    let ghost all = crate::preview::span_views(more@);
    proof {
        assert(before + moved_spans(all.take(0), by as int) =~= before);
    }
    for i in 0..more.len()
        invariant
            end <= usize::MAX,
            forall|i: int|
                0 <= i < more@.len() ==> (#[trigger] more@[i]).0 + by <= end && more@[i].1 + by
                    <= end,
            all == crate::preview::span_views(more@),
            crate::preview::span_views(spans@) == before + moved_spans(
                all.take(i as int),
                by as int,
            ),
    {
        let (start, end, tags) = &more[i];
        let mut copy: Vec<TextTag> = Vec::new();
        for j in 0..tags.len()
            invariant
                copy@ == tags@.take(j as int),
        {
            proof {
                assert(tags@.take(j + 1) =~= tags@.take(j as int).push(tags@[j as int]));
            }
            copy.push(tags[j]);
        }
        let item = (*start + by, *end + by, copy);
        proof {
            assert(tags@.take(tags@.len() as int) =~= tags@);
            assert(crate::preview::span_views(spans@.push(item)) =~= crate::preview::span_views(
                spans@,
            ).push((item.0 as int, item.1 as int, item.2@)));
            assert(all[i as int] == (*start as int, *end as int, tags@));
            assert(before + moved_spans(all.take(i + 1), by as int) =~= (before + moved_spans(
                all.take(i as int),
                by as int,
            )).push((item.0 as int, item.1 as int, item.2@)));
        }
        spans.push(item);
    }
    proof {
        assert(all.take(all.len() as int) =~= all);
    }
}

/// Add alternative texts.
fn push_alts(alts: &mut Vec<(usize, String)>, more: Vec<(usize, String)>)
    ensures
        crate::preview::alt_views(final(alts)@) == crate::preview::alt_views(old(alts)@)
            + crate::preview::alt_views(more@),
{
    let ghost before = alts@;
    let mut rest = more;
    alts.append(&mut rest);
    proof {
        assert(crate::preview::alt_views(before + more@) =~= crate::preview::alt_views(before)
            + crate::preview::alt_views(more@));
    }
}

/// A document as the preview reads it.
pub struct Document {
    pub events: Vec<DocEvent>,
    /// The top-level blocks, put together where raw HTML holds them, as the range of their events
    /// and of their source.
    pub blocks: Vec<(Range<usize>, Range<usize>)>,
    /// The sources of the blocks.
    pub sources: Vec<String>,
    /// The link reference and footnote definitions, in a comparable form.
    pub definitions: Vec<String>,
}

/// The events of a block as GitHub reads them, when the emoji in `missing` are not to be had.
pub open spec fn block_events(
    events: Seq<(EventView, Range<usize>)>,
    range: Range<usize>,
    missing: Seq<(Seq<char>, Seq<char>)>,
) -> Seq<EventView> {
    as_github_does(bare(events.subrange(range.start as int, range.end as int)), missing)
}

/// The events of the first `n` of `blocks` as GitHub reads them, and the blocks by the ranges of
/// those events.
pub open spec fn blocks_read(
    events: Seq<(EventView, Range<usize>)>,
    blocks: Seq<(Range<usize>, Range<usize>)>,
    missing: Seq<(Seq<char>, Seq<char>)>,
    n: int,
) -> (Seq<EventView>, Seq<(Range<usize>, Range<usize>)>)
    decreases n,
{
    if n <= 0 {
        (Seq::empty(), Seq::empty())
    } else {
        let (list, before) = blocks_read(events, blocks, missing, n - 1);
        let next = list + block_events(events, blocks[n - 1].0, missing);
        let range = Range { start: list.len() as usize, end: next.len() as usize };
        (next, before.push((range, blocks[n - 1].1)))
    }
}

/// The blocks of a document as they are parsed, put together where raw HTML holds them.
pub open spec fn parsed_blocks(text: Seq<char>) -> Seq<(Range<usize>, Range<usize>)> {
    let blocks = blocks_of(parsed(text, GITHUB), parsed(text, GITHUB).len() as int).blocks;
    grouped(parsed(text, GITHUB), blocks, blocks.len() as int).0
}

/// What the blocks of a document are read as, when the emoji in `missing` are not to be had.
pub open spec fn document_read(text: Seq<char>, missing: Seq<(Seq<char>, Seq<char>)>) -> (
    Seq<EventView>,
    Seq<(Range<usize>, Range<usize>)>,
) {
    blocks_read(
        parsed(text, GITHUB),
        parsed_blocks(text),
        missing,
        parsed_blocks(text).len() as int,
    )
}

/// A part of events.
fn part(events: &Vec<(DocEvent, Range<usize>)>, range: &Range<usize>) -> (list: Vec<DocEvent>)
    requires
        range.start <= range.end <= events@.len(),
    ensures
        views(list@) == bare(located(events@).subrange(range.start as int, range.end as int)),
{
    let ghost all = bare(located(events@).subrange(range.start as int, range.end as int));
    let mut list: Vec<DocEvent> = Vec::new();
    for i in range.start..range.end
        invariant
            range.start <= range.end <= events@.len(),
            all == bare(located(events@).subrange(range.start as int, range.end as int)),
            views(list@) == all.take(i - range.start),
    {
        let copy = copy_event(&events[i].0);
        proof {
            assert(views(list@.push(copy)) =~= views(list@).push(copy@));
            assert(all[i - range.start] == events@[i as int].0@);
            assert(all.take(i + 1 - range.start) =~= all.take(i - range.start).push(copy@));
        }
        list.push(copy);
    }
    proof {
        assert(all.take(all.len() as int) =~= all);
    }
    list
}

/// The events of blocks as GitHub reads them, and the blocks by the ranges of those events.
fn read_parts(
    events: &Vec<(DocEvent, Range<usize>)>,
    blocks: &Vec<(Range<usize>, Range<usize>)>,
    missing: &Vec<(String, String)>,
) -> (read: (Vec<DocEvent>, Vec<(Range<usize>, Range<usize>)>))
    requires
        forall|i: int|
            0 <= i < blocks@.len() ==> (#[trigger] blocks@[i]).0.start <= blocks@[i].0.end
                <= events@.len(),
    ensures
        (views(read.0@), read.1@) == blocks_read(
            located(events@),
            blocks@,
            pairs(missing@),
            blocks@.len() as int,
        ),
        is_run(read.1@.map_values(|block: (Range<usize>, Range<usize>)| block.0), read.0@.len() as int),
{
    let mut list: Vec<DocEvent> = Vec::new();
    let mut found: Vec<(Range<usize>, Range<usize>)> = Vec::new();
    proof {
        assert(views(list@) =~= Seq::empty());
        assert(found@ =~= Seq::empty());
    }
    for i in 0..blocks.len()
        invariant
            forall|i: int|
                0 <= i < blocks@.len() ==> (#[trigger] blocks@[i]).0.start <= blocks@[i].0.end
                    <= events@.len(),
            (views(list@), found@) == blocks_read(
                located(events@),
                blocks@,
                pairs(missing@),
                i as int,
            ),
            found@.len() == i,
            forall|k: int|
                0 <= k < i ==> (#[trigger] found@[k]).0.start <= found@[k].0.end <= list@.len(),
            forall|k: int| 0 < k < i ==> found@[k - 1].0.end <= (#[trigger] found@[k]).0.start,
            i > 0 ==> found@[i - 1].0.end == list@.len(),
    {
        let ghost before = list@;
        let ghost blocks_before = found@;
        let start = list.len();
        let mut next = read_github(&part(events, &blocks[i].0), missing);
        let ghost added = next@;
        list.append(&mut next);
        let end = list.len();
        proof {
            assert(views(list@) =~= views(before) + views(added));
            assert(views(before).len() == before.len());
            assert(views(list@).len() == list@.len());
        }
        let source = blocks[i].1.start..blocks[i].1.end;
        found.push((start..end, source));
        proof {
            assert(found@ =~= blocks_before.push((start..end, blocks@[i as int].1)));
            assert forall|k: int| 0 < k < i + 1 implies found@[k - 1].0.end <= (
            #[trigger] found@[k]).0.start by {
                if k == i {
                    assert(found@[k - 1] == blocks_before[i - 1]);
                } else {
                    assert(found@[k] == blocks_before[k]);
                    assert(found@[k - 1] == blocks_before[k - 1]);
                }
            }
        }
    }
    proof {
        let ranges = found@.map_values(|block: (Range<usize>, Range<usize>)| block.0);
        assert forall|i: int| 0 <= i < ranges.len() implies (#[trigger] ranges[i]).start
            <= ranges[i].end <= list@.len() by {
            assert(ranges[i] == found@[i].0);
        }
        assert forall|i: int| 0 < i < ranges.len() implies ranges[i - 1].end <= (
        #[trigger] ranges[i]).start by {
            assert(ranges[i] == found@[i].0);
            assert(ranges[i - 1] == found@[i - 1].0);
        }
    }
    (list, found)
}

/// The source of a block: the text of its bytes.
pub open spec fn source_of(text: Seq<char>, range: Range<usize>) -> Seq<char> {
    match slice_of(text, range.start as int, range.end as int) {
        Some(piece) => piece,
        None => Seq::empty(),
    }
}

/// The sources of blocks.
pub open spec fn block_sources(
    text: Seq<char>,
    blocks: Seq<(Range<usize>, Range<usize>)>,
) -> Seq<Seq<char>> {
    blocks.map_values(|block: (Range<usize>, Range<usize>)| source_of(text, block.1))
}

/// Whether a list of definitions is the comparable form of those of a document.
pub open spec fn defines(text: Seq<char>, extensions: u32, lines: Seq<Seq<char>>) -> bool {
    exists|links: Seq<(Seq<char>, Seq<char>, Option<Seq<char>>)>|
        #![trigger links.to_multiset()]
        links.to_multiset() == link_definitions(text, extensions) && lines == definition_lines(
            links,
            parsed(text, extensions),
        )
}

/// Read a document for the preview, block by block as GitHub reads it, when the emoji in
/// `missing`, which come with their shortcodes, are not to be had.
pub fn read_document(text: &str, missing: &Vec<(String, String)>) -> (document: Document)
    ensures
        (views(document.events@), document.blocks@) == document_read(text@, pairs(missing@)),
        texts(document.sources@) == block_sources(text@, parsed_blocks(text@)),
        defines(text@, GITHUB, texts(document.definitions@)),
        document.sources@.len() == document.blocks@.len(),
        document.is_whole(),
{
    let events = crate::parse::events(text, GITHUB);
    let links = crate::parse::definitions(text, GITHUB);
    let lines = definitions(&links, &events);
    proof {
        let list = crate::parse::definition_views(links@);
        assert(list.to_multiset() == link_definitions(text@, GITHUB));
    }
    let top = top_level_blocks(&events);
    let size = events.len();
    proof {
        let found = blocks_of(located(events@), size as int).blocks;
        crate::blocks::blocks_partition_the_events(located(events@), size as int);
        assert forall|i: int| 0 <= i < top@.len() implies (#[trigger] top@[i]).0.start
            < top@[i].0.end && top@[i].0.end <= events@.len() by {
            assert(top@[i] == found[i]);
            ends_grow(located(events@), size as int, i);
        }
    }
    let blocks = group_blocks(&events, &top);
    let sources = read_sources(text, &blocks);
    proof {
        groups_follow(located(events@), top@, top@.len() as int);
        assert forall|i: int| 0 <= i < blocks@.len() implies (#[trigger] blocks@[i]).0.start
            <= blocks@[i].0.end <= events@.len() by {}
    }
    let (list, read) = read_parts(&events, &blocks, missing);
    proof {
        one_read_for_each(located(events@), blocks@, pairs(missing@), blocks@.len() as int);
        assert(texts(sources@).len() == sources@.len());
        assert(block_sources(text@, blocks@).len() == blocks@.len());
    }
    Document { events: list, blocks: read, sources, definitions: lines }
}

/// Each block is read as one.
proof fn one_read_for_each(
    events: Seq<(EventView, Range<usize>)>,
    blocks: Seq<(Range<usize>, Range<usize>)>,
    missing: Seq<(Seq<char>, Seq<char>)>,
    n: int,
)
    requires
        0 <= n,
    ensures
        blocks_read(events, blocks, missing, n).1.len() == n,
    decreases n,
{
    if n > 0 {
        one_read_for_each(events, blocks, missing, n - 1);
    }
}

/// The sources of blocks.
pub fn read_sources(text: &str, blocks: &Vec<(Range<usize>, Range<usize>)>) -> (sources: Vec<
    String,
>)
    ensures
        texts(sources@) == block_sources(text@, blocks@),
{
    let mut sources: Vec<String> = Vec::new();
    for i in 0..blocks.len()
        invariant
            texts(sources@) == block_sources(text@, blocks@.take(i as int)),
    {
        let source = match slice(text, blocks[i].1.start, blocks[i].1.end) {
            Some(piece) => piece,
            None => String::new(),
        };
        proof {
            assert(texts(sources@.push(source)) =~= texts(sources@).push(source@));
            assert(block_sources(text@, blocks@.take(i + 1)) =~= block_sources(
                text@,
                blocks@.take(i as int),
            ).push(source_of(text@, blocks@[i as int].1)));
        }
        sources.push(source);
    }
    proof {
        assert(blocks@.take(blocks@.len() as int) =~= blocks@);
    }
    sources
}

/// The events of the blocks that are rendered again.
pub open spec fn changed_ranges(
    blocks: Seq<(Range<usize>, Range<usize>)>,
    prefix: int,
    suffix: int,
) -> Seq<Range<usize>> {
    blocks.subrange(prefix, blocks.len() - suffix).map_values(
        |block: (Range<usize>, Range<usize>)| block.0,
    )
}

impl Document {
    /// Whether the blocks follow one another among the events.
    pub open spec fn is_whole(self) -> bool {
        is_run(
            self.blocks@.map_values(|block: (Range<usize>, Range<usize>)| block.0),
            self.events@.len() as int,
        )
    }

    /// The events of the blocks that are rendered again.
    pub fn changed(&self, plan: Plan) -> (ranges: Vec<Range<usize>>)
        requires
            self.is_whole(),
            plan.prefix + plan.suffix <= self.blocks@.len(),
        ensures
            ranges@ == changed_ranges(self.blocks@, plan.prefix as int, plan.suffix as int),
            is_run(ranges@, self.events@.len() as int),
    {
        let mut ranges: Vec<Range<usize>> = Vec::new();
        let end = self.blocks.len() - plan.suffix;
        let ghost all = changed_ranges(self.blocks@, plan.prefix as int, plan.suffix as int);
        for i in plan.prefix..end
            invariant
                plan.prefix + plan.suffix <= self.blocks@.len(),
                end == self.blocks@.len() - plan.suffix,
                all == changed_ranges(self.blocks@, plan.prefix as int, plan.suffix as int),
                ranges@ == all.take(i - plan.prefix),
        {
            let range = self.blocks[i].0.start..self.blocks[i].0.end;
            proof {
                assert(all.take(i + 1 - plan.prefix) =~= all.take(i - plan.prefix).push(
                    self.blocks@[i as int].0,
                ));
            }
            ranges.push(range);
        }
        proof {
            let found = self.blocks@.map_values(|block: (Range<usize>, Range<usize>)| block.0);
            assert(all.take(end - plan.prefix) =~= all);
            assert forall|i: int| 0 <= i < ranges@.len() implies (#[trigger] ranges@[i]).start
                <= ranges@[i].end <= self.events@.len() by {
                assert(ranges@[i] == found[i + plan.prefix]);
            }
            assert forall|i: int| 0 < i < ranges@.len() implies ranges@[i - 1].end <= (
            #[trigger] ranges@[i]).start by {
                assert(ranges@[i] == found[i + plan.prefix]);
                assert(ranges@[i - 1] == found[i - 1 + plan.prefix]);
            }
        }
        ranges
    }
}

/// No block ends after the last event.
proof fn ends_grow(events: Seq<(EventView, Range<usize>)>, n: int, i: int)
    requires
        0 <= n <= events.len(),
        n <= usize::MAX,
        0 <= i < blocks_of(events, n).blocks.len(),
    ensures
        blocks_of(events, n).blocks[i].0.end <= n,
    decreases n,
{
    if n > 0 {
        if i < blocks_of(events, n - 1).blocks.len() {
            ends_grow(events, n - 1, i);
        }
    }
}

}
