//! The `<details>` elements of the preview, which a click on their summaries opens and closes.

use crate::preview::{place_views, Place, PlaceView};
use crate::render::{start_of, starts_grow, Plan, Rendered, RenderedBlock};
use vstd::prelude::*;

verus! {

/// Whether the `<details>` elements that start at places are open at first.
pub open spec fn flags_in(places: Seq<(PlaceView, int)>) -> Seq<bool>
    decreases places.len(),
{
    if places.len() == 0 {
        Seq::empty()
    } else {
        let before = flags_in(places.drop_last());
        match places.last().0 {
            Place::Details(open) => before.push(open),
            _ => before,
        }
    }
}

/// Whether the `<details>` elements of blocks are open at first.
pub open spec fn flags_of<X>(blocks: Seq<RenderedBlock<X>>) -> Seq<bool>
    decreases blocks.len(),
{
    if blocks.len() == 0 {
        Seq::empty()
    } else {
        flags_of(blocks.drop_last()) + flags_in(place_views(blocks.last().places@))
    }
}

/// The elements of two runs of blocks follow one another.
pub proof fn flags_add<X>(a: Seq<RenderedBlock<X>>, b: Seq<RenderedBlock<X>>)
    ensures
        flags_of(a + b) == flags_of(a) + flags_of(b),
    decreases b.len(),
{
    if b.len() == 0 {
        assert(a + b =~= a);
        assert(flags_of(a) + flags_of(b) =~= flags_of(a));
    } else {
        assert((a + b).drop_last() =~= a + b.drop_last());
        flags_add(a, b.drop_last());
        assert(flags_of(a + b) =~= flags_of(a) + flags_of(b));
    }
}

/// `new`, but as `old` has it as far as that goes.
pub open spec fn carried(old: Seq<bool>, new: Seq<bool>) -> Seq<bool> {
    Seq::new(
        new.len(),
        |i: int|
            if i < old.len() {
                old[i]
            } else {
                new[i]
            },
    )
}

/// What is open once the element numbered `n` is opened or closed.
pub open spec fn toggled(open: Seq<bool>, n: int) -> Seq<bool> {
    if 0 <= n < open.len() {
        open.update(n, !open[n])
    } else {
        open
    }
}

/// Which `<details>` elements of the preview are open, in the order they start in.
pub struct Folds {
    pub open: Vec<bool>,
}

/// Add whether the elements of a block are open at first.
fn push_flags<X>(flags: &mut Vec<bool>, block: &RenderedBlock<X>)
    ensures
        final(flags)@ == old(flags)@ + flags_in(place_views(block.places@)),
{
    let ghost all = place_views(block.places@);
    let ghost before = flags@;
    proof {
        assert(before + flags_in(all.take(0)) =~= before);
    }
    for i in 0..block.places.len()
        invariant
            all == place_views(block.places@),
            flags@ == before + flags_in(all.take(i as int)),
    {
        proof {
            assert(all.take(i + 1).drop_last() =~= all.take(i as int));
            assert(all.take(i + 1).last().0 == block.places@[i as int].0@);
        }
        if let Place::Details(open) = &block.places[i].0 {
            flags.push(*open);
        }
        proof {
            assert(flags@ =~= before + flags_in(all.take(i + 1)));
        }
    }
    proof {
        assert(all.take(all.len() as int) =~= all);
    }
}

/// Whether the elements of blocks from `start` up to `end` are open at first.
fn read_flags<X>(blocks: &Vec<RenderedBlock<X>>, start: usize, end: usize) -> (flags: Vec<bool>)
    requires
        start <= end <= blocks@.len(),
    ensures
        flags@ == flags_of(blocks@.subrange(start as int, end as int)),
{
    let mut flags: Vec<bool> = Vec::new();
    for i in start..end
        invariant
            start <= end <= blocks@.len(),
            flags@ == flags_of(blocks@.subrange(start as int, i as int)),
    {
        push_flags(&mut flags, &blocks[i]);
        proof {
            let next = blocks@.subrange(start as int, i + 1);
            assert(next.drop_last() =~= blocks@.subrange(start as int, i as int));
            assert(next.last() == blocks@[i as int]);
        }
    }
    flags
}

impl Folds {
    /// Whether there is one for each element of a preview.
    pub open spec fn fit<X>(self, blocks: Seq<RenderedBlock<X>>) -> bool {
        self.open@.len() == flags_of(blocks).len()
    }

    /// What is open of a preview that holds nothing.
    pub fn new() -> (folds: Self)
        ensures
            folds.open@ == Seq::<bool>::empty(),
    {
        Folds { open: Vec::new() }
    }

    /// What is open once the blocks of a plan are replaced by `new_blocks`: the elements of the
    /// blocks that stay are as they were, and so are those of the new ones as far as there were as
    /// many.
    pub open spec fn after<X>(
        self,
        blocks: Seq<RenderedBlock<X>>,
        plan: Plan,
        new_blocks: Seq<RenderedBlock<X>>,
    ) -> Seq<bool> {
        let before = flags_of(blocks.take(plan.prefix as int)).len() as int;
        let after = flags_of(blocks.skip(blocks.len() - plan.suffix)).len() as int;
        let end = self.open@.len() - after;
        self.open@.take(before) + carried(
            self.open@.subrange(before, end),
            flags_of(new_blocks),
        ) + self.open@.skip(end)
    }

    /// Take note that the blocks of a plan are about to be replaced by `new_blocks`.
    pub fn rerender<X>(
        &mut self,
        shown: &Rendered<X>,
        plan: Plan,
        new_blocks: &Vec<RenderedBlock<X>>,
    )
        requires
            plan.prefix + plan.suffix <= shown.blocks@.len(),
            old(self).fit(shown.blocks@),
        ensures
            final(self).open@ == old(self).after(shown.blocks@, plan, new_blocks@),
            final(self).fit(
                shown.blocks@.take(plan.prefix as int) + new_blocks@ + shown.blocks@.skip(
                    shown.blocks@.len() - plan.suffix,
                ),
            ),
    {
        let ghost blocks = shown.blocks@;
        let count = shown.blocks.len();
        let before = read_flags(&shown.blocks, 0, plan.prefix).len();
        let after = read_flags(&shown.blocks, count - plan.suffix, count).len();
        let new = read_flags(new_blocks, 0, new_blocks.len());
        proof {
            let start = blocks.take(plan.prefix as int);
            let middle = blocks.subrange(plan.prefix as int, count - plan.suffix);
            let end = blocks.skip(count - plan.suffix);
            assert(blocks.subrange(0, plan.prefix as int) =~= start);
            assert(blocks.subrange(count - plan.suffix, count as int) =~= end);
            assert(new_blocks@.subrange(0, new_blocks@.len() as int) =~= new_blocks@);
            assert(start + middle + end =~= blocks);
            flags_add(start, middle);
            flags_add(start + middle, end);
            flags_add(start, new_blocks@);
            flags_add(start + new_blocks@, end);
        }
        let all = self.open.len();
        let last = all - after;
        let mut open: Vec<bool> = Vec::new();
        for i in 0..before
            invariant
                before <= self.open@.len(),
                open@ == self.open@.take(i as int),
        {
            proof {
                assert(self.open@.take(i + 1) =~= self.open@.take(i as int).push(
                    self.open@[i as int],
                ));
            }
            open.push(self.open[i]);
        }
        let ghost middle = self.open@.subrange(before as int, last as int);
        for i in 0..new.len()
            invariant
                before <= last <= self.open@.len(),
                middle == self.open@.subrange(before as int, last as int),
                open@ == self.open@.take(before as int) + carried(middle, new@).take(i as int),
        {
            let flag = if i < last - before {
                self.open[before + i]
            } else {
                new[i]
            };
            proof {
                assert(carried(middle, new@).take(i + 1) =~= carried(middle, new@).take(
                    i as int,
                ).push(flag));
            }
            open.push(flag);
            proof {
                assert(open@ =~= self.open@.take(before as int) + carried(middle, new@).take(
                    i + 1,
                ));
            }
        }
        let ghost kept = self.open@.take(before as int) + carried(middle, new@);
        proof {
            assert(carried(middle, new@).take(new@.len() as int) =~= carried(middle, new@));
        }
        for i in last..all
            invariant
                last <= all == self.open@.len(),
                open@ == kept + self.open@.subrange(last as int, i as int),
        {
            open.push(self.open[i]);
            proof {
                assert(open@ =~= kept + self.open@.subrange(last as int, i + 1));
            }
        }
        proof {
            assert(self.open@.subrange(last as int, all as int) =~= self.open@.skip(last as int));
            assert(open@ =~= old(self).after(blocks, plan, new_blocks@));
        }
        self.open = open;
    }

    /// Open the element numbered `n`, or close it.
    pub fn toggle(&mut self, n: usize)
        ensures
            final(self).open@ == toggled(old(self).open@, n as int),
    {
        if n < self.open.len() {
            let open = self.open[n];
            self.open.set(n, !open);
        }
    }
}

/// Editing a document leaves its `<details>` elements as they were left, as long as none comes or
/// goes.
pub proof fn details_stay_as_left<X>(
    folds: Folds,
    blocks: Seq<RenderedBlock<X>>,
    plan: Plan,
    new_blocks: Seq<RenderedBlock<X>>,
)
    requires
        plan.prefix + plan.suffix <= blocks.len(),
        folds.fit(blocks),
        flags_of(blocks.take(plan.prefix as int) + new_blocks + blocks.skip(
            blocks.len() - plan.suffix,
        )).len() == flags_of(blocks).len(),
    ensures
        folds.after(blocks, plan, new_blocks) == folds.open@,
{
    let start = blocks.take(plan.prefix as int);
    let middle = blocks.subrange(plan.prefix as int, blocks.len() - plan.suffix);
    let end = blocks.skip(blocks.len() - plan.suffix);
    assert(start + middle + end =~= blocks);
    flags_add(start, middle);
    flags_add(start + middle, end);
    flags_add(start, new_blocks);
    flags_add(start + new_blocks, end);
    assert(folds.after(blocks, plan, new_blocks) =~= folds.open@);
}

/// A second click on a summary takes the first one back.
pub proof fn clicks_are_undone(open: Seq<bool>, n: int)
    ensures
        toggled(toggled(open, n), n) == open,
{
    assert(toggled(toggled(open, n), n) =~= open);
}

/// A `<details>` element of the preview: which one it is, where its summary starts, and where the
/// rest of it starts and ends.
#[derive(Clone, Copy, Debug, PartialEq, Eq, Structural)]
pub struct Fold {
    pub number: usize,
    pub summary: usize,
    pub content: usize,
    pub end: usize,
}

/// A `<details>` element as contracts speak of it.
pub type FoldView = (int, int, int, int);

/// Elements as contracts speak of them.
pub open spec fn fold_views(folds: Seq<Fold>) -> Seq<FoldView> {
    folds.map_values(
        |fold: Fold| (fold.number as int, fold.summary as int, fold.content as int, fold.end as int),
    )
}

/// The elements among places that have ended, those that are open, by their number, their start
/// and where their summary ends if it has, and how many have started in the document.
#[verifier::ext_equal]
pub struct FoldsView {
    pub ended: Seq<FoldView>,
    pub open: Seq<(int, int, Option<int>)>,
    pub count: int,
}

impl FoldsView {
    /// A place comes in. An element without a summary is none to be clicked.
    pub open spec fn step(self, place: PlaceView, at: int) -> FoldsView {
        match place {
            Place::Details(_) => FoldsView {
                open: self.open.push((self.count, at, None)),
                count: self.count + 1,
                ..self
            },
            Place::Content => if self.open.len() > 0 && self.open.last().2 is None {
                let (number, summary, _) = self.open.last();
                FoldsView {
                    open: self.open.drop_last().push((number, summary, Some(at))),
                    ..self
                }
            } else {
                self
            },
            Place::DetailsEnd => if self.open.len() > 0 {
                let (number, summary, content) = self.open.last();
                FoldsView {
                    ended: match content {
                        Some(content) => self.ended.push((number, summary, content, at)),
                        None => self.ended,
                    },
                    open: self.open.drop_last(),
                    ..self
                }
            } else {
                self
            },
            _ => self,
        }
    }
}

/// The elements after the first `n` places of a block that starts at `start`.
pub open spec fn folds_in(
    before: FoldsView,
    places: Seq<(PlaceView, int)>,
    start: int,
    n: int,
) -> FoldsView
    decreases n,
{
    if n <= 0 {
        before
    } else {
        folds_in(before, places, start, n - 1).step(places[n - 1].0, start + places[n - 1].1)
    }
}

/// The elements after the first `n` blocks. One that is open at the end of a block is none to be
/// clicked.
pub open spec fn all_folds<X>(blocks: Seq<RenderedBlock<X>>, n: int) -> FoldsView
    decreases n,
{
    if n <= 0 {
        FoldsView { ended: Seq::empty(), open: Seq::empty(), count: 0 }
    } else {
        let places = place_views(blocks[n - 1].places@);
        let after = folds_in(
            all_folds(blocks, n - 1),
            places,
            start_of(blocks, n - 1),
            places.len() as int,
        );
        FoldsView { open: Seq::empty(), ..after }
    }
}

/// Open elements as contracts speak of them.
pub open spec fn open_views(open: Seq<(usize, usize, Option<usize>)>) -> Seq<
    (int, int, Option<int>),
> {
    open.map_values(
        |item: (usize, usize, Option<usize>)|
            (
                item.0 as int,
                item.1 as int,
                match item.2 {
                    Some(content) => Some(content as int),
                    None => None,
                },
            ),
    )
}

/// Elements while they are found.
struct Finder {
    ended: Vec<Fold>,
    open: Vec<(usize, usize, Option<usize>)>,
    count: usize,
}

impl Finder {
    /// The elements as contracts speak of them.
    spec fn seen(self) -> FoldsView {
        FoldsView {
            ended: fold_views(self.ended@),
            open: open_views(self.open@),
            count: self.count as int,
        }
    }

    /// A place comes in.
    fn step(&mut self, place: &Place<String>, at: usize)
        requires
            old(self).count < usize::MAX,
        ensures
            final(self).seen() == old(self).seen().step(place@, at as int),
            final(self).count <= old(self).count + 1,
    {
        let ghost before = self.open@;
        let ghost done = self.ended@;
        match place {
            Place::Details(_) => {
                let item = (self.count, at, None);
                self.open.push(item);
                self.count = self.count + 1;
                proof {
                    assert(open_views(self.open@) =~= open_views(before).push(
                        (item.0 as int, at as int, None),
                    ));
                }
            },
            Place::Content => {
                if self.open.len() > 0 && self.open[self.open.len() - 1].2.is_none() {
                    if let Some((number, summary, _)) = self.open.pop() {
                        self.open.push((number, summary, Some(at)));
                        proof {
                            assert(open_views(before).last() == (
                                number as int,
                                summary as int,
                                None::<int>,
                            ));
                            assert(open_views(self.open@) =~= open_views(before).drop_last().push(
                                (number as int, summary as int, Some(at as int)),
                            ));
                        }
                    }
                } else {
                    proof {
                        if before.len() > 0 {
                            assert(open_views(before).last().2 is Some);
                        }
                    }
                }
            },
            Place::DetailsEnd => {
                if let Some((number, summary, content)) = self.open.pop() {
                    proof {
                        assert(open_views(before).len() > 0);
                        assert(open_views(self.open@) =~= open_views(before).drop_last());
                        assert(before.last() == (number, summary, content));
                        assert(open_views(before).last().2 == (match content {
                            Some(content) => Some(content as int),
                            None => None,
                        }));
                    }
                    if let Some(content) = content {
                        let fold = Fold { number, summary, content, end: at };
                        self.ended.push(fold);
                        proof {
                            assert(fold_views(self.ended@) =~= fold_views(done).push(
                                (number as int, summary as int, content as int, at as int),
                            ));
                        }
                    }
                }
            },
            _ => {},
        }
        proof {
            assert(self.seen() =~= old(self).seen().step(place@, at as int));
        }
    }
}

/// How many places blocks hold.
pub open spec fn places_in<X>(blocks: Seq<RenderedBlock<X>>, n: int) -> int
    decreases n,
{
    if n <= 0 {
        0
    } else {
        places_in(blocks, n - 1) + blocks[n - 1].places@.len()
    }
}

/// The `<details>` elements of the preview whose summaries can be clicked.
pub fn folds<X>(shown: &Rendered<X>) -> (found: Vec<Fold>)
    requires
        shown.fits(),
        shown.places_fit(),
        places_in(shown.blocks@, shown.blocks@.len() as int) <= usize::MAX,
    ensures
        fold_views(found@) == all_folds(shown.blocks@, shown.blocks@.len() as int).ended,
{
    let ghost blocks = shown.blocks@;
    let mut finder = Finder { ended: Vec::new(), open: Vec::new(), count: 0 };
    let mut start: usize = 0;
    proof {
        assert(finder.seen() =~= all_folds(blocks, 0));
    }
    for i in 0..shown.blocks.len()
        invariant
            blocks == shown.blocks@,
            shown.fits(),
            shown.places_fit(),
            places_in(blocks, blocks.len() as int) <= usize::MAX,
            start == start_of(blocks, i as int),
            finder.seen() == all_folds(blocks, i as int),
            finder.count <= places_in(blocks, i as int),
    {
        let block = &shown.blocks[i];
        let ghost places = place_views(block.places@);
        let ghost before = finder.seen();
        proof {
            starts_grow(blocks, i + 1, blocks.len() as int);
            places_grow(blocks, i + 1, blocks.len() as int);
        }
        for j in 0..block.places.len()
            invariant
                blocks == shown.blocks@,
                i < blocks.len(),
                block == blocks[i as int],
                places == place_views(block.places@),
                shown.places_fit(),
                start + block.length <= usize::MAX,
                places_in(blocks, i + 1) <= usize::MAX,
                places_in(blocks, i + 1) == places_in(blocks, i as int) + block.places@.len(),
                finder.seen() == folds_in(before, places, start as int, j as int),
                finder.count <= places_in(blocks, i as int) + j,
        {
            proof {
                assert(places[j as int] == (
                    block.places@[j as int].0@,
                    block.places@[j as int].1 as int,
                ));
                assert(shown.blocks@[i as int].places@[j as int].1 <= block.length);
            }
            finder.step(&block.places[j].0, start + block.places[j].1);
        }
        finder.open = Vec::new();
        start = start + block.length;
        proof {
            assert(finder.seen() =~= all_folds(blocks, i + 1));
        }
    }
    finder.ended
}

/// More blocks hold no fewer places.
proof fn places_grow<X>(blocks: Seq<RenderedBlock<X>>, i: int, j: int)
    requires
        0 <= i <= j <= blocks.len(),
    ensures
        0 <= places_in(blocks, i) <= places_in(blocks, j),
    decreases j,
{
    if i < j {
        places_grow(blocks, i, j - 1);
    } else if j > 0 {
        places_grow(blocks, j - 1, j - 1);
    }
}

/// The number of the first element from `n` on whose summary stands at `offset`.
pub open spec fn summary_at(folds: Seq<Fold>, offset: int, n: int) -> Option<usize>
    decreases folds.len() - n,
{
    if n < 0 || n >= folds.len() {
        None
    } else if folds[n].summary <= offset < folds[n].content {
        Some(folds[n].number)
    } else {
        summary_at(folds, offset, n + 1)
    }
}

/// Which element's summary stands at `offset` of the preview, if one does.
pub fn fold_at(folds: &Vec<Fold>, offset: usize) -> (found: Option<usize>)
    ensures
        found == summary_at(folds@, offset as int, 0),
{
    let mut n: usize = 0;
    while n < folds.len()
        invariant
            n <= folds@.len(),
            summary_at(folds@, offset as int, 0) == summary_at(folds@, offset as int, n as int),
        decreases folds.len() - n,
    {
        if folds[n].summary <= offset && offset < folds[n].content {
            return Some(folds[n].number);
        }
        n = n + 1;
    }
    None
}

/// Whether an element is hidden but for its summary.
pub open spec fn is_closed(open: Seq<bool>, fold: Fold) -> bool {
    fold.number < open.len() && !open[fold.number as int]
}

/// What is hidden of the preview: all of the closed elements but their summaries.
pub fn hidden(open: &Vec<bool>, folds: &Vec<Fold>) -> (ranges: Vec<(usize, usize)>)
    ensures
        ranges@ == folds@.filter(|fold: Fold| is_closed(open@, fold)).map_values(
            |fold: Fold| (fold.content, fold.end),
        ),
{
    let mut ranges: Vec<(usize, usize)> = Vec::new();
    let ghost closed = |fold: Fold| is_closed(open@, fold);
    let ghost part = |fold: Fold| (fold.content, fold.end);
    proof {
        reveal(Seq::filter);
    }
    for i in 0..folds.len()
        invariant
            closed == (|fold: Fold| is_closed(open@, fold)),
            part == (|fold: Fold| (fold.content, fold.end)),
            ranges@ == folds@.take(i as int).filter(closed).map_values(part),
    {
        let fold = folds[i];
        proof {
            reveal(Seq::filter);
            assert(folds@.take(i + 1).drop_last() =~= folds@.take(i as int));
        }
        if fold.number < open.len() && !open[fold.number] {
            ranges.push((fold.content, fold.end));
        }
        proof {
            assert(ranges@ =~= folds@.take(i + 1).filter(closed).map_values(part));
        }
    }
    proof {
        assert(folds@.take(folds@.len() as int) =~= folds@);
    }
    ranges
}

/// A `<details>` element folds from the end of its summary to its own end, under the number it has
/// among all of them, whatever is open around it.
pub proof fn details_fold_their_content(
    state: FoldsView,
    open: bool,
    summary: int,
    content: int,
    end: int,
)
    ensures
        ({
            let next = state.step(Place::Details(open), summary).step(Place::Content, content).step(
                Place::DetailsEnd,
                end,
            );
            &&& next.ended == state.ended.push((state.count, summary, content, end))
            &&& next.open == state.open
            &&& next.count == state.count + 1
        }),
{
    let next = state.step(Place::Details(open), summary).step(Place::Content, content).step(
        Place::DetailsEnd,
        end,
    );
    assert(next.open =~= state.open);
}

}
