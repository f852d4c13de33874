//! The cells of the preview's tables: styles and links that start and end in them, always one
//! inside the other.

use crate::html::HtmlStyle;
use crate::preview::{cell_view, Cell, CellPart, CellPartView, Mark};
use vstd::prelude::*;

verus! {

impl Mark {
    /// The mark that ends what a mark starts; an end mark as it is.
    pub open spec fn end(self) -> Mark {
        match self {
            Mark::BoldStart => Mark::BoldEnd,
            Mark::ItalicStart => Mark::ItalicEnd,
            Mark::StrikethroughStart => Mark::StrikethroughEnd,
            Mark::UnderlineStart => Mark::UnderlineEnd,
            Mark::CodeStart => Mark::CodeEnd,
            Mark::SuperscriptStart => Mark::SuperscriptEnd,
            Mark::SubscriptStart => Mark::SubscriptEnd,
            Mark::HighlightStart => Mark::HighlightEnd,
            end => end,
        }
    }

    /// The mark that ends what a mark starts; an end mark as it is.
    pub fn ended(self) -> (end: Mark)
        ensures
            end == self.end(),
    {
        match self {
            Mark::BoldStart => Mark::BoldEnd,
            Mark::ItalicStart => Mark::ItalicEnd,
            Mark::StrikethroughStart => Mark::StrikethroughEnd,
            Mark::UnderlineStart => Mark::UnderlineEnd,
            Mark::CodeStart => Mark::CodeEnd,
            Mark::SuperscriptStart => Mark::SuperscriptEnd,
            Mark::SubscriptStart => Mark::SubscriptEnd,
            Mark::HighlightStart => Mark::HighlightEnd,
            end => end,
        }
    }
}

/// The mark that starts a style that raw HTML gives text.
pub open spec fn mark_of_style(style: HtmlStyle) -> Mark {
    match style {
        HtmlStyle::Bold => Mark::BoldStart,
        HtmlStyle::Italic => Mark::ItalicStart,
        HtmlStyle::Strikethrough => Mark::StrikethroughStart,
        HtmlStyle::Underline => Mark::UnderlineStart,
        HtmlStyle::Code => Mark::CodeStart,
        HtmlStyle::Keyboard => Mark::CodeStart,
        HtmlStyle::Superscript => Mark::SuperscriptStart,
        HtmlStyle::Subscript => Mark::SubscriptStart,
        HtmlStyle::Mark => Mark::HighlightStart,
    }
}

/// The mark that starts a style that raw HTML gives text.
pub fn style_mark(style: HtmlStyle) -> (mark: Mark)
    ensures
        mark == mark_of_style(style),
{
    match style {
        HtmlStyle::Bold => Mark::BoldStart,
        HtmlStyle::Italic => Mark::ItalicStart,
        HtmlStyle::Strikethrough => Mark::StrikethroughStart,
        HtmlStyle::Underline => Mark::UnderlineStart,
        HtmlStyle::Code => Mark::CodeStart,
        HtmlStyle::Keyboard => Mark::CodeStart,
        HtmlStyle::Superscript => Mark::SuperscriptStart,
        HtmlStyle::Subscript => Mark::SubscriptStart,
        HtmlStyle::Mark => Mark::HighlightStart,
    }
}

/// The mark that ends what a piece of a cell starts.
pub open spec fn end_of(part: CellPartView) -> Mark {
    match part {
        CellPart::Mark(mark) => mark.end(),
        _ => Mark::LinkEnd,
    }
}

/// The end marks of what is open in a cell beyond the first `from`, the innermost first.
pub open spec fn ends_of(open: Seq<CellPartView>, from: int) -> Seq<CellPartView>
    decreases open.len(),
{
    if open.len() <= from || open.len() == 0 {
        Seq::empty()
    } else {
        seq![CellPart::Mark(end_of(open.last()))] + ends_of(open.drop_last(), from)
    }
}

/// The innermost of what is open in a cell that a mark ends, by its number; -1 if it ends none.
pub open spec fn ended_by(open: Seq<CellPartView>, end: Mark) -> int
    decreases open.len(),
{
    if open.len() == 0 {
        -1
    } else if end_of(open.last()) == end {
        open.len() - 1
    } else {
        ended_by(open.drop_last(), end)
    }
}

/// A cell and what is open in it once a mark has ended the innermost that it ends. What was
/// opened inside that ends with it and starts again after it.
pub open spec fn closed(cell: Seq<CellPartView>, open: Seq<CellPartView>, end: Mark) -> (
    Seq<CellPartView>,
    Seq<CellPartView>,
) {
    let k = ended_by(open, end);
    if k < 0 {
        (cell, open)
    } else {
        (cell + ends_of(open, k) + open.skip(k + 1), open.take(k) + open.skip(k + 1))
    }
}

/// A cell with pieces that nothing open reaches: it ends before them and starts again after them.
pub open spec fn set_apart(
    cell: Seq<CellPartView>,
    open: Seq<CellPartView>,
    parts: Seq<CellPartView>,
) -> Seq<CellPartView> {
    cell + ends_of(open, 0) + parts + open
}

/// A mark ends one of what is open, or none.
pub proof fn ended_is_open(open: Seq<CellPartView>, end: Mark)
    ensures
        -1 <= ended_by(open, end) < open.len(),
        ended_by(open, end) >= 0 ==> end_of(open[ended_by(open, end)]) == end,
    decreases open.len(),
{
    if open.len() > 0 && end_of(open.last()) != end {
        ended_is_open(open.drop_last(), end);
    }
}

/// A copy of a piece of a cell.
pub fn copy_cell_part(part: &CellPart<String>) -> (copy: CellPart<String>)
    ensures
        copy@ == part@,
{
    match part {
        CellPart::Mark(mark) => CellPart::Mark(*mark),
        CellPart::LinkStart(url) => CellPart::LinkStart(url.clone()),
        CellPart::Code(text) => CellPart::Code(text.clone()),
        CellPart::Text(text) => CellPart::Text(text.clone()),
        CellPart::Math { event } => CellPart::Math { event: *event },
    }
}

/// Add copies of the pieces from `from` on to a cell.
pub fn push_copies(cell: &mut Cell, parts: &Cell, from: usize)
    requires
        from <= parts@.len(),
    ensures
        cell_view(final(cell)@) == cell_view(old(cell)@) + cell_view(parts@).skip(from as int),
{
    let ghost first = cell_view(cell@);
    let ghost all = cell_view(parts@);
    proof {
        assert(first + all.subrange(from as int, from as int) =~= first);
    }
    for i in from..parts.len()
        invariant
            from <= parts@.len(),
            all == cell_view(parts@),
            cell_view(cell@) == first + all.subrange(from as int, i as int),
    {
        let ghost before = cell@;
        let part = copy_cell_part(&parts[i]);
        proof {
            assert(all[i as int] == part@);
            assert(cell_view(before.push(part)) =~= cell_view(before).push(part@));
            assert(first + all.subrange(from as int, i + 1) =~= (first + all.subrange(
                from as int,
                i as int,
            )).push(part@));
        }
        cell.push(part);
    }
    proof {
        assert(all.subrange(from as int, all.len() as int) =~= all.skip(from as int));
    }
}

/// The mark that ends what a piece of a cell starts.
fn part_end(part: &CellPart<String>) -> (end: Mark)
    ensures
        end == end_of(part@),
{
    match part {
        CellPart::Mark(mark) => mark.ended(),
        _ => Mark::LinkEnd,
    }
}

/// Add the end marks of what is open in a cell beyond the first `from`, the innermost first.
pub fn push_ends(cell: &mut Cell, open: &Cell, from: usize)
    ensures
        cell_view(final(cell)@) == cell_view(old(cell)@) + ends_of(
            cell_view(open@),
            from as int,
        ),
{
    let ghost first = cell_view(cell@);
    let ghost all = cell_view(open@);
    let mut i: usize = open.len();
    proof {
        assert(all.take(all.len() as int) =~= all);
    }
    while i > from
        invariant
            all == cell_view(open@),
            i <= open@.len(),
            first + ends_of(all, from as int) == cell_view(cell@) + ends_of(
                all.take(i as int),
                from as int,
            ),
        decreases i,
    {
        let ghost before = cell@;
        i = i - 1;
        let part: CellPart<String> = CellPart::Mark(part_end(&open[i]));
        proof {
            assert(all.take(i + 1).drop_last() =~= all.take(i as int));
            assert(all.take(i + 1).last() == open@[i as int]@);
            assert(cell_view(before.push(part)) =~= cell_view(before).push(part@));
            let rest = ends_of(all.take(i as int), from as int);
            assert(cell_view(before) + (seq![part@] + rest) =~= cell_view(before).push(part@)
                + rest);
        }
        cell.push(part);
    }
    proof {
        assert(cell_view(cell@) + Seq::<CellPartView>::empty() =~= cell_view(cell@));
    }
}

/// The innermost of what is open in a cell that a mark ends.
pub fn find_open(open: &Cell, end: Mark) -> (found: Option<usize>)
    ensures
        match found {
            Some(k) => ended_by(cell_view(open@), end) == k,
            None => ended_by(cell_view(open@), end) == -1,
        },
{
    let ghost all = cell_view(open@);
    let mut i: usize = open.len();
    proof {
        assert(all.take(all.len() as int) =~= all);
    }
    while i > 0
        invariant
            all == cell_view(open@),
            i <= open@.len(),
            ended_by(all, end) == ended_by(all.take(i as int), end),
        decreases i,
    {
        i = i - 1;
        proof {
            assert(all.take(i + 1).drop_last() =~= all.take(i as int));
            assert(all.take(i + 1).last() == open@[i as int]@);
        }
        if part_end(&open[i]) == end {
            return Some(i);
        }
    }
    None
}

/// End the innermost of what is open in a cell that a mark ends. What was opened inside that
/// ends with it and starts again after it.
pub fn close_part(cell: &mut Cell, open: &mut Cell, end: Mark)
    ensures
        (cell_view(final(cell)@), cell_view(final(open)@)) == closed(
            cell_view(old(cell)@),
            cell_view(old(open)@),
            end,
        ),
{
    let ghost all = cell_view(open@);
    proof {
        ended_is_open(all, end);
    }
    if let Some(k) = find_open(open, end) {
        assert(k < open.len());
        push_ends(cell, open, k);
        push_copies(cell, open, k + 1);
        let ghost before = open@;
        open.remove(k);
        proof {
            assert(cell_view(before.remove(k as int)) =~= all.take(k as int) + all.skip(k + 1));
        }
    }
}

/// What is open in a cell after pieces of it, from what is open before them; `None` if a mark
/// ends what is not the innermost.
pub open spec fn nested(open: Seq<CellPartView>, parts: Seq<CellPartView>) -> Option<
    Seq<CellPartView>,
>
    decreases parts.len(),
{
    if parts.len() == 0 {
        Some(open)
    } else {
        match (nested(open, parts.drop_last()), parts.last()) {
            (None, _) => None,
            (Some(inner), CellPart::LinkStart(_)) => Some(inner.push(parts.last())),
            (Some(inner), CellPart::Mark(mark)) => if mark.end() != mark {
                Some(inner.push(parts.last()))
            } else if inner.len() > 0 && end_of(inner.last()) == mark {
                Some(inner.drop_last())
            } else {
                None
            },
            (Some(inner), CellPart::Math { .. }) => if inner.len() == 0 {
                Some(inner)
            } else {
                None
            },
            (Some(inner), _) => Some(inner),
        }
    }
}

/// Whether a piece of a cell starts a style or a link.
pub open spec fn is_start(part: CellPartView) -> bool {
    match part {
        CellPart::LinkStart(_) => true,
        CellPart::Mark(mark) => mark.end() != mark,
        _ => false,
    }
}

/// Pieces of a cell one after the other.
pub proof fn nested_adds(open: Seq<CellPartView>, a: Seq<CellPartView>, b: Seq<CellPartView>)
    ensures
        nested(open, a + b) == match nested(open, a) {
            Some(inner) => nested(inner, b),
            None => None,
        },
    decreases b.len(),
{
    if b.len() == 0 {
        assert(a + b =~= a);
    } else {
        nested_adds(open, a, b.drop_last());
        assert((a + b).drop_last() =~= a + b.drop_last());
        assert((a + b).last() == b.last());
    }
}

/// Starts open what they start.
pub proof fn starts_open(open: Seq<CellPartView>, starts: Seq<CellPartView>)
    requires
        forall|i: int| 0 <= i < starts.len() ==> is_start(#[trigger] starts[i]),
    ensures
        nested(open, starts) == Some(open + starts),
    decreases starts.len(),
{
    if starts.len() == 0 {
        assert(open + starts =~= open);
    } else {
        assert forall|i: int| 0 <= i < starts.len() - 1 implies is_start(
            #[trigger] starts.drop_last()[i],
        ) by {
            assert(is_start(starts[i]));
        }
        starts_open(open, starts.drop_last());
        assert(is_start(starts[starts.len() - 1]));
        assert((open + starts.drop_last()).push(starts.last()) =~= open + starts);
    }
}

/// End marks end what is open down to where they stop.
pub proof fn ends_close(open: Seq<CellPartView>, from: int)
    requires
        0 <= from <= open.len(),
        forall|i: int| 0 <= i < open.len() ==> is_start(#[trigger] open[i]),
    ensures
        nested(open, ends_of(open, from)) == Some(open.take(from)),
    decreases open.len(),
{
    if open.len() <= from {
        assert(open.take(from) =~= open);
    } else {
        let rest = open.drop_last();
        assert forall|i: int| 0 <= i < rest.len() implies is_start(#[trigger] rest[i]) by {
            assert(is_start(open[i]));
        }
        ends_close(rest, from);
        let end: CellPartView = CellPart::Mark(end_of(open.last()));
        assert(is_start(open[open.len() - 1]));
        assert(nested(open, seq![end]) == Some(rest)) by {
            reveal_with_fuel(nested, 2);
            assert(seq![end].drop_last() =~= Seq::<CellPartView>::empty());
            assert(seq![end].last() == end);
        }
        nested_adds(open, seq![end], ends_of(rest, from));
        assert(rest.take(from) =~= open.take(from));
    }
}

/// Whether a cell keeps to what is open in it: its styles and links stand one inside the other.
pub open spec fn keeps_to(cell: Seq<CellPartView>, open: Seq<CellPartView>) -> bool {
    &&& nested(Seq::empty(), cell) == Some(open)
    &&& forall|i: int| 0 <= i < open.len() ==> is_start(#[trigger] open[i])
}

/// Ending a style or a link keeps the rest one inside the other.
pub proof fn closed_keeps(cell: Seq<CellPartView>, open: Seq<CellPartView>, end: Mark)
    requires
        keeps_to(cell, open),
    ensures
        keeps_to(closed(cell, open, end).0, closed(cell, open, end).1),
{
    let k = ended_by(open, end);
    ended_is_open(open, end);
    if k >= 0 {
        let again = open.skip(k + 1);
        assert forall|i: int| 0 <= i < again.len() implies is_start(#[trigger] again[i]) by {
            assert(is_start(open[k + 1 + i]));
        }
        ends_close(open, k);
        nested_adds(Seq::empty(), cell, ends_of(open, k));
        starts_open(open.take(k), again);
        nested_adds(Seq::empty(), cell + ends_of(open, k), again);
        let left = open.take(k) + again;
        assert forall|i: int| 0 <= i < left.len() implies is_start(#[trigger] left[i]) by {
            if i < k {
                assert(is_start(open[i]));
            } else {
                assert(is_start(again[i - k]));
            }
        }
    }
}

/// Pieces that nothing open reaches keep the rest one inside the other.
pub proof fn apart_keeps(
    cell: Seq<CellPartView>,
    open: Seq<CellPartView>,
    parts: Seq<CellPartView>,
)
    requires
        keeps_to(cell, open),
        nested(Seq::empty(), parts) == Some(Seq::<CellPartView>::empty()),
    ensures
        keeps_to(set_apart(cell, open, parts), open),
{
    let none = Seq::<CellPartView>::empty();
    ends_close(open, 0);
    assert(open.take(0) =~= none);
    nested_adds(none, cell, ends_of(open, 0));
    nested_adds(none, cell + ends_of(open, 0), parts);
    starts_open(none, open);
    assert(none + open =~= open);
    nested_adds(none, cell + ends_of(open, 0) + parts, open);
}

/// A cell that ends ends all that is open in it.
pub proof fn ended_cell_is_nested(cell: Seq<CellPartView>, open: Seq<CellPartView>)
    requires
        keeps_to(cell, open),
    ensures
        nested(Seq::empty(), cell + ends_of(open, 0)) == Some(Seq::<CellPartView>::empty()),
{
    ends_close(open, 0);
    assert(open.take(0) =~= Seq::<CellPartView>::empty());
    nested_adds(Seq::empty(), cell, ends_of(open, 0));
}

} // verus!
