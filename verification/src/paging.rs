//! Where the pages of a PDF end inside a block.

use crate::pdf::{Paragraph, ParagraphView};
use crate::table::{align_of, CellAlign};
use pulldown_cmark::Alignment;
use vstd::prelude::*;

verus! {

/// What is done next of setting lines.
#[derive(Clone, Copy, Debug, PartialEq, Eq, Structural)]
pub enum LineStep {
    /// A new page is started.
    TurnPage,
    /// The lines from `start` up to `end` are set on this page.
    Lines { start: usize, end: usize },
    /// All lines are set.
    Done,
}

/// How far the lines from `end` on still fit.
pub open spec fn fitting(fits: Seq<bool>, end: int) -> int
    decreases fits.len() - end,
{
    if 0 <= end < fits.len() && fits[end] {
        fitting(fits, end + 1)
    } else {
        end
    }
}

/// What is done next when the lines before `start` are set. `fits` tells of each line whether
/// what is left of the page has room from the top of line `start` to its bottom.
pub open spec fn line_step_of(start: int, fits: Seq<bool>, at_top: bool) -> LineStep {
    if start >= fits.len() {
        LineStep::Done
    } else if !fits[start] && !at_top {
        LineStep::TurnPage
    } else {
        LineStep::Lines { start: start as usize, end: fitting(fits, start + 1) as usize }
    }
}

/// A run of fitting lines ends among the lines.
proof fn fitting_ends(fits: Seq<bool>, end: int)
    requires
        0 <= end <= fits.len(),
    ensures
        end <= fitting(fits, end) <= fits.len(),
    decreases fits.len() - end,
{
    if end < fits.len() && fits[end] {
        fitting_ends(fits, end + 1);
    }
}

/// What is done next when the lines before `start` are set: the lines that fit on this page, at
/// least one, are set on it, and the page is turned before a line that does not fit.
pub fn line_step(start: usize, fits: &Vec<bool>, at_top: bool) -> (step: LineStep)
    ensures
        step == line_step_of(start as int, fits@, at_top),
{
    if start >= fits.len() {
        return LineStep::Done;
    }
    if !fits[start] && !at_top {
        return LineStep::TurnPage;
    }
    let mut end: usize = start + 1;
    proof {
        fitting_ends(fits@, end as int);
    }
    while end < fits.len() && fits[end]
        invariant
            start < end <= fits.len(),
            fitting(fits@, end as int) == fitting(fits@, start + 1),
        decreases fits.len() - end,
    {
        end = end + 1;
    }
    LineStep::Lines { start, end }
}

/// At the top of a page some line is always set, and no line is set twice or passed over.
pub proof fn lines_are_set_in_turn(start: int, fits: Seq<bool>, at_top: bool)
    requires
        0 <= start,
        fits.len() <= usize::MAX,
    ensures
        match line_step_of(start, fits, at_top) {
            LineStep::Lines { start: from, end } => from == start && start < end <= fits.len() && (
            forall|i: int| start < i < end ==> #[trigger] fits[i]) && (end < fits.len()
                ==> !fits[end as int]),
            LineStep::TurnPage => !at_top && start < fits.len() && !fits[start],
            LineStep::Done => start >= fits.len(),
        },
{
    if start < fits.len() {
        fitting_ends(fits, start + 1);
        run_fits(fits, start + 1);
    }
}

/// Every line of a run of fitting lines fits, and the one after it does not.
proof fn run_fits(fits: Seq<bool>, end: int)
    requires
        0 <= end <= fits.len(),
    ensures
        forall|i: int| end <= i < fitting(fits, end) ==> #[trigger] fits[i],
        fitting(fits, end) < fits.len() ==> !fits[fitting(fits, end)],
    decreases fits.len() - end,
{
    if end < fits.len() && fits[end] {
        run_fits(fits, end + 1);
    }
}

/// What is set of the part of a table that is on a page.
#[derive(Clone, Copy, Debug, PartialEq, Eq, Structural)]
pub enum TablePart {
    Nothing,
    /// Only the header, again.
    Header,
    Rows,
}

/// A table being set: how many of its rows are set, and what is on the page.
#[derive(Clone, Copy, Debug, PartialEq, Eq, Structural)]
pub struct TablePages {
    pub row: usize,
    pub rows: usize,
    pub part: TablePart,
    /// Whether the part starts at the top of the page.
    pub at_top: bool,
}

/// What is done next of setting a table.
#[derive(Clone, Copy, Debug, PartialEq, Eq, Structural)]
pub enum TableStep {
    /// The header is set again.
    RepeatHeader,
    /// A row is set.
    Row(usize),
    /// The part is framed and a new page is started.
    TurnPage,
    /// The part is framed, and all rows are set.
    Done,
}

impl TablePages {
    /// A table of which nothing is set.
    pub fn new(rows: usize, at_top: bool) -> (pages: TablePages)
        ensures
            pages == (TablePages { row: 0, rows, part: TablePart::Nothing, at_top }),
    {
        TablePages { row: 0, rows, part: TablePart::Nothing, at_top }
    }

    /// What is done next, if the next row fits on the page or not: a part at the top of a page
    /// starts with the header, and a page ends before a row that does not fit below others.
    pub open spec fn next(self, fits: bool) -> TableStep {
        if self.row >= self.rows {
            TableStep::Done
        } else if self.part == TablePart::Nothing && self.row > 0 && self.at_top {
            TableStep::RepeatHeader
        } else if self.part == TablePart::Rows && !fits {
            TableStep::TurnPage
        } else {
            TableStep::Row(self.row)
        }
    }

    /// The table once a step is done.
    pub open spec fn after(self, step: TableStep) -> TablePages {
        match step {
            TableStep::RepeatHeader => TablePages { part: TablePart::Header, ..self },
            TableStep::Row(_) => TablePages {
                row: (self.row + 1) as usize,
                part: TablePart::Rows,
                ..self
            },
            TableStep::TurnPage => TablePages {
                part: TablePart::Nothing,
                at_top: true,
                ..self
            },
            TableStep::Done => self,
        }
    }

    /// Decide what is done next, if the next row fits on the page or not.
    pub fn step(&mut self, fits: bool) -> (step: TableStep)
        ensures
            step == old(self).next(fits),
            *final(self) == old(self).after(step),
    {
        if self.row >= self.rows {
            TableStep::Done
        } else if self.part == TablePart::Nothing && self.row > 0 && self.at_top {
            self.part = TablePart::Header;
            TableStep::RepeatHeader
        } else if self.part == TablePart::Rows && !fits {
            self.part = TablePart::Nothing;
            self.at_top = true;
            TableStep::TurnPage
        } else {
            let row = self.row;
            self.row = row + 1;
            self.part = TablePart::Rows;
            TableStep::Row(row)
        }
    }

    /// How many steps a table takes at most.
    pub open spec fn steps_left(self) -> int {
        3 * (self.rows - self.row) + match self.part {
            TablePart::Nothing => 1int,
            TablePart::Header => 0int,
            TablePart::Rows => 2int,
        }
    }
}

/// The steps that a table takes, if `fits` tells of each whether the next row fits on the page.
pub open spec fn table_steps(pages: TablePages, fits: spec_fn(int) -> bool, n: int) -> Seq<
    TableStep,
>
    decreases n,
{
    if n <= 0 {
        Seq::empty()
    } else {
        let step = pages.next(fits(n));
        seq![step] + table_steps(pages.after(step), fits, n - 1)
    }
}

/// The rows that some steps set.
pub open spec fn rows_set(steps: Seq<TableStep>) -> Seq<int>
    decreases steps.len(),
{
    if steps.len() == 0 {
        Seq::empty()
    } else {
        match steps[0] {
            TableStep::Row(row) => seq![row as int] + rows_set(steps.skip(1)),
            _ => rows_set(steps.skip(1)),
        }
    }
}

/// A table is set in at most so many steps whichever rows fit, and every row of it is set once,
/// in order.
pub proof fn every_row_is_set_once(pages: TablePages, fits: spec_fn(int) -> bool, n: int)
    requires
        pages.row <= pages.rows,
        n >= pages.steps_left(),
    ensures
        rows_set(table_steps(pages, fits, n)) == Seq::new(
            (pages.rows - pages.row) as nat,
            |i: int| pages.row + i,
        ),
    decreases n,
{
    let whole = Seq::new((pages.rows - pages.row) as nat, |i: int| pages.row + i);
    if n <= 0 {
        assert(whole =~= Seq::<int>::empty());
    } else {
        let step = pages.next(fits(n));
        let next = pages.after(step);
        let rest = table_steps(next, fits, n - 1);
        assert((seq![step] + rest).skip(1) =~= rest);
        if pages.row >= pages.rows {
            done_sets_nothing(pages, fits, n);
            assert(whole =~= Seq::<int>::empty());
        } else {
            every_row_is_set_once(next, fits, n - 1);
            let later = Seq::new((next.rows - next.row) as nat, |i: int| next.row + i);
            match step {
                TableStep::Row(row) => {
                    assert(seq![row as int] + later =~= whole);
                },
                _ => {
                    assert(later =~= whole);
                },
            }
        }
    }
}

/// A table whose rows are all set sets no more.
proof fn done_sets_nothing(pages: TablePages, fits: spec_fn(int) -> bool, n: int)
    requires
        pages.row >= pages.rows,
    ensures
        rows_set(table_steps(pages, fits, n)) == Seq::<int>::empty(),
    decreases n,
{
    if n > 0 {
        done_sets_nothing(pages, fits, n - 1);
        assert((seq![TableStep::Done] + table_steps(pages, fits, n - 1)).skip(1) =~= table_steps(
            pages,
            fits,
            n - 1,
        ));
    }
}

/// How many columns the widest of some rows has.
pub open spec fn widest(rows: Seq<Seq<ParagraphView>>) -> int
    decreases rows.len(),
{
    if rows.len() == 0 {
        0
    } else {
        let before = widest(rows.drop_last());
        if rows.last().len() > before {
            rows.last().len() as int
        } else {
            before
        }
    }
}

/// How many columns a table has: those of its widest row.
pub fn columns(rows: &Vec<Vec<Paragraph>>) -> (columns: usize)
    ensures
        columns == widest(crate::pdf::rows_view(rows@)),
{
    let ghost all = crate::pdf::rows_view(rows@);
    let mut columns: usize = 0;
    for i in 0..rows.len()
        invariant
            all == crate::pdf::rows_view(rows@),
            columns == widest(all.take(i as int)),
    {
        proof {
            assert(all.take(i + 1).drop_last() =~= all.take(i as int));
            assert(all.take(i + 1).last().len() == rows@[i as int]@.len());
        }
        if rows[i].len() > columns {
            columns = rows[i].len();
        }
    }
    proof {
        assert(all.take(all.len() as int) =~= all);
    }
    columns
}

/// Where the text of the cells of a column is set.
pub fn cell_align(alignments: &Vec<Alignment>, column: usize) -> (align: CellAlign)
    ensures
        align == align_of(alignments@, column as int),
{
    if column < alignments.len() {
        match alignments[column] {
            Alignment::Right => CellAlign::End,
            Alignment::Center => CellAlign::Center,
            _ => CellAlign::Start,
        }
    } else {
        CellAlign::Start
    }
}

/// The page is turned exactly before a line that does not fit below others, and a line at the top
/// of a page is set whether it fits or not.
pub proof fn pages_are_turned_before_lines_that_do_not_fit(
    start: int,
    fits: Seq<bool>,
    at_top: bool,
)
    requires
        0 <= start < fits.len() <= usize::MAX,
    ensures
        line_step_of(start, fits, at_top) is TurnPage <==> !fits[start] && !at_top,
        line_step_of(start, fits, true) is Lines,
{
}

/// A page is turned exactly before a row that does not fit below others of its page; a part of a
/// table that starts a page, and is not the first, starts with the header, and then goes on with
/// the row that did not fit.
pub proof fn tables_go_on_under_their_header(pages: TablePages, fits: bool)
    requires
        pages.row < pages.rows,
    ensures
        pages.next(fits) is TurnPage <==> pages.part == TablePart::Rows && !fits,
        pages.part == TablePart::Rows && fits ==> pages.next(fits) == TableStep::Row(pages.row),
        pages.row > 0 && pages.next(fits) is TurnPage ==> {
            let turned = pages.after(TableStep::TurnPage);
            let headed = turned.after(TableStep::RepeatHeader);
            &&& turned.next(fits) is RepeatHeader
            &&& headed.next(fits) == TableStep::Row(pages.row)
        },
{
}

/// A table has as many columns as its widest row: no row has more, and one has as many if there
/// are any.
pub proof fn tables_are_as_wide_as_their_widest_row(rows: Seq<Seq<ParagraphView>>)
    ensures
        forall|i: int| 0 <= i < rows.len() ==> (#[trigger] rows[i]).len() <= widest(rows),
        widest(rows) > 0 ==> exists|i: int|
            0 <= i < rows.len() && (#[trigger] rows[i]).len() == widest(rows),
        widest(rows) >= 0,
    decreases rows.len(),
{
    if rows.len() > 0 {
        let before = rows.drop_last();
        tables_are_as_wide_as_their_widest_row(before);
        assert forall|i: int| 0 <= i < rows.len() implies (#[trigger] rows[i]).len() <= widest(
            rows,
        ) by {
            if i < before.len() {
                assert(before[i].len() <= widest(before));
            }
        }
        if widest(rows) > 0 {
            if rows.last().len() > widest(before) {
                assert(rows[rows.len() - 1].len() == widest(rows));
            } else {
                let i = choose|i: int|
                    0 <= i < before.len() && (#[trigger] before[i]).len() == widest(before);
                assert(rows[i].len() == widest(rows));
            }
        }
    }
}

}
