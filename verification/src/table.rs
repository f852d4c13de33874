//! The tables of the preview: the markup of their cells, and where the cells and the lines
//! between them stand.

use crate::cell::copy_cell_part;
use crate::html::HtmlStyle;
use crate::preview::{cell_view, Cell, CellPart, CellPartView, Mark, CELL_WRAP_CHARS};
use crate::text::{chars_of, texts};
use pulldown_cmark::Alignment;
use vstd::prelude::*;
use vstd::string::*;

verus! {

impl Mark {
    /// The markup of a mark.
    pub open spec fn markup_of(self) -> Seq<char> {
        match self {
            Mark::BoldStart => "<b>"@,
            Mark::BoldEnd => "</b>"@,
            Mark::ItalicStart => "<i>"@,
            Mark::ItalicEnd => "</i>"@,
            Mark::StrikethroughStart => "<s>"@,
            Mark::StrikethroughEnd => "</s>"@,
            Mark::UnderlineStart => "<u>"@,
            Mark::UnderlineEnd => "</u>"@,
            Mark::CodeStart => "<tt>"@,
            Mark::CodeEnd => "</tt>"@,
            Mark::SuperscriptStart => "<sup>"@,
            Mark::SuperscriptEnd => "</sup>"@,
            Mark::SubscriptStart => "<sub>"@,
            Mark::SubscriptEnd => "</sub>"@,
            Mark::HighlightStart => "<span background=\"#e5a50a\" bgalpha=\"40%\">"@,
            Mark::HighlightEnd => "</span>"@,
            Mark::LinkEnd => "</a>"@,
        }
    }

    /// The markup of a mark.
    pub fn markup(self) -> (text: &'static str)
        ensures
            text@ == self.markup_of(),
    {
        match self {
            Mark::BoldStart => "<b>",
            Mark::BoldEnd => "</b>",
            Mark::ItalicStart => "<i>",
            Mark::ItalicEnd => "</i>",
            Mark::StrikethroughStart => "<s>",
            Mark::StrikethroughEnd => "</s>",
            Mark::UnderlineStart => "<u>",
            Mark::UnderlineEnd => "</u>",
            Mark::CodeStart => "<tt>",
            Mark::CodeEnd => "</tt>",
            Mark::SuperscriptStart => "<sup>",
            Mark::SuperscriptEnd => "</sup>",
            Mark::SubscriptStart => "<sub>",
            Mark::SubscriptEnd => "</sub>",
            Mark::HighlightStart => "<span background=\"#e5a50a\" bgalpha=\"40%\">",
            Mark::HighlightEnd => "</span>",
            Mark::LinkEnd => "</a>",
        }
    }
}

/// The texts of a cell that its markup holds escaped: addresses of links, code and text.
pub open spec fn texts_of(cell: Seq<CellPartView>) -> Seq<Seq<char>>
    decreases cell.len(),
{
    if cell.len() == 0 {
        Seq::empty()
    } else {
        let before = texts_of(cell.drop_last());
        match cell.last() {
            CellPart::Mark(_) => before,
            CellPart::LinkStart(url) => before.push(url),
            CellPart::Code(text) => before.push(text),
            CellPart::Text(text) => before.push(text),
            CellPart::Math { .. } => before,
        }
    }
}

/// The markup of a cell whose texts are escaped as `escaped`.
pub open spec fn markup_with(cell: Seq<CellPartView>, escaped: Seq<Seq<char>>) -> Seq<char>
    decreases cell.len(),
{
    if cell.len() == 0 {
        Seq::empty()
    } else {
        let rest = cell.drop_last();
        let before = markup_with(rest, escaped);
        let text = escaped[texts_of(rest).len() as int];
        match cell.last() {
            CellPart::Mark(mark) => before + mark.markup_of(),
            CellPart::LinkStart(_) => before + ("<a href=\""@ + text + "\">"@),
            CellPart::Code(_) => before + ("<tt>"@ + text + "</tt>"@),
            CellPart::Text(_) => before + text,
            CellPart::Math { .. } => before,
        }
    }
}

/// The texts of a cell that its markup holds escaped: addresses of links, code and text.
pub fn cell_texts(cell: &Cell) -> (list: Vec<String>)
    ensures
        texts(list@) == texts_of(cell_view(cell@)),
{
    let ghost all = cell_view(cell@);
    let mut list: Vec<String> = Vec::new();
    proof {
        assert(texts(list@) =~= texts_of(all.take(0)));
    }
    for i in 0..cell.len()
        invariant
            all == cell_view(cell@),
            texts(list@) == texts_of(all.take(i as int)),
    {
        proof {
            assert(all.take(i + 1).drop_last() =~= all.take(i as int));
            assert(all[i as int] == cell@[i as int]@);
        }
        let ghost before = list@;
        match &cell[i] {
            CellPart::Mark(_) => {},
            CellPart::LinkStart(text) => {
                list.push(text.clone());
            },
            CellPart::Code(text) => {
                list.push(text.clone());
            },
            CellPart::Text(text) => {
                list.push(text.clone());
            },
            CellPart::Math { .. } => {},
        }
        proof {
            if list@.len() > before.len() {
                assert(texts(list@) =~= texts(before).push(list@.last()@));
            }
        }
    }
    proof {
        assert(all.take(all.len() as int) =~= all);
    }
    list
}

/// The markup of a cell, whose texts, as [`cell_texts`] gives them, are escaped as `escaped`.
pub fn cell_markup(cell: &Cell, escaped: &Vec<String>) -> (markup: String)
    requires
        escaped@.len() == texts_of(cell_view(cell@)).len(),
    ensures
        markup@ == markup_with(cell_view(cell@), texts(escaped@)),
{
    let ghost all = cell_view(cell@);
    let mut markup = String::new();
    let mut used: usize = 0;
    for i in 0..cell.len()
        invariant
            all == cell_view(cell@),
            escaped.len() == texts_of(all).len(),
            used == texts_of(all.take(i as int)).len(),
            markup@ == markup_with(all.take(i as int), texts(escaped@)),
    {
        proof {
            assert(all.take(i + 1).drop_last() =~= all.take(i as int));
            assert(all[i as int] == cell@[i as int]@);
            texts_grow(all, i + 1);
            texts_grow(all, i as int);
            if used < escaped@.len() {
                assert(texts(escaped@)[used as int] == escaped@[used as int]@);
            }
        }
        let ghost before = markup@;
        match &cell[i] {
            CellPart::Mark(mark) => {
                markup.append(mark.markup());
            },
            CellPart::LinkStart(_) => {
                markup.append("<a href=\"");
                markup.append(escaped[used].as_str());
                markup.append("\">");
                proof {
                    assert(markup@ =~= before + ("<a href=\""@ + escaped@[used as int]@ + "\">"@));
                }
                used += 1;
            },
            CellPart::Code(_) => {
                markup.append("<tt>");
                markup.append(escaped[used].as_str());
                markup.append("</tt>");
                proof {
                    assert(markup@ =~= before + ("<tt>"@ + escaped@[used as int]@ + "</tt>"@));
                }
                used += 1;
            },
            CellPart::Text(_) => {
                markup.append(escaped[used].as_str());
                used += 1;
            },
            CellPart::Math { .. } => {},
        }
    }
    proof {
        assert(all.take(all.len() as int) =~= all);
    }
    markup
}

/// The start of a cell holds no more texts than the whole.
proof fn texts_grow(cell: Seq<CellPartView>, n: int)
    requires
        0 <= n <= cell.len(),
    ensures
        texts_of(cell.take(n)).len() <= texts_of(cell).len(),
    decreases cell.len() - n,
{
    if n == cell.len() {
        assert(cell.take(n) =~= cell);
    } else {
        texts_grow(cell, n + 1);
        assert(cell.take(n + 1).drop_last() =~= cell.take(n));
    }
}

/// How many characters of a cell show.
pub open spec fn shown_chars(cell: Seq<CellPartView>) -> int
    decreases cell.len(),
{
    if cell.len() == 0 {
        0
    } else {
        shown_chars(cell.drop_last()) + match cell.last() {
            CellPart::Code(text) => text.len() as int,
            CellPart::Text(text) => text.len() as int,
            _ => 0,
        }
    }
}

/// The width of a cell in characters: that of its text, up to the width at which text wraps.
/// So short cells never wrap and long ones wrap at that width.
pub fn cell_width(cell: &Cell) -> (width: usize)
    ensures
        width == (if shown_chars(cell_view(cell@)) < CELL_WRAP_CHARS {
            shown_chars(cell_view(cell@))
        } else {
            CELL_WRAP_CHARS as int
        }),
{
    let ghost all = cell_view(cell@);
    let mut width: usize = 0;
    for i in 0..cell.len()
        invariant
            all == cell_view(cell@),
            width == (if shown_chars(all.take(i as int)) < CELL_WRAP_CHARS {
                shown_chars(all.take(i as int))
            } else {
                CELL_WRAP_CHARS as int
            }),
            0 <= shown_chars(all.take(i as int)),
    {
        proof {
            assert(all.take(i + 1).drop_last() =~= all.take(i as int));
            assert(all[i as int] == cell@[i as int]@);
        }
        let more = match &cell[i] {
            CellPart::Code(text) => chars_of(text.as_str()).len(),
            CellPart::Text(text) => chars_of(text.as_str()).len(),
            _ => 0,
        };
        if more >= CELL_WRAP_CHARS - width {
            width = CELL_WRAP_CHARS;
        } else {
            width = width + more;
        }
    }
    proof {
        assert(all.take(all.len() as int) =~= all);
    }
    width
}

/// A stretch of a table cell, over a type of cell `C`: one that is shown as markup, or the
/// formula at an event of the document.
#[derive(Debug, PartialEq)]
pub enum CellRun<C> {
    Text(C),
    Math { event: usize },
}

impl View for CellRun<Cell> {
    type V = CellRun<Seq<CellPartView>>;

    open spec fn view(&self) -> CellRun<Seq<CellPartView>> {
        match *self {
            CellRun::Text(cell) => CellRun::Text(cell_view(cell@)),
            CellRun::Math { event } => CellRun::Math { event },
        }
    }
}

/// The stretches of a cell but the last, and the last one, which is shown as markup.
pub open spec fn runs_of(cell: Seq<CellPartView>) -> (
    Seq<CellRun<Seq<CellPartView>>>,
    Seq<CellPartView>,
)
    decreases cell.len(),
{
    if cell.len() == 0 {
        (Seq::empty(), Seq::empty())
    } else {
        let (runs, last) = runs_of(cell.drop_last());
        match cell.last() {
            CellPart::Math { event } => (
                runs.push(CellRun::Text(last)).push(CellRun::Math { event }),
                Seq::empty(),
            ),
            part => (runs, last.push(part)),
        }
    }
}

/// Stretches of cells as contracts speak of them.
pub open spec fn run_views(runs: Seq<CellRun<Cell>>) -> Seq<CellRun<Seq<CellPartView>>> {
    runs.map_values(|run: CellRun<Cell>| run@)
}

/// The stretches of a cell: the formulas in it, and what stands before, between and after them.
pub fn cell_runs(cell: &Cell) -> (runs: Vec<CellRun<Cell>>)
    ensures
        run_views(runs@) == runs_of(cell_view(cell@)).0.push(
            CellRun::Text(runs_of(cell_view(cell@)).1),
        ),
{
    let ghost all = cell_view(cell@);
    let mut runs: Vec<CellRun<Cell>> = Vec::new();
    let mut last: Cell = Vec::new();
    proof {
        assert(all.take(0) =~= Seq::<CellPartView>::empty());
        assert(run_views(runs@) =~= Seq::empty());
        assert(cell_view(last@) =~= Seq::empty());
    }
    for i in 0..cell.len()
        invariant
            all == cell_view(cell@),
            run_views(runs@) == runs_of(all.take(i as int)).0,
            cell_view(last@) == runs_of(all.take(i as int)).1,
    {
        let ghost before = runs@;
        let ghost last_before = last@;
        proof {
            assert(all.take(i + 1).drop_last() =~= all.take(i as int));
            assert(all.take(i + 1).last() == cell@[i as int]@);
        }
        match &cell[i] {
            CellPart::Math { event } => {
                runs.push(CellRun::Text(last));
                runs.push(CellRun::Math { event: *event });
                last = Vec::new();
                proof {
                    assert(cell_view(last@) =~= Seq::empty());
                    assert(run_views(runs@) =~= run_views(before).push(
                        CellRun::Text(cell_view(last_before)),
                    ).push(CellRun::Math { event: *event }));
                }
            },
            part => {
                let copy = copy_cell_part(part);
                last.push(copy);
                proof {
                    assert(cell_view(last@) =~= cell_view(last_before).push(part@));
                }
            },
        }
    }
    proof {
        assert(all.take(all.len() as int) =~= all);
    }
    let ghost before = runs@;
    let ghost rest = last@;
    runs.push(CellRun::Text(last));
    proof {
        assert(run_views(runs@) =~= run_views(before).push(CellRun::Text(cell_view(rest))));
    }
    runs
}

/// Where the text of a cell is set.
#[derive(Debug, Clone, Copy, PartialEq, Eq, Structural)]
pub enum CellAlign {
    Start,
    Center,
    End,
}

/// A part of a table in the grid it is laid out in, by its line and its place in the line.
#[derive(Debug, Clone, Copy, PartialEq, Eq, Structural)]
pub enum GridItem {
    /// A line across the table.
    RowLine { line: i32, columns: i32 },
    /// The cell at `row` and `column` of the table; those of the first row are headings.
    Cell { line: i32, place: i32, row: usize, column: usize, align: CellAlign },
    /// A line between two cells.
    ColumnLine { line: i32, place: i32 },
}

/// Where the text of the cells of a column is set.
pub open spec fn align_of(alignments: Seq<Alignment>, column: int) -> CellAlign {
    if 0 <= column < alignments.len() {
        match alignments[column] {
            Alignment::Right => CellAlign::End,
            Alignment::Center => CellAlign::Center,
            _ => CellAlign::Start,
        }
    } else {
        CellAlign::Start
    }
}

/// The first `n` cells of a row, each with the line before it.
pub open spec fn row_items(alignments: Seq<Alignment>, row: int, n: int) -> Seq<GridItem>
    decreases n,
{
    if n <= 0 {
        Seq::empty()
    } else {
        let column = n - 1;
        let cell = row_items(alignments, row, n - 1).push(
            GridItem::Cell {
                line: (row * 2) as i32,
                place: (column * 2) as i32,
                row: row as usize,
                column: column as usize,
                align: align_of(alignments, column),
            },
        );
        if column > 0 {
            cell.push(
                GridItem::ColumnLine { line: (row * 2) as i32, place: (column * 2 - 1) as i32 },
            )
        } else {
            cell
        }
    }
}

/// The places in a line of a table with so many columns.
pub open spec fn grid_columns(columns: int) -> int {
    if columns > 0 {
        columns * 2 - 1
    } else {
        0
    }
}

/// The first `n` rows of a table whose rows have the given lengths, each after the line above
/// it.
pub open spec fn table_items(lengths: Seq<int>, alignments: Seq<Alignment>, n: int) -> Seq<
    GridItem,
>
    decreases n,
{
    if n <= 0 {
        Seq::empty()
    } else {
        let row = n - 1;
        let before = table_items(lengths, alignments, n - 1);
        (if row > 0 {
            before.push(
                GridItem::RowLine {
                    line: (row * 2 - 1) as i32,
                    columns: grid_columns(lengths[0]) as i32,
                },
            )
        } else {
            before
        }) + row_items(alignments, row, lengths[row])
    }
}

/// How many cells each row has.
pub open spec fn lengths_of(rows: Seq<Vec<Cell>>) -> Seq<int> {
    rows.map_values(|row: Vec<Cell>| row@.len() as int)
}

/// The parts of a table in the grid it is laid out in.
pub fn table_grid(rows: &Vec<Vec<Cell>>, alignments: &Vec<Alignment>) -> (items: Vec<GridItem>)
    requires
        rows@.len() <= 0x3fff_ffff,
        forall|i: int| 0 <= i < rows@.len() ==> (#[trigger] rows@[i])@.len() <= 0x3fff_ffff,
    ensures
        items@ == table_items(lengths_of(rows@), alignments@, rows@.len() as int),
{
    let ghost lengths = lengths_of(rows@);
    let mut items: Vec<GridItem> = Vec::new();
    for row in 0..rows.len()
        invariant
            rows@.len() <= 0x3fff_ffff,
            forall|i: int| 0 <= i < rows@.len() ==> (#[trigger] rows@[i])@.len() <= 0x3fff_ffff,
            lengths == lengths_of(rows@),
            items@ == table_items(lengths, alignments@, row as int),
    {
        let line: i32 = (row as i32) * 2;
        if row > 0 {
            proof {
                assert(lengths[0] == rows@[0]@.len());
            }
            let columns = rows[0].len();
            let across: i32 = if columns > 0 {
                (columns as i32) * 2 - 1
            } else {
                0
            };
            items.push(GridItem::RowLine { line: line - 1, columns: across });
        }
        let ghost before = items@;
        proof {
            assert(lengths[row as int] == rows@[row as int]@.len());
            assert(before + row_items(alignments@, row as int, 0) =~= before);
        }
        let cells: usize = rows[row].len();
        for column in 0..cells
            invariant
                cells == rows@[row as int]@.len(),
                row < rows@.len() <= 0x3fff_ffff,
                rows@[row as int]@.len() <= 0x3fff_ffff,
                line == row * 2,
                items@ == before + row_items(alignments@, row as int, column as int),
        {
            let place: i32 = (column as i32) * 2;
            let align = if column < alignments.len() {
                match alignments[column] {
                    Alignment::Right => CellAlign::End,
                    Alignment::Center => CellAlign::Center,
                    _ => CellAlign::Start,
                }
            } else {
                CellAlign::Start
            };
            items.push(GridItem::Cell { line, place, row, column, align });
            if column > 0 {
                items.push(GridItem::ColumnLine { line, place: place - 1 });
            }
            proof {
                assert(items@ =~= before + row_items(alignments@, row as int, column + 1));
            }
        }
    }
    items
}

/// A cell shows text as raw HTML styles it: the mark that starts a style, and the one that ends it.
pub proof fn cells_are_marked_as_styled(style: HtmlStyle)
    ensures
        ({
            let start = crate::cell::mark_of_style(style).markup_of();
            let end = crate::cell::mark_of_style(style).end().markup_of();
            match style {
                HtmlStyle::Bold => start == "<b>"@ && end == "</b>"@,
                HtmlStyle::Italic => start == "<i>"@ && end == "</i>"@,
                HtmlStyle::Strikethrough => start == "<s>"@ && end == "</s>"@,
                HtmlStyle::Underline => start == "<u>"@ && end == "</u>"@,
                HtmlStyle::Code | HtmlStyle::Keyboard => start == "<tt>"@ && end == "</tt>"@,
                HtmlStyle::Superscript => start == "<sup>"@ && end == "</sup>"@,
                HtmlStyle::Subscript => start == "<sub>"@ && end == "</sub>"@,
                HtmlStyle::Mark => start
                    == "<span background=\"#e5a50a\" bgalpha=\"40%\">"@ && end == "</span>"@,
            }
        }),
{
}

/// The words of a cell: its text and its code, one after the other.
pub open spec fn words_of_cell(cell: Seq<CellPartView>) -> Seq<char>
    decreases cell.len(),
{
    if cell.len() == 0 {
        Seq::empty()
    } else {
        words_of_cell(cell.drop_last()) + match cell.last() {
            CellPart::Code(text) => text,
            CellPart::Text(text) => text,
            _ => Seq::empty(),
        }
    }
}

/// A cell is as wide as its words.
pub proof fn cells_are_as_wide_as_their_words(cell: Seq<CellPartView>)
    ensures
        shown_chars(cell) == words_of_cell(cell).len(),
    decreases cell.len(),
{
    if cell.len() > 0 {
        cells_are_as_wide_as_their_words(cell.drop_last());
    }
}

/// The stretches of a cell one after the other, with the formulas between them.
pub open spec fn put_together(
    runs: Seq<CellRun<Seq<CellPartView>>>,
    last: Seq<CellPartView>,
) -> Seq<CellPartView>
    decreases runs.len(),
{
    if runs.len() == 0 {
        last
    } else {
        put_together(runs.drop_last(), Seq::empty()) + (match runs.last() {
            CellRun::Text(cell) => cell,
            CellRun::Math { event } => seq![CellPart::Math { event }],
        }) + last
    }
}

/// A cell falls into stretches without losing anything: put together they are the cell, and none
/// but the formulas is a formula.
pub proof fn cells_fall_into_runs(cell: Seq<CellPartView>)
    ensures
        put_together(runs_of(cell).0, runs_of(cell).1) == cell,
        forall|i: int|
            0 <= i < runs_of(cell).1.len() ==> !((#[trigger] runs_of(cell).1[i]) is Math),
    decreases cell.len(),
{
    if cell.len() > 0 {
        cells_fall_into_runs(cell.drop_last());
        let (runs, last) = runs_of(cell.drop_last());
        let (all, rest) = runs_of(cell);
        let base = put_together(runs, Seq::empty());
        together_adds(runs, last);
        assert(cell =~= (base + last).push(cell.last()));
        match cell.last() {
            CellPart::Math { event } => {
                let text = runs.push(CellRun::Text(last));
                assert(all.drop_last() =~= text);
                assert(text.drop_last() =~= runs);
                assert(put_together(text, Seq::empty()) =~= base + last);
                assert(put_together(all, rest) =~= put_together(text, Seq::empty()) + seq![
                    CellPart::Math { event },
                ]);
                assert(put_together(all, rest) =~= cell);
            },
            part => {
                together_adds(runs, rest);
                assert(rest =~= last.push(part));
                assert(base + rest =~= (base + last).push(part));
            },
        }
    } else {
        assert(put_together(runs_of(cell).0, runs_of(cell).1) =~= cell);
    }
}

/// What follows the stretches of a cell follows them.
proof fn together_adds(runs: Seq<CellRun<Seq<CellPartView>>>, last: Seq<CellPartView>)
    ensures
        put_together(runs, last) == put_together(runs, Seq::empty()) + last,
{
    assert(put_together(runs, last) =~= put_together(runs, Seq::empty()) + last);
}

/// A column that is aligned to the right or centred is so in every row, and any other starts at its
/// start; a column past the last that has an alignment does too.
pub proof fn columns_are_aligned(alignments: Seq<Alignment>, column: int)
    ensures
        !(0 <= column < alignments.len()) ==> align_of(alignments, column) == CellAlign::Start,
        0 <= column < alignments.len() ==> {
            &&& align_of(alignments, column) == CellAlign::End <==> alignments[column]
                == Alignment::Right
            &&& align_of(alignments, column) == CellAlign::Center <==> alignments[column]
                == Alignment::Center
        },
{
}

}
