//! How the PDF export sets blocks on pages, but for the lengths: the attributes of text, the
//! outline, the addresses of links, and where a page ends.

use crate::export::CodeRun;
use crate::pdf::{
    block_views, row_view, rows_view, Block, BlockView, Inline, Paragraph, ParagraphView,
};
use crate::text::{push_quoted, quoted, quotes_hold, texts, unquoted};
use vstd::prelude::*;
use vstd::string::*;

verus! {

/// `value`, or the largest number there is room for.
pub fn saturating_u32(value: usize) -> (saturated: u32)
    ensures
        saturated == saturated_u32(value as int),
{
    if value <= 0xffff_ffff {
        value as u32
    } else {
        u32::MAX
    }
}

/// `value`, or the largest number there is room for.
pub open spec fn saturated_u32(value: int) -> int {
    if value <= u32::MAX {
        value
    } else {
        u32::MAX as int
    }
}

/// `value`, or the largest number there is room for.
pub fn saturating_i32(value: usize) -> (saturated: i32)
    ensures
        saturated == saturated_i32(value as int),
{
    if value <= 0x7fff_ffff {
        value as i32
    } else {
        i32::MAX
    }
}

/// `value`, or the largest number there is room for.
pub open spec fn saturated_i32(value: int) -> int {
    if value <= i32::MAX {
        value
    } else {
        i32::MAX as int
    }
}

/// How a stretch of text is set.
#[derive(Clone, Copy, Debug, PartialEq, Eq, Structural)]
pub enum Attribute {
    Bold,
    Italic,
    Strikethrough,
    /// In the font of code.
    Monospace,
    /// On the gray of code.
    Background,
    /// With the gray of code shining through.
    BackgroundAlpha,
    /// So many percent of the size around it.
    Scale(u8),
    LinkColor,
    Underline,
    /// Above the line, as a footnote reference.
    Rise,
    /// In the gray of quotes.
    Dim,
    /// In a colour, whose channels have sixteen bits.
    Color(u16, u16, u16),
    /// The formula of an event in the place of the text.
    Formula(usize),
}

/// `attribute` if it is `wanted`.
pub open spec fn only_if(wanted: bool, attributes: Seq<Attribute>) -> Seq<Attribute> {
    if wanted {
        attributes
    } else {
        Seq::empty()
    }
}

/// How text in a style looks.
pub open spec fn looks(style: Inline) -> Seq<Attribute> {
    only_if(style.bold || style.footnote, seq![Attribute::Bold]) + only_if(
        style.italic,
        seq![Attribute::Italic],
    ) + only_if(style.strikethrough, seq![Attribute::Strikethrough]) + only_if(
        style.code,
        seq![
            Attribute::Monospace,
            Attribute::Scale(90),
            Attribute::Background,
            Attribute::BackgroundAlpha,
        ],
    ) + only_if(style.link, seq![Attribute::LinkColor, Attribute::Underline]) + only_if(
        style.footnote,
        seq![Attribute::Rise, Attribute::Scale(80)],
    )
}

/// How text in a style is set.
pub open spec fn style_attributes(style: Inline) -> Seq<Attribute> {
    match style.math {
        Some(event) => looks(style).push(Attribute::Formula(event)),
        None => looks(style),
    }
}

/// How text in a style looks.
fn looks_of(style: Inline) -> (list: Vec<Attribute>)
    ensures
        list@ == looks(style),
{
    let mut list: Vec<Attribute> = Vec::new();
    if style.bold || style.footnote {
        list.push(Attribute::Bold);
    }
    if style.italic {
        list.push(Attribute::Italic);
    }
    if style.strikethrough {
        list.push(Attribute::Strikethrough);
    }
    if style.code {
        list.push(Attribute::Monospace);
        list.push(Attribute::Scale(90));
        list.push(Attribute::Background);
        list.push(Attribute::BackgroundAlpha);
    }
    if style.link {
        list.push(Attribute::LinkColor);
        list.push(Attribute::Underline);
    }
    if style.footnote {
        list.push(Attribute::Rise);
        list.push(Attribute::Scale(80));
    }
    proof {
        assert(list@ =~= looks(style));
    }
    list
}

/// How text in a style is set.
pub fn attributes_of(style: Inline) -> (list: Vec<Attribute>)
    ensures
        list@ == style_attributes(style),
{
    let mut list = looks_of(style);
    if let Some(event) = style.math {
        list.push(Attribute::Formula(event));
    }
    list
}

/// A stretch of text, by its bytes, and how it is set.
pub type Attributed = (u32, u32, Attribute);

/// Attributes over the bytes from `start` to `end`.
pub open spec fn over(attributes: Seq<Attribute>, start: int, end: int) -> Seq<Attributed> {
    attributes.map_values(
        |attribute: Attribute|
            (saturated_u32(start) as u32, saturated_u32(end) as u32, attribute),
    )
}

/// Add attributes over the bytes from `start` to `end`.
fn push_over(list: &mut Vec<Attributed>, attributes: &Vec<Attribute>, start: usize, end: usize)
    ensures
        final(list)@ == old(list)@ + over(attributes@, start as int, end as int),
{
    let ghost before = list@;
    for i in 0..attributes.len()
        invariant
            list@ == before + over(attributes@.take(i as int), start as int, end as int),
    {
        proof {
            assert(over(attributes@.take(i + 1), start as int, end as int) =~= over(
                attributes@.take(i as int),
                start as int,
                end as int,
            ).push(
                (
                    saturated_u32(start as int) as u32,
                    saturated_u32(end as int) as u32,
                    attributes@[i as int],
                ),
            ));
        }
        list.push((saturating_u32(start), saturating_u32(end), attributes[i]));
    }
    proof {
        assert(attributes@.take(attributes@.len() as int) =~= attributes@);
    }
}

/// How styled stretches of text are set.
pub open spec fn styled(styles: Seq<(int, int, Inline)>) -> Seq<Attributed>
    decreases styles.len(),
{
    if styles.len() == 0 {
        Seq::empty()
    } else {
        let last = styles.last();
        styled(styles.drop_last()) + over(style_attributes(last.2), last.0, last.1)
    }
}

/// How a paragraph's styles are set.
pub fn attributes(paragraph: &Paragraph) -> (list: Vec<Attributed>)
    ensures
        list@ == styled(paragraph@.styles),
{
    let mut list: Vec<Attributed> = Vec::new();
    let ghost styles = paragraph@.styles;
    proof {
        assert(styles.take(0) =~= Seq::<(int, int, Inline)>::empty());
    }
    for i in 0..paragraph.styles.len()
        invariant
            styles == paragraph@.styles,
            list@ == styled(styles.take(i as int)),
    {
        let (start, end, style) = paragraph.styles[i];
        proof {
            assert(styles.take(i + 1).drop_last() =~= styles.take(i as int));
            assert(styles.take(i + 1).last() == (start as int, end as int, style));
        }
        push_over(&mut list, &attributes_of(style), start, end);
    }
    proof {
        assert(styles.take(styles.len() as int) =~= styles);
    }
    list
}

/// How a paragraph is set as a whole: `under` below its own styles, each before the one above,
/// and the rest over them.
#[derive(Debug, PartialEq)]
pub struct TextAttributes {
    pub under: Vec<Attribute>,
    pub over: Vec<Attribute>,
}

/// How a block of text is set as a whole: a heading is bold, and a quote dim and italic, while a
/// link or a style inside keeps its own.
pub fn block_attributes(heading: bool, quoted: bool) -> (attributes: TextAttributes)
    ensures
        attributes.over@ == only_if(heading, seq![Attribute::Bold]),
        attributes.under@ == only_if(quoted, seq![Attribute::Italic, Attribute::Dim]),
{
    let mut over: Vec<Attribute> = Vec::new();
    let mut under: Vec<Attribute> = Vec::new();
    if heading {
        over.push(Attribute::Bold);
    }
    if quoted {
        under.push(Attribute::Italic);
        under.push(Attribute::Dim);
    }
    proof {
        assert(over@ =~= only_if(heading, seq![Attribute::Bold]));
        assert(under@ =~= only_if(quoted, seq![Attribute::Italic, Attribute::Dim]));
    }
    TextAttributes { under, over }
}

/// A colour channel of eight bits as one of sixteen.
pub open spec fn wide(channel: u8) -> u16 {
    (channel * 257) as u16
}

/// How a run of code is set.
pub open spec fn run_attributes(run: CodeRun) -> Seq<Attribute> {
    (match run.style.color {
        Some((red, green, blue)) => seq![Attribute::Color(wide(red), wide(green), wide(blue))],
        None => Seq::empty(),
    }) + only_if(run.style.bold, seq![Attribute::Bold]) + only_if(
        run.style.italic,
        seq![Attribute::Italic],
    )
}

/// How runs of code are set.
pub open spec fn coloured(runs: Seq<CodeRun>) -> Seq<Attributed>
    decreases runs.len(),
{
    if runs.len() == 0 {
        Seq::empty()
    } else {
        let last = runs.last();
        coloured(runs.drop_last()) + over(
            run_attributes(last),
            last.range.start as int,
            last.range.end as int,
        )
    }
}

/// How runs of code are set.
pub fn code_attributes(runs: &Vec<CodeRun>) -> (list: Vec<Attributed>)
    ensures
        list@ == coloured(runs@),
{
    let mut list: Vec<Attributed> = Vec::new();
    proof {
        assert(runs@.take(0) =~= Seq::<CodeRun>::empty());
    }
    for i in 0..runs.len()
        invariant
            list@ == coloured(runs@.take(i as int)),
    {
        let run = &runs[i];
        let mut of_run: Vec<Attribute> = Vec::new();
        if let Some((red, green, blue)) = run.style.color {
            of_run.push(
                Attribute::Color(
                    (red as u16) * 257,
                    (green as u16) * 257,
                    (blue as u16) * 257,
                ),
            );
        }
        if run.style.bold {
            of_run.push(Attribute::Bold);
        }
        if run.style.italic {
            of_run.push(Attribute::Italic);
        }
        proof {
            assert(of_run@ =~= run_attributes(*run));
            assert(runs@.take(i + 1).drop_last() =~= runs@.take(i as int));
            assert(runs@.take(i + 1).last() == *run);
        }
        push_over(&mut list, &of_run, run.range.start, run.range.end);
    }
    proof {
        assert(runs@.take(runs@.len() as int) =~= runs@);
    }
    list
}

/// Which of the four sizes a heading has: one of its own down to the fourth level.
pub fn heading_rank(level: usize) -> (rank: usize)
    ensures
        rank == (if level <= 1 {
            0int
        } else if level >= 4 {
            3int
        } else {
            level - 1
        }),
{
    if level <= 1 {
        0
    } else if level >= 4 {
        3
    } else {
        level - 1
    }
}

/// The headings that stay open when one of `level` starts.
pub open spec fn open_headings(outline: Seq<(usize, i32)>, level: usize) -> Seq<(usize, i32)>
    decreases outline.len(),
{
    if outline.len() > 0 && outline.last().0 >= level {
        open_headings(outline.drop_last(), level)
    } else {
        outline
    }
}

/// Whether each open heading is of a lower level than the ones around it.
pub open spec fn is_nested(outline: Seq<(usize, i32)>) -> bool {
    forall|i: int, j: int|
        0 <= i < j < outline.len() ==> (#[trigger] outline[i]).0 < (#[trigger] outline[j]).0
}

/// The entry of the outline that a heading of `level` goes under: the innermost open heading of
/// a higher level, if there is one. The headings it ends are closed.
pub fn outline_parent(outline: &mut Vec<(usize, i32)>, level: usize) -> (parent: Option<i32>)
    ensures
        final(outline)@ == open_headings(old(outline)@, level),
        parent == (if final(outline)@.len() > 0 {
            Some(final(outline)@.last().1)
        } else {
            None
        }),
{
    while outline.len() > 0 && outline[outline.len() - 1].0 >= level
        invariant
            open_headings(outline@, level) == open_headings(old(outline)@, level),
        decreases outline.len(),
    {
        let _ = outline.pop();
    }
    if outline.len() > 0 {
        Some(outline[outline.len() - 1].1)
    } else {
        None
    }
}

/// A heading goes under one of a higher level, and the open headings stay nested.
pub proof fn headings_nest(outline: Seq<(usize, i32)>, level: usize, id: i32)
    requires
        is_nested(outline),
    ensures
        is_nested(open_headings(outline, level).push((level, id))),
        open_headings(outline, level).is_prefix_of(outline),
        open_headings(outline, level).len() > 0 ==> open_headings(outline, level).last().0 < level,
    decreases outline.len(),
{
    if outline.len() > 0 && outline.last().0 >= level {
        headings_nest(outline.drop_last(), level, id);
    }
}

/// An address as the attribute of a link holds it between quotes.
pub fn link_uri(url: &str) -> (uri: String)
    ensures
        uri@ == quoted(url@, '\''),
{
    let mut uri = String::new();
    push_quoted(&mut uri, url, '\'');
    proof {
        assert(uri@ =~= quoted(url@, '\''));
    }
    uri
}

/// Whatever an address holds, it is what is read back between the quotes, and what follows them
/// is not part of it.
pub proof fn addresses_stay_in_their_quotes(url: Seq<char>, after: Seq<char>)
    ensures
        unquoted(quoted(url, '\'') + seq!['\''] + after, '\'') == Some((url, after)),
{
    quotes_hold(url, '\'', after);
}

/// The names of the places in a paragraph.
pub open spec fn mark_names(marks: Seq<(Seq<char>, int)>) -> Seq<Seq<char>> {
    marks.map_values(|mark: (Seq<char>, int)| mark.0)
}

/// The names of the places in the cells of a row.
pub open spec fn row_places(row: Seq<ParagraphView>) -> Seq<Seq<char>>
    decreases row.len(),
{
    if row.len() == 0 {
        Seq::empty()
    } else {
        row_places(row.drop_last()) + mark_names(row.last().marks)
    }
}

/// The names of the places in the rows of a table.
pub open spec fn rows_places(rows: Seq<Seq<ParagraphView>>) -> Seq<Seq<char>>
    decreases rows.len(),
{
    if rows.len() == 0 {
        Seq::empty()
    } else {
        rows_places(rows.drop_last()) + row_places(rows.last())
    }
}

/// The names of the places in a block.
pub open spec fn block_places(block: BlockView) -> Seq<Seq<char>> {
    match block {
        BlockView::Text { paragraph, name, .. } => (match name {
            Some(name) => seq![name],
            None => Seq::empty(),
        }) + mark_names(paragraph.marks),
        BlockView::Table { rows, .. } => rows_places(rows),
        _ => Seq::empty(),
    }
}

/// The names of the places that links in the document can lead to.
pub open spec fn places_of(blocks: Seq<BlockView>) -> Seq<Seq<char>>
    decreases blocks.len(),
{
    if blocks.len() == 0 {
        Seq::empty()
    } else {
        places_of(blocks.drop_last()) + block_places(blocks.last())
    }
}

/// Add the names of the places in a paragraph.
fn push_marks(names: &mut Vec<String>, marks: &Vec<(String, usize)>)
    ensures
        texts(final(names)@) == texts(old(names)@) + mark_names(
            crate::preview::start_views(marks@),
        ),
{
    let ghost before = texts(names@);
    let ghost all = mark_names(crate::preview::start_views(marks@));
    proof {
        assert(before + all.take(0) =~= before);
    }
    for i in 0..marks.len()
        invariant
            all == mark_names(crate::preview::start_views(marks@)),
            texts(names@) == before + all.take(i as int),
    {
        let name = marks[i].0.clone();
        proof {
            assert(all[i as int] == name@);
            assert(texts(names@.push(name)) =~= texts(names@).push(name@));
            assert(all.take(i + 1) =~= all.take(i as int).push(name@));
            assert(texts(names@).push(name@) =~= before + all.take(i + 1));
        }
        names.push(name);
    }
    proof {
        assert(all.take(all.len() as int) =~= all);
    }
}

/// Add the names of the places in the rows of a table.
fn push_row_places(names: &mut Vec<String>, rows: &Vec<Vec<Paragraph>>)
    ensures
        texts(final(names)@) == texts(old(names)@) + rows_places(rows_view(rows@)),
{
    let ghost before = texts(names@);
    let ghost all = rows_view(rows@);
    proof {
        assert(before + rows_places(all.take(0)) =~= before);
    }
    for i in 0..rows.len()
        invariant
            all == rows_view(rows@),
            texts(names@) == before + rows_places(all.take(i as int)),
    {
        let ghost row_before = texts(names@);
        let ghost row = row_view(rows@[i as int]@);
        proof {
            assert(row_before + row_places(row.take(0)) =~= row_before);
        }
        let cells = rows[i].len();
        for j in 0..cells
            invariant
                i < rows@.len(),
                cells == rows@[i as int]@.len(),
                row == row_view(rows@[i as int]@),
                texts(names@) == row_before + row_places(row.take(j as int)),
        {
            push_marks(names, &rows[i][j].marks);
            proof {
                assert(row.take(j + 1).drop_last() =~= row.take(j as int));
                assert(texts(names@) =~= row_before + row_places(row.take(j + 1)));
            }
        }
        proof {
            assert(row.take(row.len() as int) =~= row);
            assert(all.take(i + 1).drop_last() =~= all.take(i as int));
            assert(all.take(i + 1).last() == row);
            assert(texts(names@) =~= before + rows_places(all.take(i + 1)));
        }
    }
    proof {
        assert(all.take(all.len() as int) =~= all);
    }
}

/// The names of the places that links in a document of these blocks can lead to: its headings,
/// its footnotes and the first references to them.
pub fn places(blocks: &Vec<Block>) -> (names: Vec<String>)
    ensures
        texts(names@) == places_of(block_views(blocks@)),
{
    let mut names: Vec<String> = Vec::new();
    let ghost all = block_views(blocks@);
    proof {
        assert(texts(names@) =~= places_of(all.take(0)));
    }
    for i in 0..blocks.len()
        invariant
            all == block_views(blocks@),
            texts(names@) == places_of(all.take(i as int)),
    {
        let ghost before = texts(names@);
        proof {
            assert(all.take(i + 1).drop_last() =~= all.take(i as int));
            assert(all.take(i + 1).last() == blocks@[i as int]@);
        }
        match &blocks[i] {
            Block::Text { paragraph, name, .. } => {
                if let Some(name) = name {
                    let copy = name.clone();
                    proof {
                        assert(texts(names@.push(copy)) =~= texts(names@).push(copy@));
                    }
                    names.push(copy);
                }
                push_marks(&mut names, &paragraph.marks);
            },
            Block::Table { rows, .. } => push_row_places(&mut names, rows),
            _ => {},
        }
        proof {
            assert(texts(names@) =~= before + block_places(blocks@[i as int]@));
        }
    }
    proof {
        assert(all.take(all.len() as int) =~= all);
    }
    names
}

/// Where the lines of a text start and end: each ends where the next one starts.
pub open spec fn ranges_of(starts: Seq<usize>, length: usize) -> Seq<(usize, usize)> {
    Seq::new(
        starts.len(),
        |i: int|
            (
                starts[i],
                if i + 1 < starts.len() {
                    starts[i + 1]
                } else {
                    length
                },
            ),
    )
}

/// Where the lines of a text of `length` bytes start and end, if they start at `starts`.
pub fn line_ranges(starts: &Vec<usize>, length: usize) -> (ranges: Vec<(usize, usize)>)
    ensures
        ranges@ == ranges_of(starts@, length),
{
    let mut ranges: Vec<(usize, usize)> = Vec::new();
    for i in 0..starts.len()
        invariant
            ranges@ == ranges_of(starts@, length).take(i as int),
    {
        let end = if i < starts.len() - 1 {
            starts[i + 1]
        } else {
            length
        };
        proof {
            assert(ranges_of(starts@, length).take(i + 1) =~= ranges_of(starts@, length).take(
                i as int,
            ).push((starts@[i as int], end)));
        }
        ranges.push((starts[i], end));
    }
    proof {
        assert(ranges_of(starts@, length).take(starts@.len() as int) =~= ranges_of(
            starts@,
            length,
        ));
    }
    ranges
}

/// The part of a link that is on a line, both by their bytes.
pub fn link_part(link: (usize, usize), line: (usize, usize)) -> (part: Option<(i32, i32)>)
    ensures
        ({
            let start = if link.0 >= line.0 {
                link.0
            } else {
                line.0
            };
            let end = if link.1 <= line.1 {
                link.1
            } else {
                line.1
            };
            part == (if start < end {
                Some((saturated_i32(start as int) as i32, saturated_i32(end as int) as i32))
            } else {
                None
            })
        }),
{
    let start = if link.0 >= line.0 {
        link.0
    } else {
        line.0
    };
    let end = if link.1 <= line.1 {
        link.1
    } else {
        line.1
    };
    if start < end {
        Some((saturating_i32(start), saturating_i32(end)))
    } else {
        None
    }
}

/// Text is set as its style says: in bold exactly if it is bold or refers to a footnote, in italics
/// exactly if it is italic, struck out exactly if it is struck out, in the font of code exactly if
/// it is code, as a link exactly if it is one, and above the line exactly if it refers to a
/// footnote.
pub proof fn text_is_set_in_its_style(style: Inline)
    ensures
        looks(style).contains(Attribute::Bold) <==> style.bold || style.footnote,
        looks(style).contains(Attribute::Italic) <==> style.italic,
        looks(style).contains(Attribute::Strikethrough) <==> style.strikethrough,
        looks(style).contains(Attribute::Monospace) <==> style.code,
        looks(style).contains(Attribute::LinkColor) <==> style.link,
        looks(style).contains(Attribute::Underline) <==> style.link,
        looks(style).contains(Attribute::Rise) <==> style.footnote,
        style.math matches Some(event) ==> style_attributes(style).last() == Attribute::Formula(
            event,
        ),
{
    looks_hold(style, Attribute::Bold);
    looks_hold(style, Attribute::Italic);
    looks_hold(style, Attribute::Strikethrough);
    looks_hold(style, Attribute::Monospace);
    looks_hold(style, Attribute::LinkColor);
    looks_hold(style, Attribute::Underline);
    looks_hold(style, Attribute::Rise);
}

/// Which attributes a style has.
#[verifier::spinoff_prover]
proof fn looks_hold(style: Inline, attribute: Attribute)
    ensures
        match attribute {
            Attribute::Bold => looks(style).contains(attribute) == (style.bold || style.footnote),
            Attribute::Italic => looks(style).contains(attribute) == style.italic,
            Attribute::Strikethrough => looks(style).contains(attribute) == style.strikethrough,
            Attribute::Monospace => looks(style).contains(attribute) == style.code,
            Attribute::LinkColor | Attribute::Underline => looks(style).contains(attribute)
                == style.link,
            Attribute::Rise => looks(style).contains(attribute) == style.footnote,
            _ => true,
        },
{
    let one = seq![Attribute::Bold];
    let two = seq![Attribute::Italic];
    let three = seq![Attribute::Strikethrough];
    let four = seq![
        Attribute::Monospace,
        Attribute::Scale(90),
        Attribute::Background,
        Attribute::BackgroundAlpha,
    ];
    let five = seq![Attribute::LinkColor, Attribute::Underline];
    let six = seq![Attribute::Rise, Attribute::Scale(80)];
    let bold = only_if(style.bold || style.footnote, one);
    let italic = only_if(style.italic, two);
    let struck = only_if(style.strikethrough, three);
    let code = only_if(style.code, four);
    let link = only_if(style.link, five);
    let note = only_if(style.footnote, six);
    both_hold(bold, italic, attribute);
    both_hold(bold + italic, struck, attribute);
    both_hold(bold + italic + struck, code, attribute);
    both_hold(bold + italic + struck + code, link, attribute);
    both_hold(bold + italic + struck + code + link, note, attribute);
    assert(one[0] == Attribute::Bold);
    assert(two[0] == Attribute::Italic);
    assert(three[0] == Attribute::Strikethrough);
    assert(four[0] == Attribute::Monospace);
    assert(five[0] == Attribute::LinkColor && five[1] == Attribute::Underline);
    assert(six[0] == Attribute::Rise);
}

/// What two lists hold one after the other.
proof fn both_hold(one: Seq<Attribute>, other: Seq<Attribute>, attribute: Attribute)
    ensures
        (one + other).contains(attribute) <==> one.contains(attribute) || other.contains(attribute),
{
    let both = one + other;
    if one.contains(attribute) {
        let i = one.index_of(attribute);
        assert(both[i] == attribute);
    }
    if other.contains(attribute) {
        let i = other.index_of(attribute);
        assert(both[one.len() + i] == attribute);
    }
    if both.contains(attribute) {
        let i = both.index_of(attribute);
        if i < one.len() {
            assert(one[i] == attribute);
        } else {
            assert(other[i - one.len()] == attribute);
        }
    }
}

}
